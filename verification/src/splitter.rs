//! Splitting a long unit sequence into chunks that fit a fixed input
//! window.
//!
//! Every position has a score: 3 where a sentence ends or padding stands,
//! 2 at the other pauses, 1 at a space and 0 inside a word. Candidates for
//! a split are position 0 and the positions of score 3. Where two
//! neighbouring candidates lie further apart than the window, the pauses
//! between them are added, and after that the spaces. A last pass keeps as
//! few of the candidates as the window allows.
use crate::phonemes::Unit;
use vstd::prelude::*;

verus! {

/// How good a place for a split the unit is; 0 says never split here.
pub open spec fn score(u: Unit) -> nat {
    match u {
        Unit::Punct(p) => if p.ends_sentence() {
            3
        } else if p.pauses() {
            2
        } else {
            0
        },
        Unit::Padding => 3,
        Unit::Space => 1,
        _ => 0,
    }
}

/// Scores how good this location is for splitting the transcript.
pub fn split_score(unit: &Unit) -> (s: usize)
    ensures
        s == score(*unit),
{
    match unit {
        Unit::Punct(p) => {
            if p.is_sentence_end() {
                3
            } else if p.is_pause() {
                2
            } else {
                0
            }
        },
        Unit::Padding => 3,
        Unit::Space => 1,
        _ => 0,
    }
}

/// The marks of the first tier: the positions of score 3.
pub open spec fn seed_marks(units: Seq<Unit>) -> Seq<bool> {
    Seq::new(units.len(), |i: int| score(units[i]) > 2)
}

/// Whether position `i` is a candidate under `marks`. Position 0 always
/// is one.
pub open spec fn is_mark(marks: Seq<bool>, i: int) -> bool {
    i == 0 || (0 < i < marks.len() && marks[i])
}

/// The last candidate at or before `i`.
pub open spec fn prev_mark(marks: Seq<bool>, i: int) -> int
    decreases i,
{
    if i <= 0 {
        0
    } else if i < marks.len() && marks[i] {
        i
    } else {
        prev_mark(marks, i - 1)
    }
}

/// The first candidate at or after `i`, or the length where there is none.
pub open spec fn next_mark(marks: Seq<bool>, i: int) -> int
    decreases marks.len() - i,
{
    if i >= marks.len() {
        marks.len() as int
    } else if is_mark(marks, i) {
        i
    } else {
        next_mark(marks, i + 1)
    }
}

/// Whether a refinement pass adds position `i`: its score is above
/// `floor`, the candidates around it lie more than `max` apart, and it
/// does not directly follow the one before it.
pub open spec fn joins(units: Seq<Unit>, marks: Seq<bool>, max: int, floor: nat, i: int) -> bool {
    &&& score(units[i]) > floor
    &&& next_mark(marks, i) - prev_mark(marks, i) > max
    &&& i > prev_mark(marks, i) + 1
}

/// The marks after one refinement pass.
pub open spec fn refined_marks(units: Seq<Unit>, marks: Seq<bool>, max: int, floor: nat) -> Seq<
    bool,
> {
    Seq::new(marks.len(), |i: int| marks[i] || joins(units, marks, max, floor, i))
}

/// The marks after both refinement passes: first the pauses, then the
/// spaces.
pub open spec fn final_marks(units: Seq<Unit>, max: int) -> Seq<bool> {
    refined_marks(units, refined_marks(units, seed_marks(units), max, 1), max, 0)
}

/// Position 0, then the marked positions below `hi`, ascending.
pub open spec fn marked_upto(marks: Seq<bool>, hi: int) -> Seq<int>
    decreases hi,
{
    if hi <= 1 {
        seq![0]
    } else if marks[hi - 1] {
        marked_upto(marks, hi - 1).push(hi - 1)
    } else {
        marked_upto(marks, hi - 1)
    }
}

/// The candidates for a split, ascending.
pub open spec fn candidates(units: Seq<Unit>, max: int) -> Seq<int> {
    marked_upto(final_marks(units, max), units.len() as int)
}

/// The split that a walk stands on after its first `k` stops: the last
/// one chosen, or 0.
pub open spec fn anchor(chosen: Seq<int>) -> int {
    if chosen.len() == 0 {
        0
    } else {
        chosen.last()
    }
}

/// The splits chosen on the way over the first `k` stops of `walk`. A
/// stop is chosen when the one after it lies more than `max` beyond the
/// last split chosen.
pub open spec fn chosen_upto(walk: Seq<int>, k: int, max: int) -> Seq<int>
    decreases k,
{
    if k <= 1 {
        Seq::empty()
    } else {
        let before = chosen_upto(walk, k - 1, max);
        if walk[k - 1] - anchor(before) > max {
            before.push(walk[k - 2])
        } else {
            before
        }
    }
}

/// The split points of `units` for a window of `max` units.
pub open spec fn splits(units: Seq<Unit>, max: int) -> Seq<int> {
    let walk = candidates(units, max).push(units.len() as int);
    chosen_upto(walk, walk.len() as int, max)
}

/// Positions as mathematical integers.
pub open spec fn positions(v: Seq<usize>) -> Seq<int> {
    v.map_values(|x: usize| x as int)
}

/// Whether `i` is a place where a split may stand: the unit there is a
/// space, a pause or padding.
pub open spec fn is_boundary(units: Seq<Unit>, i: int) -> bool {
    0 <= i < units.len() && score(units[i]) > 0
}

/// Whether `a` and `b` are two boundaries that lie more than `max` apart.
/// The start and the end of the sequence count as boundaries.
pub open spec fn far_apart(units: Seq<Unit>, max: int, a: int, b: int) -> bool {
    &&& a == 0 || is_boundary(units, a)
    &&& b == units.len() || is_boundary(units, b)
    &&& 0 <= a < b <= units.len()
    &&& b - a > max
}

/// Whether the sequence can be cut into pieces of at most `max` units at
/// its boundaries. Between two boundaries that lie more than `max` apart
/// there must be another one, and not directly after the first.
pub open spec fn splittable(units: Seq<Unit>, max: int) -> bool {
    forall|a: int, b: int| #[trigger]
        far_apart(units, max, a, b) ==> exists|c: int|
            a + 1 < c < b && #[trigger] is_boundary(units, c)
}

/// Whether no piece is longer than `max` when a sequence of `len` units
/// is cut at `cuts`.
pub open spec fn pieces_fit(cuts: Seq<int>, len: int, max: int) -> bool {
    &&& forall|k: int| 0 <= k < cuts.len() - 1 ==> #[trigger] cuts[k + 1] - cuts[k] <= max
    &&& len - anchor(cuts) <= max
    &&& cuts.len() > 0 ==> cuts[0] <= max
}

/// Whether no two neighbouring stops of a walk lie more than `max`
/// apart.
pub open spec fn neighbours_fit(walk: Seq<int>, max: int) -> bool {
    forall|j: int| 0 <= j < walk.len() - 1 ==> #[trigger] walk[j + 1] - walk[j] <= max
}

/// Whether the candidates for a split stand close enough: no two
/// neighbours among them, the end of the sequence taken in, lie more
/// than `max` apart.
pub open spec fn candidates_fit(units: Seq<Unit>, max: int) -> bool {
    neighbours_fit(candidates(units, max).push(units.len() as int), max)
}

/// Whether every element is larger than those before it.
pub open spec fn strictly_ascending(s: Seq<int>) -> bool {
    forall|i: int, j: int| 0 <= i < j < s.len() ==> s[i] < s[j]
}

proof fn lemma_prev_mark(marks: Seq<bool>, i: int)
    requires
        0 <= i,
    ensures
        0 <= prev_mark(marks, i) <= i,
        is_mark(marks, prev_mark(marks, i)),
        forall|j: int| prev_mark(marks, i) < j <= i ==> !is_mark(marks, j),
    decreases i,
{
    if i > 0 && !(i < marks.len() && marks[i]) {
        lemma_prev_mark(marks, i - 1);
    }
}

proof fn lemma_next_mark(marks: Seq<bool>, i: int)
    requires
        0 <= i <= marks.len(),
    ensures
        i <= next_mark(marks, i) <= marks.len(),
        next_mark(marks, i) == marks.len() || is_mark(marks, next_mark(marks, i)),
        forall|j: int| i <= j < next_mark(marks, i) ==> !is_mark(marks, j),
    decreases marks.len() - i,
{
    if i < marks.len() && !is_mark(marks, i) {
        lemma_next_mark(marks, i + 1);
    }
}

/// What the list of marked positions holds.
proof fn lemma_marked_upto(marks: Seq<bool>, hi: int)
    requires
        hi <= marks.len(),
    ensures
        marked_upto(marks, hi).len() >= 1,
        marked_upto(marks, hi)[0] == 0,
        strictly_ascending(marked_upto(marks, hi)),
        forall|k: int|
            0 <= k < marked_upto(marks, hi).len() ==> is_mark(
                marks,
                #[trigger] marked_upto(marks, hi)[k],
            ) && (marked_upto(marks, hi)[k] < hi || marked_upto(marks, hi)[k] == 0),
        forall|i: int|
            0 <= i < hi && is_mark(marks, i) ==> marked_upto(marks, hi).contains(i),
    decreases hi,
{
    let s = marked_upto(marks, hi);
    if hi <= 1 {
        assert(s[0] == 0);
        assert forall|i: int| 0 <= i < hi && is_mark(marks, i) implies s.contains(i) by {
            assert(s[0] == i);
        }
    } else {
        let t = marked_upto(marks, hi - 1);
        lemma_marked_upto(marks, hi - 1);
        assert forall|i: int| 0 <= i < hi && is_mark(marks, i) implies s.contains(i) by {
            if i < hi - 1 {
                let k = choose|k: int| 0 <= k < t.len() && t[k] == i;
                assert(s[k] == i);
            } else {
                assert(s[s.len() - 1] == i);
            }
        }
    }
}

/// Between two neighbours of an ascending list lies no member of it.
proof fn lemma_no_member_between(s: Seq<int>, k: int, c: int)
    requires
        strictly_ascending(s),
        0 <= k < s.len(),
        s[k] < c,
        k + 1 < s.len() ==> c < s[k + 1],
    ensures
        !s.contains(c),
{
    if s.contains(c) {
        let j = choose|j: int| 0 <= j < s.len() && s[j] == c;
        if j <= k {
            if j < k {
                assert(s[j] < s[k]);
            }
        } else if j > k + 1 {
            assert(s[k + 1] < s[j]);
        }
    }
}

/// Marks only ever stand on boundaries.
pub open spec fn marks_on_boundaries(units: Seq<Unit>, marks: Seq<bool>) -> bool {
    &&& marks.len() == units.len()
    &&& forall|i: int| 0 <= i < marks.len() && #[trigger] marks[i] ==> score(units[i]) > 0
}

proof fn lemma_final_marks(units: Seq<Unit>, max: int)
    ensures
        marks_on_boundaries(units, final_marks(units, max)),
{
    let m0 = seed_marks(units);
    let m1 = refined_marks(units, m0, max, 1);
    let m2 = refined_marks(units, m1, max, 0);
    assert(marks_on_boundaries(units, m0));
    assert(marks_on_boundaries(units, m1));
    assert(marks_on_boundaries(units, m2));
}

/// What the chosen splits are, whatever the walk: stops of the walk
/// before the last one looked at, in ascending order.
proof fn lemma_chosen_upto(walk: Seq<int>, k: int, max: int)
    requires
        strictly_ascending(walk),
        walk.len() >= 1,
        walk[0] == 0,
        1 <= k <= walk.len(),
        max >= 0,
    ensures
        strictly_ascending(chosen_upto(walk, k, max)),
        forall|j: int|
            0 <= j < chosen_upto(walk, k, max).len() ==> exists|t: int|
                0 <= t < k - 1 && walk[t] == #[trigger] chosen_upto(walk, k, max)[j],
        anchor(chosen_upto(walk, k, max)) <= walk[k - 1],
        k >= 2 ==> anchor(chosen_upto(walk, k, max)) <= walk[k - 2],
        0 <= anchor(chosen_upto(walk, k, max)),
    decreases k,
{
    if k > 1 {
        lemma_chosen_upto(walk, k - 1, max);
        let before = chosen_upto(walk, k - 1, max);
        let now = chosen_upto(walk, k, max);
        assert(walk[k - 2] < walk[k - 1]);
        if walk[k - 1] - anchor(before) > max {
            assert(now == before.push(walk[k - 2]));
            // the stop chosen now lies beyond the last one chosen
            if before.len() > 0 {
                let t = choose|t: int| 0 <= t < k - 2 && walk[t] == before[before.len() - 1];
                assert(walk[t] < walk[k - 2]);
            }
            assert forall|i: int, j: int| 0 <= i < j < now.len() implies now[i] < now[j] by {
                if j == now.len() - 1 && i < before.len() - 1 {
                    assert(before[i] < before[before.len() - 1]);
                }
            }
            assert forall|j: int| 0 <= j < now.len() implies exists|t: int|
                0 <= t < k - 1 && walk[t] == #[trigger] now[j] by {
                if j < before.len() {
                    let t = choose|t: int| 0 <= t < k - 2 && walk[t] == before[j];
                    assert(walk[t] == now[j]);
                } else {
                    assert(walk[k - 2] == now[j]);
                }
            }
        } else {
            assert(now == before);
            assert forall|j: int| 0 <= j < now.len() implies exists|t: int|
                0 <= t < k - 1 && walk[t] == #[trigger] now[j] by {
                let t = choose|t: int| 0 <= t < k - 2 && walk[t] == before[j];
                assert(walk[t] == now[j]);
            }
        }
    }
}

/// Where the whole walk fits the window at once, nothing is chosen.
proof fn lemma_chosen_none(walk: Seq<int>, k: int, max: int)
    requires
        forall|j: int| 0 <= j < walk.len() ==> 0 <= #[trigger] walk[j] <= max,
        k <= walk.len(),
    ensures
        chosen_upto(walk, k, max) == Seq::<int>::empty(),
    decreases k,
{
    if k > 1 {
        lemma_chosen_none(walk, k - 1, max);
    }
}

/// Where no two neighbouring stops lie more than `max` apart, neither do
/// the chosen ones, and the first stop is not chosen.
proof fn lemma_chosen_fit(walk: Seq<int>, k: int, max: int)
    requires
        strictly_ascending(walk),
        walk.len() >= 1,
        walk[0] == 0,
        1 <= k <= walk.len(),
        max >= 0,
        neighbours_fit(walk, max),
    ensures
        pieces_fit(chosen_upto(walk, k, max), walk[k - 1], max),
        forall|j: int|
            0 <= j < chosen_upto(walk, k, max).len() ==> #[trigger] chosen_upto(walk, k, max)[j]
                > 0,
    decreases k,
{
    if k > 1 {
        lemma_chosen_fit(walk, k - 1, max);
        lemma_chosen_upto(walk, k - 1, max);
        let before = chosen_upto(walk, k - 1, max);
        let now = chosen_upto(walk, k, max);
        assert(walk[(k - 2) + 1] - walk[k - 2] <= max);
        if walk[k - 1] - anchor(before) > max {
            assert(now == before.push(walk[k - 2]));
            // the first stop is never chosen: the second lies within the window
            assert(k > 2);
            assert(walk[0] < walk[k - 2]);
            assert forall|j: int| 0 <= j < now.len() - 1 implies #[trigger] now[j + 1] - now[j]
                <= max by {
                if j + 1 < before.len() {
                    assert(before[j + 1] - before[j] <= max);
                }
            }
        }
    }
}

/// Where the chosen splits cut the walk into pieces that fit, the stops
/// of the walk stand close enough: every gap between two stops lies
/// within one piece.
proof fn lemma_fit_needs_neighbours(walk: Seq<int>, k: int, max: int)
    requires
        strictly_ascending(walk),
        walk.len() >= 1,
        walk[0] == 0,
        1 <= k <= walk.len(),
        max >= 0,
        pieces_fit(chosen_upto(walk, k, max), walk[k - 1], max),
    ensures
        neighbours_fit(walk.take(k), max),
    decreases k,
{
    if k > 1 {
        lemma_chosen_upto(walk, k - 1, max);
        lemma_chosen_upto(walk, k, max);
        let before = chosen_upto(walk, k - 1, max);
        let now = chosen_upto(walk, k, max);
        assert(walk[k - 2] < walk[k - 1]);
        if walk[k - 1] - anchor(before) > max {
            assert(now == before.push(walk[k - 2]));
            assert forall|j: int| 0 <= j < before.len() - 1 implies #[trigger] before[j + 1]
                - before[j] <= max by {
                assert(now[j + 1] - now[j] <= max);
            }
            if before.len() > 0 {
                assert(now[(before.len() - 1) + 1] - now[before.len() - 1] <= max);
                assert(now[0] == before[0]);
            } else {
                assert(now[0] == walk[k - 2]);
            }
        } else {
            assert(now == before);
        }
        assert(pieces_fit(before, walk[k - 2], max));
        lemma_fit_needs_neighbours(walk, k - 1, max);
        assert forall|j: int| 0 <= j < k - 1 implies #[trigger] walk.take(k)[j + 1]
            - walk.take(k)[j] <= max by {
            if j < k - 2 {
                assert(walk.take(k - 1)[j + 1] - walk.take(k - 1)[j] <= max);
            }
        }
    }
}

/// Where the sequence is splittable, no two neighbouring candidates lie
/// more than `max` apart.
pub proof fn lemma_splittable_fits(units: Seq<Unit>, max: int)
    requires
        max >= 0,
        splittable(units, max),
    ensures
        candidates_fit(units, max),
{
    let len = units.len() as int;
    let m1 = refined_marks(units, seed_marks(units), max, 1);
    let m2 = final_marks(units, max);
    let c = candidates(units, max);
    let walk = c.push(len);
    lemma_final_marks(units, max);
    lemma_marked_upto(m2, len);
    assert forall|j: int| 0 <= j < walk.len() - 1 implies #[trigger] walk[j + 1] - walk[j]
        <= max by {
        let a = walk[j];
        let b = walk[j + 1];
        assert(a == c[j]);
        assert(is_mark(m2, c[j]));
        if j + 1 < c.len() {
            assert(b == c[j + 1]);
            assert(is_mark(m2, c[j + 1]));
            assert(c[j] < c[j + 1]);
        }
        if b - a > max {
            assert(far_apart(units, max, a, b));
            let x = choose|x: int| a + 1 < x < b && #[trigger] is_boundary(units, x);
            lemma_no_member_between(c, j, x);
            assert(!is_mark(m2, x));
            // the candidates around `x` one pass earlier are at least as far apart
            lemma_prev_mark(m1, x);
            lemma_next_mark(m1, x);
            let p = prev_mark(m1, x);
            let n = next_mark(m1, x);
            assert(is_mark(m2, p));
            assert(c.contains(p));
            if p > a {
                lemma_no_member_between(c, j, p);
            }
            if n < b {
                assert(is_mark(m1, n));
                assert(is_mark(m2, n));
                assert(c.contains(n));
                assert(n != x);
                lemma_no_member_between(c, j, n);
            }
            assert(joins(units, m1, max, 0, x));
            assert(m2[x]);
        }
    }
}

/// The marks after one refinement pass over `marks`.
fn refine(units: &[Unit], marks: &Vec<bool>, max_size: usize, floor: usize) -> (out: Vec<bool>)
    requires
        marks.len() == units.len(),
    ensures
        out@ == refined_marks(units@, marks@, max_size as int, floor as nat),
{
    let len = units.len();
    let mut before: Vec<usize> = Vec::new();
    let mut i: usize = 0;
    while i < len
        invariant
            i <= len,
            len == marks.len(),
            before.len() == i,
            forall|j: int| 0 <= j < i ==> #[trigger] before@[j] == prev_mark(marks@, j),
        decreases len - i,
    {
        let p: usize = if i == 0 {
            0
        } else if marks[i] {
            i
        } else {
            before[i - 1]
        };
        before.push(p);
        i += 1;
    }
    let mut after: Vec<usize> = Vec::new();
    let mut j: usize = 0;
    while j < len
        invariant
            j <= len,
            after.len() == j,
        decreases len - j,
    {
        after.push(len);
        j += 1;
    }
    let mut k: usize = len;
    while k > 0
        invariant
            k <= len,
            len == marks.len(),
            after.len() == len,
            forall|j: int| k <= j < len ==> #[trigger] after@[j] == next_mark(marks@, j),
        decreases k,
    {
        k -= 1;
        let n: usize = if k == 0 || marks[k] {
            k
        } else if k + 1 < len {
            after[k + 1]
        } else {
            len
        };
        assert(n == next_mark(marks@, k as int)) by {
            if k + 1 >= len {
                assert(next_mark(marks@, k + 1) == len);
            }
        }
        after.set(k, n);
    }
    let mut out: Vec<bool> = Vec::new();
    let mut i: usize = 0;
    while i < len
        invariant
            i <= len,
            len == marks.len(),
            len == units.len(),
            before.len() == len,
            after.len() == len,
            forall|j: int| 0 <= j < len ==> #[trigger] before@[j] == prev_mark(marks@, j),
            forall|j: int| 0 <= j < len ==> #[trigger] after@[j] == next_mark(marks@, j),
            out.len() == i,
            forall|j: int|
                0 <= j < i ==> #[trigger] out@[j] == (marks@[j] || joins(
                    units@,
                    marks@,
                    max_size as int,
                    floor as nat,
                    j,
                )),
        decreases len - i,
    {
        proof {
            lemma_prev_mark(marks@, i as int);
            lemma_next_mark(marks@, i as int);
        }
        let joined = split_score(&units[i]) > floor && after[i] - before[i] > max_size && i
            > before[i] + 1;
        out.push(marks[i] || joined);
        i += 1;
    }
    out
}

/// Given a length constraint, finds where to split the units into chunks
/// of at most `max_size`.
///
/// The result is ascending and holds only positions below the length.
/// Each is a boundary (a space, a pause or padding), or position 0 where
/// no boundary lies within the first window. Where the sequence fits the
/// window nothing is returned. Every piece between neighbouring splits,
/// the start and the end fits the window exactly when the candidates
/// stand close enough, and then every split is a boundary. They do
/// stand close enough where the sequence is splittable.
pub fn find_splits(units: &[Unit], max_size: usize) -> (result: Vec<usize>)
    ensures
        positions(result@) == splits(units@, max_size as int),
        strictly_ascending(positions(result@)),
        forall|k: int|
            0 <= k < result.len() ==> #[trigger] result[k] < units.len() && (result[k] == 0
                || is_boundary(units@, result[k] as int)),
        units.len() <= max_size ==> result.len() == 0,
        pieces_fit(positions(result@), units.len() as int, max_size as int) <==> candidates_fit(
            units@,
            max_size as int,
        ),
        candidates_fit(units@, max_size as int) ==> forall|k: int|
            0 <= k < result.len() ==> is_boundary(units@, #[trigger] result[k] as int),
        splittable(units@, max_size as int) ==> candidates_fit(units@, max_size as int),
{
    let len = units.len();
    if len == 0 {
        proof {
            let max = max_size as int;
            let walk = candidates(units@, max).push(0);
            assert(chosen_upto(walk, 1, max) == Seq::<int>::empty());
        }
        return Vec::new();
    }
    let mut seeds: Vec<bool> = Vec::new();
    let mut i: usize = 0;
    while i < len
        invariant
            i <= len,
            len == units.len(),
            seeds.len() == i,
            forall|j: int| 0 <= j < i ==> #[trigger] seeds@[j] == (score(units@[j]) > 2),
        decreases len - i,
    {
        seeds.push(split_score(&units[i]) > 2);
        i += 1;
    }
    assert(seeds@ == seed_marks(units@));
    let with_pauses = refine(units, &seeds, max_size, 1);
    let marks = refine(units, &with_pauses, max_size, 0);

    let mut stops: Vec<usize> = Vec::new();
    stops.push(0);
    let mut i: usize = 1;
    while i < len
        invariant
            1 <= i <= len,
            len == marks.len(),
            positions(stops@) == marked_upto(marks@, i as int),
        decreases len - i,
    {
        if marks[i] {
            stops.push(i);
        }
        i += 1;
    }
    proof {
        lemma_marked_upto(marks@, len as int);
    }
    stops.push(len);
    let ghost walk = positions(stops@);
    proof {
        assert(walk == candidates(units@, max_size as int).push(len as int));
    }
    let mut result: Vec<usize> = Vec::new();
    let mut last: usize = 0;
    let mut k: usize = 1;
    while k < stops.len()
        invariant
            1 <= k <= stops.len(),
            walk == positions(stops@),
            positions(result@) == chosen_upto(walk, k as int, max_size as int),
            last == anchor(positions(result@)),
            strictly_ascending(walk),
            walk.len() >= 1,
            walk[0] == 0,
        decreases stops.len() - k,
    {
        proof {
            lemma_chosen_upto(walk, k as int, max_size as int);
            assert(walk[k - 1] < walk[k as int]);
        }
        if stops[k] - last > max_size {
            last = stops[k - 1];
            result.push(last);
        }
        k += 1;
    }
    proof {
        let max = max_size as int;
        let chosen = positions(result@);
        lemma_chosen_upto(walk, walk.len() as int, max);
        assert forall|k: int| 0 <= k < result.len() implies #[trigger] result[k] < units.len() && (
        result[k] == 0 || is_boundary(units@, result[k] as int)) by {
            let t = choose|t: int| 0 <= t < walk.len() - 1 && walk[t] == chosen[k];
        }
        if len <= max_size {
            lemma_chosen_none(walk, walk.len() as int, max);
        }
        if splittable(units@, max) {
            lemma_splittable_fits(units@, max);
        }
        if candidates_fit(units@, max) {
            lemma_chosen_fit(walk, walk.len() as int, max);
            assert forall|k: int| 0 <= k < result.len() implies is_boundary(
                units@,
                #[trigger] result[k] as int,
            ) by {
                assert(chosen[k] > 0);
            }
        }
        if pieces_fit(chosen, len as int, max) {
            lemma_fit_needs_neighbours(walk, walk.len() as int, max);
            assert(walk.take(walk.len() as int) == walk);
        }
    }
    result
}

} // verus!
