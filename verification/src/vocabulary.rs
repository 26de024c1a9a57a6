//! The vocabulary of a model: the ordered list of units it knows. The
//! position of a unit in the list is the index that the model is fed.
use crate::phonemes::Unit;
use vstd::prelude::*;

verus! {

/// Whether `entry` is a phonetic unit of the same phone as `wanted`,
/// whatever its stress.
pub open spec fn same_phone(entry: Unit, wanted: Unit) -> bool {
    match (entry, wanted) {
        (Unit::Phone(e), Unit::Phone(w)) => e.phone == w.phone,
        _ => false,
    }
}

/// The first position of `list` that holds `wanted` itself.
pub open spec fn first_exact(list: Seq<Unit>, wanted: Unit) -> Option<int>
    decreases list.len(),
{
    if list.len() == 0 {
        None
    } else {
        match first_exact(list.drop_last(), wanted) {
            Some(i) => Some(i),
            None => if list.last() == wanted {
                Some(list.len() - 1)
            } else {
                None
            },
        }
    }
}

/// The first position of `list` that holds the phone of `wanted`.
pub open spec fn first_same_phone(list: Seq<Unit>, wanted: Unit) -> Option<int>
    decreases list.len(),
{
    if list.len() == 0 {
        None
    } else {
        match first_same_phone(list.drop_last(), wanted) {
            Some(i) => Some(i),
            None => if same_phone(list.last(), wanted) {
                Some(list.len() - 1)
            } else {
                None
            },
        }
    }
}

/// The index that stands for `wanted` in `list`: the first entry equal to
/// it, and for a phone without such an entry the first entry of the same
/// phone.
pub open spec fn best_match(list: Seq<Unit>, wanted: Unit) -> Option<int> {
    match first_exact(list, wanted) {
        Some(i) => Some(i),
        None => first_same_phone(list, wanted),
    }
}

/// `first_exact` finds the first equal entry, and finds one if there is
/// any.
pub proof fn lemma_first_exact(list: Seq<Unit>, wanted: Unit)
    ensures
        match first_exact(list, wanted) {
            Some(i) => 0 <= i < list.len() && list[i] == wanted && forall|j: int|
                0 <= j < i ==> list[j] != wanted,
            None => forall|j: int| 0 <= j < list.len() ==> list[j] != wanted,
        },
    decreases list.len(),
{
    if list.len() > 0 {
        lemma_first_exact(list.drop_last(), wanted);
        let front = list.drop_last();
        assert forall|j: int| 0 <= j < front.len() implies front[j] == list[j] by {}
        match first_exact(front, wanted) {
            Some(i) => {
                assert(list[i] == front[i]);
                assert forall|j: int| 0 <= j < i implies list[j] != wanted by {
                    assert(front[j] == list[j]);
                }
            },
            None => {
                assert forall|j: int| 0 <= j < list.len() - 1 implies list[j] != wanted by {
                    assert(front[j] == list[j]);
                }
            },
        }
    }
}

/// `first_same_phone` finds the first entry of the phone, and finds one
/// if there is any.
pub proof fn lemma_first_same_phone(list: Seq<Unit>, wanted: Unit)
    ensures
        match first_same_phone(list, wanted) {
            Some(i) => 0 <= i < list.len() && same_phone(list[i], wanted) && forall|j: int|
                0 <= j < i ==> !same_phone(list[j], wanted),
            None => forall|j: int| 0 <= j < list.len() ==> !same_phone(list[j], wanted),
        },
    decreases list.len(),
{
    if list.len() > 0 {
        lemma_first_same_phone(list.drop_last(), wanted);
        let front = list.drop_last();
        match first_same_phone(front, wanted) {
            Some(i) => {
                assert(list[i] == front[i]);
                assert forall|j: int| 0 <= j < i implies !same_phone(list[j], wanted) by {
                    assert(front[j] == list[j]);
                }
            },
            None => {
                assert forall|j: int| 0 <= j < list.len() - 1 implies !same_phone(
                    list[j],
                    wanted,
                ) by {
                    assert(front[j] == list[j]);
                }
            },
        }
    }
}

/// What a match is worth: the index found is within the list, and the
/// entry there is the unit itself or, for a phone, a unit of the same
/// phone. Where nothing is found the list holds neither.
pub proof fn lemma_best_match(list: Seq<Unit>, wanted: Unit)
    ensures
        match best_match(list, wanted) {
            Some(i) => 0 <= i < list.len() && (list[i] == wanted || same_phone(list[i], wanted)),
            None => forall|j: int|
                0 <= j < list.len() ==> list[j] != wanted && !same_phone(list[j], wanted),
        },
{
    lemma_first_exact(list, wanted);
    lemma_first_same_phone(list, wanted);
}

/// Finds the index of `unit_list` that best stands for `unit`.
///
/// An entry equal to the unit wins. A phone that has no equal entry is
/// given the first entry of the same phone, whatever its stress. `None`
/// says that the list holds neither.
pub fn best_match_for_unit(unit: &Unit, unit_list: &[Unit]) -> (best: Option<i64>)
    requires
        unit_list.len() <= i64::MAX,
    ensures
        match best {
            Some(i) => best_match(unit_list@, *unit) == Some(i as int),
            None => best_match(unit_list@, *unit) is None,
        },
{
    let mut fallback: Option<i64> = None;
    let mut i: usize = 0;
    while i < unit_list.len()
        invariant
            i <= unit_list.len(),
            unit_list.len() <= i64::MAX,
            first_exact(unit_list@.take(i as int), *unit) is None,
            match fallback {
                Some(f) => first_same_phone(unit_list@.take(i as int), *unit) == Some(f as int),
                None => first_same_phone(unit_list@.take(i as int), *unit) is None,
            },
        decreases unit_list.len() - i,
    {
        let entry = unit_list[i];
        proof {
            assert(unit_list@.take(i + 1).drop_last() == unit_list@.take(i as int));
        }
        if entry == *unit {
            proof {
                lemma_first_exact_prefix(unit_list@, i + 1, *unit);
            }
            return Some(i as i64);
        }
        if fallback.is_none() {
            match (entry, *unit) {
                (Unit::Phone(e), Unit::Phone(w)) => {
                    if e.phone == w.phone {
                        fallback = Some(i as i64);
                    }
                },
                _ => {},
            }
        }
        i += 1;
    }
    assert(unit_list@.take(unit_list.len() as int) == unit_list@);
    fallback
}

/// An exact match within a prefix is the exact match of the whole list.
proof fn lemma_first_exact_prefix(list: Seq<Unit>, n: int, wanted: Unit)
    requires
        0 <= n <= list.len(),
        first_exact(list.take(n), wanted) is Some,
    ensures
        first_exact(list, wanted) == first_exact(list.take(n), wanted),
    decreases list.len() - n,
{
    if n < list.len() {
        assert(list.take(n + 1).drop_last() == list.take(n));
        lemma_first_exact_prefix(list, n + 1, wanted);
    } else {
        assert(list.take(n) == list);
    }
}

/// What to do with a unit that the vocabulary does not hold.
#[derive(Clone, Copy, Debug, PartialEq, Eq, Structural)]
pub enum MissPolicy {
    /// Leave the unit out.
    Skip,
    /// Put the given index, that of the unknown unit, in its place.
    Substitute(i64),
}

/// The ordered list of units that a model knows. Position 0 holds the
/// padding unit; position 1 holds the unknown unit where the model has
/// one.
pub struct UnitVocabulary {
    units: Vec<Unit>,
}

impl View for UnitVocabulary {
    type V = Seq<Unit>;

    closed spec fn view(&self) -> Seq<Unit> {
        self.units@
    }
}

impl UnitVocabulary {
    /// What holds of every vocabulary: it starts with the padding unit
    /// and its positions fit the index type.
    pub open spec fn wf(&self) -> bool {
        &&& 0 < self@.len() <= i64::MAX
        &&& self@[0] == Unit::Padding
    }

    /// Whether position 1 holds the unknown unit.
    pub open spec fn has_unknown(&self) -> bool {
        self@.len() > 1 && self@[1] == Unit::Unk
    }

    /// Builds a vocabulary from a list that starts with the padding
    /// unit.
    pub fn from_units(units: Vec<Unit>) -> (v: UnitVocabulary)
        requires
            0 < units@.len() <= i64::MAX,
            units@[0] == Unit::Padding,
        ensures
            v.wf(),
            v@ == units@,
    {
        UnitVocabulary { units }
    }

    /// Builds a vocabulary from its units. `None` says that the list
    /// does not start with the padding unit, or is too long to index.
    pub fn new(units: Vec<Unit>) -> (r: Option<UnitVocabulary>)
        ensures
            match r {
                Some(v) => v.wf() && v@ == units@,
                None => units@.len() == 0 || units@.len() > i64::MAX || units@[0] != Unit::Padding,
            },
    {
        if units.len() == 0 || units.len() as u64 > 0x7fff_ffff_ffff_ffffu64 {
            return None;
        }
        if units[0] == Unit::Padding {
            Some(UnitVocabulary::from_units(units))
        } else {
            None
        }
    }

    /// The number of units.
    pub fn len(&self) -> (n: usize)
        ensures
            n == self@.len(),
    {
        self.units.len()
    }

    /// The units of the vocabulary in index order.
    pub fn units(&self) -> (u: &Vec<Unit>)
        ensures
            u@ == self@,
    {
        &self.units
    }

    /// The index that pads an input window.
    pub fn padding_index(&self) -> (i: i64)
        requires
            self.wf(),
        ensures
            i == 0,
            self@[i as int] == Unit::Padding,
    {
        0
    }

    /// The index of the unknown unit, where the vocabulary has one.
    pub fn unknown_index(&self) -> (r: Option<i64>)
        ensures
            r == if self.has_unknown() {
                Some(1i64)
            } else {
                None
            },
    {
        if self.units.len() > 1 && self.units[1] == Unit::Unk {
            Some(1)
        } else {
            None
        }
    }

    /// The index that stands for `unit`, by the rule of
    /// `best_match_for_unit`.
    pub fn resolve(&self, unit: &Unit) -> (r: Option<i64>)
        requires
            self.wf(),
        ensures
            match r {
                Some(i) => best_match(self@, *unit) == Some(i as int),
                None => best_match(self@, *unit) is None,
            },
    {
        best_match_for_unit(unit, self.units.as_slice())
    }
}

/// Resolution depends on nothing but the unit and the vocabulary: two
/// results for the same unit and the same list are the same index.
pub proof fn lemma_resolve_deterministic(
    list: Seq<Unit>,
    unit: Unit,
    first: Option<i64>,
    second: Option<i64>,
)
    requires
        match first {
            Some(i) => best_match(list, unit) == Some(i as int),
            None => best_match(list, unit) is None,
        },
        match second {
            Some(i) => best_match(list, unit) == Some(i as int),
            None => best_match(list, unit) is None,
        },
    ensures
        first == second,
{
}

} // verus!
