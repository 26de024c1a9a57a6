//! A map from words to values that keeps its words in order.
//!
//! The entries stand in a vector, sorted by word. The order is that of
//! the characters' code points, first difference first, which is the
//! order that strings have.
use crate::text::to_chars;
use vstd::prelude::*;

verus! {

/// Whether `a` comes before `b`: at the first place where they differ
/// `a` has the smaller character, or `a` ends there and `b` goes on.
pub open spec fn precedes(a: Seq<char>, b: Seq<char>) -> bool
    decreases a.len(),
{
    if b.len() == 0 {
        false
    } else if a.len() == 0 {
        true
    } else if a[0] != b[0] {
        a[0] < b[0]
    } else {
        precedes(a.drop_first(), b.drop_first())
    }
}

/// No text comes before itself.
pub proof fn lemma_precedes_irreflexive(a: Seq<char>)
    ensures
        !precedes(a, a),
    decreases a.len(),
{
    if a.len() > 0 {
        lemma_precedes_irreflexive(a.drop_first());
    }
}

/// Of two different texts one comes before the other.
pub proof fn lemma_precedes_total(a: Seq<char>, b: Seq<char>)
    ensures
        a == b || precedes(a, b) || precedes(b, a),
        !(precedes(a, b) && precedes(b, a)),
    decreases a.len(),
{
    if a.len() > 0 && b.len() > 0 {
        if a[0] == b[0] {
            lemma_precedes_total(a.drop_first(), b.drop_first());
            if a.drop_first() == b.drop_first() {
                assert(a == seq![a[0]] + a.drop_first());
                assert(b == seq![b[0]] + b.drop_first());
            }
        }
    } else if a.len() == 0 && b.len() == 0 {
        assert(a == b);
    }
}

/// What comes before a text comes before all that the text comes
/// before.
pub proof fn lemma_precedes_transitive(a: Seq<char>, b: Seq<char>, c: Seq<char>)
    requires
        precedes(a, b),
        precedes(b, c),
    ensures
        precedes(a, c),
    decreases a.len(),
{
    if a.len() > 0 && b.len() > 0 && c.len() > 0 {
        if a[0] == b[0] && b[0] == c[0] {
            lemma_precedes_transitive(a.drop_first(), b.drop_first(), c.drop_first());
        }
    }
}

/// Decides whether one text comes before another.
pub fn text_precedes(a: &Vec<char>, b: &Vec<char>) -> (r: bool)
    ensures
        r == precedes(a@, b@),
{
    let mut i: usize = 0;
    assert(a@.skip(0) == a@ && b@.skip(0) == b@);
    while i < a.len() && i < b.len()
        invariant
            i <= a.len(),
            i <= b.len(),
            precedes(a@, b@) == precedes(a@.skip(i as int), b@.skip(i as int)),
        decreases a.len() - i,
    {
        proof {
            assert(a@.skip(i as int).drop_first() == a@.skip(i + 1));
            assert(b@.skip(i as int).drop_first() == b@.skip(i + 1));
        }
        if a[i] != b[i] {
            return a[i] < b[i];
        }
        i += 1;
    }
    i < b.len()
}

/// Whether the words are in strictly ascending order.
pub open spec fn sorted(words: Seq<Seq<char>>) -> bool {
    forall|i: int, j: int| 0 <= i < j < words.len() ==> precedes(words[i], words[j])
}

/// The position of `word` among `words`, if it is there.
pub open spec fn position(words: Seq<Seq<char>>, word: Seq<char>) -> Option<int>
    decreases words.len(),
{
    if words.len() == 0 {
        None
    } else if words.last() == word {
        Some(words.len() - 1)
    } else {
        position(words.drop_last(), word)
    }
}

/// `position` finds a place of the word, and finds one if there is
/// any.
pub proof fn lemma_position(words: Seq<Seq<char>>, word: Seq<char>)
    ensures
        match position(words, word) {
            Some(i) => 0 <= i < words.len() && words[i] == word,
            None => forall|i: int| 0 <= i < words.len() ==> words[i] != word,
        },
    decreases words.len(),
{
    if words.len() > 0 && words.last() != word {
        lemma_position(words.drop_last(), word);
        let front = words.drop_last();
        if position(front, word) is None {
            assert forall|i: int| 0 <= i < words.len() implies words[i] != word by {
                if i < front.len() {
                    assert(front[i] == words[i]);
                }
            }
        }
    }
}

/// In a sorted list a word stands at one place only.
pub proof fn lemma_position_unique(words: Seq<Seq<char>>, word: Seq<char>, i: int)
    requires
        sorted(words),
        0 <= i < words.len(),
        words[i] == word,
    ensures
        position(words, word) == Some(i),
{
    lemma_position(words, word);
    let j = position(words, word)->0;
    lemma_precedes_irreflexive(word);
    if i < j {
        assert(precedes(words[i], words[j]));
    } else if j < i {
        assert(precedes(words[j], words[i]));
    }
}

/// A map from words to values, in the order of the words.
#[derive(Clone, Debug, PartialEq, Eq)]
pub struct WordMap<V> {
    entries: Vec<(String, V)>,
}

impl<V> WordMap<V> {
    /// The words of the map, in order.
    pub closed spec fn words(&self) -> Seq<Seq<char>> {
        self.entries@.map_values(|e: (String, V)| e.0@)
    }

    /// The values of the map, in the order of their words.
    pub closed spec fn values(&self) -> Seq<V> {
        self.entries@.map_values(|e: (String, V)| e.1)
    }

    /// What holds of every map: the words are sorted, so that none
    /// stands twice.
    pub open spec fn wf(&self) -> bool {
        &&& self.words().len() == self.values().len()
        &&& sorted(self.words())
    }

    /// The value that a word has, if it has one.
    pub open spec fn lookup(&self, word: Seq<char>) -> Option<V> {
        match position(self.words(), word) {
            Some(i) => Some(self.values()[i]),
            None => None,
        }
    }

    /// The map as a mathematical map from words to values.
    pub open spec fn map(&self) -> Map<Seq<char>, V> {
        Map::new(|w: Seq<char>| self.lookup(w) is Some, |w: Seq<char>| self.lookup(w)->0)
    }

    /// A map without words.
    pub fn new() -> (m: WordMap<V>)
        ensures
            m.wf(),
            m.words().len() == 0,
            forall|w: Seq<char>| m.lookup(w) is None,
    {
        let m = WordMap { entries: Vec::new() };
        m
    }

    /// The number of words.
    pub fn len(&self) -> (n: usize)
        ensures
            n == self.words().len(),
    {
        self.entries.len()
    }

    /// The entries in the order of their words.
    pub fn entries(&self) -> (e: &Vec<(String, V)>)
        ensures
            e@.map_values(|x: (String, V)| x.0@) == self.words(),
            e@.map_values(|x: (String, V)| x.1) == self.values(),
    {
        &self.entries
    }

    /// The word at a place of the order.
    pub fn word_at(&self, i: usize) -> (w: &String)
        requires
            i < self.words().len(),
        ensures
            w@ == self.words()[i as int],
    {
        &self.entries[i].0
    }

    /// The value at a place of the order.
    pub fn value_at(&self, i: usize) -> (v: &V)
        requires
            i < self.words().len(),
        ensures
            *v == self.values()[i as int],
    {
        &self.entries[i].1
    }

    /// Where `word` stands, or where it would have to be put in.
    pub fn find(&self, word: &str) -> (r: Result<usize, usize>)
        requires
            self.wf(),
        ensures
            match r {
                Ok(i) => i < self.words().len() && self.words()[i as int] == word@ && position(
                    self.words(),
                    word@,
                ) == Some(i as int),
                Err(i) => {
                    &&& i <= self.words().len()
                    &&& position(self.words(), word@) is None
                    &&& forall|j: int| 0 <= j < i ==> precedes(#[trigger] self.words()[j], word@)
                    &&& forall|j: int|
                        i <= j < self.words().len() ==> precedes(word@, #[trigger] self.words()[j])
                },
            },
    {
        let wanted = to_chars(word);
        let mut lo: usize = 0;
        let mut hi: usize = self.entries.len();
        while lo < hi
            invariant
                lo <= hi <= self.entries.len(),
                self.wf(),
                wanted@ == word@,
                forall|j: int| 0 <= j < lo ==> precedes(#[trigger] self.words()[j], word@),
                forall|j: int|
                    hi <= j < self.words().len() ==> precedes(word@, #[trigger] self.words()[j]),
            decreases hi - lo,
        {
            let mid = lo + (hi - lo) / 2;
            let here = to_chars(self.entries[mid].0.as_str());
            if text_precedes(&here, &wanted) {
                proof {
                    assert forall|j: int| 0 <= j < mid + 1 implies precedes(
                        #[trigger] self.words()[j],
                        word@,
                    ) by {
                        if j < mid {
                            lemma_precedes_transitive(
                                self.words()[j],
                                self.words()[mid as int],
                                word@,
                            );
                        }
                    }
                }
                lo = mid + 1;
            } else if text_precedes(&wanted, &here) {
                proof {
                    assert forall|j: int| mid <= j < self.words().len() implies precedes(
                        word@,
                        #[trigger] self.words()[j],
                    ) by {
                        if j > mid {
                            lemma_precedes_transitive(
                                word@,
                                self.words()[mid as int],
                                self.words()[j],
                            );
                        }
                    }
                }
                hi = mid;
            } else {
                proof {
                    lemma_precedes_total(here@, wanted@);
                    lemma_position_unique(self.words(), word@, mid as int);
                }
                return Ok(mid);
            }
        }
        proof {
            self.lemma_absent(word@, lo as int);
        }
        Err(lo)
    }

    /// A word that lies between its neighbours is not in the map.
    proof fn lemma_absent(&self, word: Seq<char>, i: int)
        requires
            0 <= i <= self.words().len(),
            forall|j: int| 0 <= j < i ==> precedes(#[trigger] self.words()[j], word),
            forall|j: int| i <= j < self.words().len() ==> precedes(word, #[trigger] self.words()[j]),
        ensures
            position(self.words(), word) is None,
    {
        lemma_position(self.words(), word);
        lemma_precedes_irreflexive(word);
        if position(self.words(), word) is Some {
            let j = position(self.words(), word)->0;
            if j < i {
                assert(precedes(self.words()[j], word));
            } else {
                assert(precedes(word, self.words()[j]));
            }
        }
    }

    /// The value of a word.
    pub fn get(&self, word: &str) -> (r: Option<&V>)
        requires
            self.wf(),
        ensures
            match r {
                Some(v) => self.lookup(word@) == Some(*v),
                None => self.lookup(word@) is None,
            },
    {
        match self.find(word) {
            Ok(i) => Some(&self.entries[i].1),
            Err(_) => None,
        }
    }

    /// Adds a word that comes after all the words of the map.
    pub fn push_last(&mut self, word: String, value: V)
        requires
            old(self).wf(),
            forall|j: int|
                0 <= j < old(self).words().len() ==> precedes(
                    #[trigger] old(self).words()[j],
                    word@,
                ),
        ensures
            final(self).wf(),
            final(self).words() == old(self).words().push(word@),
            final(self).values() == old(self).values().push(value),
            final(self).lookup(word@) == Some(value),
            forall|w: Seq<char>| w != word@ ==> final(self).lookup(w) == old(self).lookup(w),
    {
        let ghost old_words = self.words();
        self.entries.push((word, value));
        proof {
            assert(self.words() == old_words.push(word@));
            assert(self.words().drop_last() == old_words);
            assert forall|w: Seq<char>| w != word@ implies self.lookup(w) == old(self).lookup(
                w,
            ) by {
                lemma_position(old_words, w);
            }
        }
    }

    /// Gives `word` the value `value`, in place of the one it had if it
    /// had one.
    pub fn insert(&mut self, word: String, value: V)
        requires
            old(self).wf(),
        ensures
            final(self).wf(),
            final(self).lookup(word@) == Some(value),
            forall|w: Seq<char>| w != word@ ==> final(self).lookup(w) == old(self).lookup(w),
            final(self).words().len() == old(self).words().len() + if old(self).lookup(word@)
                is Some {
                0int
            } else {
                1int
            },
    {
        let ghost old_words = self.words();
        let ghost old_values = self.values();
        match self.find(word.as_str()) {
            Ok(i) => {
                self.entries.set(i, (word, value));
                proof {
                    assert(self.words() == old_words);
                    assert forall|w: Seq<char>| w != word@ implies self.lookup(w) == lookup_in(
                        old_words,
                        old_values,
                        w,
                    ) by {
                        lemma_position(old_words, w);
                    }
                }
            },
            Err(i) => {
                self.entries.insert(i, (word, value));
                proof {
                    let new_words = self.words();
                    assert(new_words == old_words.insert(i as int, word@));
                    lemma_position_unique(new_words, word@, i as int);
                    assert forall|w: Seq<char>| w != word@ implies self.lookup(w) == lookup_in(
                        old_words,
                        old_values,
                        w,
                    ) by {
                        lemma_position(old_words, w);
                        lemma_position(new_words, w);
                        match position(old_words, w) {
                            Some(j) => {
                                let j1 = if j < i {
                                    j
                                } else {
                                    j + 1
                                };
                                lemma_position_unique(new_words, w, j1);
                            },
                            None => {
                            },
                        }
                    }
                }
            },
        }
    }
}

/// The value of `word` in a list of words with their values.
pub open spec fn lookup_in<V>(words: Seq<Seq<char>>, values: Seq<V>, word: Seq<char>) -> Option<
    V,
> {
    match position(words, word) {
        Some(i) => Some(values[i]),
        None => None,
    }
}

} // verus!
