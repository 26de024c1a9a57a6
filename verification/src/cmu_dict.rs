//! A pronunciation dictionary: from a word to the ways it is said.
//!
//! The entries are read from lines of the form `WORD  W ER1 D`: the word,
//! two spaces, the phones. A word with several readings stands on several
//! lines. Which reading fits a sentence is not decided here; callers
//! that need one take the first.
use crate::phonemes::{phonetic_unit, PhoneticUnit, Pronunciation};
use crate::text::{slice, to_chars, to_text};
use crate::phonemes::Unit;
use crate::text::{ascii_words, split, split_ascii_whitespace, texts, words, Separator};
use crate::text_normaliser::{
    chunk_models, copy_units, dict_normalise, dictionary_form, normalise_text, normalised,
    rendered, ChunkModel, NormalisedText, NormaliserChunk,
};
use crate::word_map::{lemma_position, position, WordMap};
use vstd::prelude::*;

verus! {

/// The readings of a word, as values of specifications.
pub open spec fn readings(list: Vec<Pronunciation>) -> Seq<Seq<PhoneticUnit>> {
    list@.map_values(|p: Pronunciation| p@)
}

/// Where two spaces first stand side by side in `s`, looked for from
/// `from` on.
pub open spec fn double_space(s: Seq<char>, from: int) -> Option<int>
    decreases s.len() - from,
{
    if from < 0 || from + 1 >= s.len() {
        None
    } else if s[from] == ' ' && s[from + 1] == ' ' {
        Some(from)
    } else {
        double_space(s, from + 1)
    }
}

/// The pieces of `s` between its spaces, without the empty ones.
pub open spec fn pieces(s: Seq<char>) -> Seq<Seq<char>> {
    words(Separator::Space, s)
}

/// The phones that the pieces spell, if every piece spells one.
pub open spec fn phones(parts: Seq<Seq<char>>) -> Option<Seq<PhoneticUnit>>
    decreases parts.len(),
{
    if parts.len() == 0 {
        Some(Seq::empty())
    } else {
        match (phones(parts.drop_last()), phonetic_unit(parts.last())) {
            (Some(front), Ok(unit)) => Some(front.push(unit)),
            _ => None,
        }
    }
}

/// Whether a line is a comment: it starts with three semicolons.
pub open spec fn is_comment(line: Seq<char>) -> bool {
    line.len() >= 3 && line[0] == ';' && line[1] == ';' && line[2] == ';'
}

/// The part of a line before its first two spaces, and the part after
/// them up to the next two spaces. A line without two spaces has
/// neither.
pub open spec fn line_fields(line: Seq<char>) -> Option<(Seq<char>, Seq<char>)> {
    match double_space(line, 0) {
        None => None,
        Some(i) => {
            let rest = line.skip(i + 2);
            match double_space(rest, 0) {
                Some(j) => Some((line.take(i), rest.take(j))),
                None => Some((line.take(i), rest)),
            }
        },
    }
}

/// The word and the reading that a line gives the dictionary. A comment
/// gives none, nor does a line without two spaces, one whose word
/// cannot be normalised, or one with a piece that is no phone.
pub open spec fn line_entry(line: Seq<char>) -> Option<(Seq<char>, Seq<PhoneticUnit>)> {
    if is_comment(line) {
        None
    } else {
        match line_fields(line) {
            None => None,
            Some((word, sounds)) => match (dictionary_form(word), phones(pieces(sounds))) {
                (Ok(w), Some(reading)) => Some((w, reading)),
                _ => None,
            },
        }
    }
}

/// The dictionary with one more reading of a word, after those it has.
pub open spec fn with_reading(
    entries: Map<Seq<char>, Seq<Seq<PhoneticUnit>>>,
    word: Seq<char>,
    reading: Seq<PhoneticUnit>,
) -> Map<Seq<char>, Seq<Seq<PhoneticUnit>>> {
    if entries.contains_key(word) {
        entries.insert(word, entries[word].push(reading))
    } else {
        entries.insert(word, seq![reading])
    }
}

/// The dictionary that the lines give, read in order.
pub open spec fn read_lines(lines: Seq<Seq<char>>) -> Map<Seq<char>, Seq<Seq<PhoneticUnit>>>
    decreases lines.len(),
{
    if lines.len() == 0 {
        Map::empty()
    } else {
        let before = read_lines(lines.drop_last());
        match line_entry(lines.last()) {
            Some((word, reading)) => with_reading(before, word, reading),
            None => before,
        }
    }
}

/// The readings of `first` followed by those of `second` that are not
/// among them yet.
pub open spec fn union_readings(
    first: Seq<Seq<PhoneticUnit>>,
    second: Seq<Seq<PhoneticUnit>>,
) -> Seq<Seq<PhoneticUnit>>
    decreases second.len(),
{
    if second.len() == 0 {
        first
    } else {
        let before = union_readings(first, second.drop_last());
        if before.contains(second.last()) {
            before
        } else {
            before.push(second.last())
        }
    }
}

/// The readings that a dictionary has for a word, none where it does not
/// hold the word.
pub open spec fn readings_of(
    entries: Map<Seq<char>, Seq<Seq<PhoneticUnit>>>,
    word: Seq<char>,
) -> Seq<Seq<PhoneticUnit>> {
    if entries.contains_key(word) {
        entries[word]
    } else {
        Seq::empty()
    }
}

/// Two dictionaries as one: every word of either, with the readings of
/// the first followed by the new ones of the second.
pub open spec fn merged(
    first: Map<Seq<char>, Seq<Seq<PhoneticUnit>>>,
    second: Map<Seq<char>, Seq<Seq<PhoneticUnit>>>,
) -> Map<Seq<char>, Seq<Seq<PhoneticUnit>>> {
    Map::new(
        |w: Seq<char>| first.contains_key(w) || second.contains_key(w),
        |w: Seq<char>| union_readings(readings_of(first, w), readings_of(second, w)),
    )
}

/// Joining readings loses none of the first, and where the second
/// list holds a reading the result holds one.
pub proof fn lemma_union_readings_len(
    first: Seq<Seq<PhoneticUnit>>,
    second: Seq<Seq<PhoneticUnit>>,
)
    ensures
        union_readings(first, second).len() >= first.len(),
        second.len() > 0 ==> union_readings(first, second).len() > 0,
    decreases second.len(),
{
    if second.len() > 0 {
        lemma_union_readings_len(first, second.drop_last());
        let before = union_readings(first, second.drop_last());
        if before.contains(second.last()) {
            assert(before.len() > 0);
        }
    }
}

/// A pronunciation dictionary.
#[derive(Clone, Debug)]
pub struct CmuDictionary {
    dictionary: WordMap<Vec<Pronunciation>>,
}

impl View for CmuDictionary {
    type V = Map<Seq<char>, Seq<Seq<PhoneticUnit>>>;

    closed spec fn view(&self) -> Map<Seq<char>, Seq<Seq<PhoneticUnit>>> {
        Map::new(
            |w: Seq<char>| self.dictionary.lookup(w) is Some,
            |w: Seq<char>| readings(self.dictionary.lookup(w)->0),
        )
    }
}

/// A copy of a reading.
pub fn copy_reading(reading: &Pronunciation) -> (out: Pronunciation)
    ensures
        out@ == reading@,
{
    let mut out: Vec<PhoneticUnit> = Vec::new();
    let mut i: usize = 0;
    while i < reading.len()
        invariant
            i <= reading.len(),
            out@ == reading@.take(i as int),
        decreases reading.len() - i,
    {
        out.push(reading[i]);
        i += 1;
    }
    out
}

/// A copy of a list of readings.
pub fn copy_readings(list: &Vec<Pronunciation>) -> (out: Vec<Pronunciation>)
    ensures
        readings(out) == readings(*list),
{
    let mut out: Vec<Pronunciation> = Vec::new();
    let mut i: usize = 0;
    while i < list.len()
        invariant
            i <= list.len(),
            readings(out) == readings(*list).take(i as int),
        decreases list.len() - i,
    {
        let ghost before = out;
        let r = copy_reading(&list[i]);
        out.push(r);
        assert(readings(out) == readings(before).push(r@));
        i += 1;
    }
    out
}

fn same_reading(a: &Pronunciation, b: &Pronunciation) -> (r: bool)
    ensures
        r == (a@ == b@),
{
    if a.len() != b.len() {
        return false;
    }
    let mut i: usize = 0;
    while i < a.len()
        invariant
            i <= a.len(),
            a.len() == b.len(),
            forall|j: int| 0 <= j < i ==> a@[j] == b@[j],
        decreases a.len() - i,
    {
        if a[i] != b[i] {
            return false;
        }
        i += 1;
    }
    assert(a@ =~= b@);
    true
}

fn has_reading(list: &Vec<Pronunciation>, reading: &Pronunciation) -> (r: bool)
    ensures
        r == readings(*list).contains(reading@),
{
    let mut i: usize = 0;
    while i < list.len()
        invariant
            i <= list.len(),
            forall|j: int| 0 <= j < i ==> readings(*list)[j] != reading@,
        decreases list.len() - i,
    {
        if same_reading(&list[i], reading) {
            assert(readings(*list)[i as int] == reading@);
            return true;
        }
        i += 1;
    }
    false
}

/// Where two spaces first stand side by side.
fn find_double_space(s: &Vec<char>) -> (r: Option<usize>)
    ensures
        match r {
            Some(i) => double_space(s@, 0) == Some(i as int) && i + 2 <= s.len(),
            None => double_space(s@, 0) is None,
        },
{
    if s.len() < 2 {
        return None;
    }
    let mut i: usize = 0;
    while i < s.len() - 1
        invariant
            i <= s.len() - 1,
            s.len() >= 2,
            double_space(s@, 0) == double_space(s@, i as int),
        decreases s.len() - i,
    {
        if s[i] == ' ' && s[i + 1] == ' ' {
            return Some(i);
        }
        i += 1;
    }
    None
}

/// Reads the phones of an entry. `None` says that a piece is no phone.
fn read_phones(s: &Vec<char>) -> (r: Option<Pronunciation>)
    ensures
        match r {
            Some(p) => phones(pieces(s@)) == Some(p@),
            None => phones(pieces(s@)) is None,
        },
{
    let parts = split(Separator::Space, s);
    let ghost all = texts(parts@);
    let mut out: Vec<PhoneticUnit> = Vec::new();
    let mut i: usize = 0;
    while i < parts.len()
        invariant
            i <= parts.len(),
            all == texts(parts@),
            all == pieces(s@),
            phones(all.take(i as int)) == Some(out@),
        decreases parts.len() - i,
    {
        proof {
            assert(all.take(i + 1).drop_last() == all.take(i as int));
        }
        match PhoneticUnit::from_chars(&parts[i]) {
            Ok(unit) => {
                out.push(unit);
            },
            Err(_) => {
                proof {
                    lemma_phones_fail(all, i + 1);
                }
                return None;
            },
        }
        i += 1;
    }
    assert(all.take(parts.len() as int) == all);
    Some(out)
}

/// A piece that is no phone among the first ones leaves the whole list
/// without phones.
proof fn lemma_phones_fail(parts: Seq<Seq<char>>, n: int)
    requires
        0 <= n <= parts.len(),
        phones(parts.take(n)) is None,
    ensures
        phones(parts) is None,
    decreases parts.len() - n,
{
    if n < parts.len() {
        assert(parts.take(n + 1).drop_last() == parts.take(n));
        lemma_phones_fail(parts, n + 1);
    } else {
        assert(parts.take(n) == parts);
    }
}

/// Reads one line of a dictionary.
fn read_line(line: &str) -> (r: Option<(String, Pronunciation)>)
    ensures
        match r {
            Some(e) => line_entry(line@) == Some((e.0@, e.1@)),
            None => line_entry(line@) is None,
        },
{
    let chars = to_chars(line);
    if chars.len() >= 3 && chars[0] == ';' && chars[1] == ';' && chars[2] == ';' {
        return None;
    }
    let i = match find_double_space(&chars) {
        Some(i) => i,
        None => {
            return None;
        },
    };
    let word = slice(&chars, 0, i);
    let rest = slice(&chars, i + 2, chars.len());
    let sounds = match find_double_space(&rest) {
        Some(j) => slice(&rest, 0, j),
        None => rest,
    };
    let reading = read_phones(&sounds);
    match dict_normalise(to_text(&word).as_str()) {
        Ok(w) => match reading {
            Some(p) => Some((w, p)),
            None => None,
        },
        Err(_) => None,
    }
}

impl CmuDictionary {
    /// What holds of every dictionary: each word has a reading.
    pub closed spec fn wf(&self) -> bool {
        &&& self.dictionary.wf()
        &&& forall|w: Seq<char>|
            (#[trigger] self.dictionary.lookup(w)) matches Some(list) ==> list.len() > 0
    }

    /// A word of the dictionary has at least one reading.
    pub proof fn lemma_readings_not_empty(&self, word: Seq<char>)
        requires
            self.wf(),
            self@.contains_key(word),
        ensures
            self@[word].len() > 0,
    {
    }

    /// A dictionary without words.
    pub fn new() -> (d: CmuDictionary)
        ensures
            d.wf(),
            d@ == Map::<Seq<char>, Seq<Seq<PhoneticUnit>>>::empty(),
    {
        let d = CmuDictionary { dictionary: WordMap::new() };
        d
    }

    /// Adds a reading to a word, after those it has.
    fn add_reading(&mut self, word: String, reading: Pronunciation)
        requires
            old(self).wf(),
        ensures
            final(self).wf(),
            final(self)@ == with_reading(old(self)@, word@, reading@),
    {
        let mut list: Vec<Pronunciation> = match self.dictionary.get(word.as_str()) {
            Some(known) => copy_readings(known),
            None => Vec::new(),
        };
        let ghost before = list;
        proof {
            if !self@.contains_key(word@) {
                assert(readings(before) == Seq::<Seq<PhoneticUnit>>::empty());
            }
        }
        list.push(reading);
        assert(readings(list) == readings(before).push(reading@));
        self.set_readings(word, list);
    }

    /// Gives a word its readings.
    fn set_readings(&mut self, word: String, list: Vec<Pronunciation>)
        requires
            old(self).wf(),
            list.len() > 0,
        ensures
            final(self).wf(),
            final(self)@ == old(self)@.insert(word@, readings(list)),
            final(self).dictionary.lookup(word@) == Some(list),
            forall|w: Seq<char>|
                w != word@ ==> final(self).dictionary.lookup(w) == old(self).dictionary.lookup(w),
    {
        self.dictionary.insert(word, list);
    }

    /// Reads a dictionary from its lines. Lines that are comments, that
    /// have no two spaces after the word, or that hold what is no phone
    /// are passed over.
    pub fn from_lines(lines: &Vec<String>) -> (d: CmuDictionary)
        ensures
            d.wf(),
            d@ == read_lines(lines@.map_values(|l: String| l@)),
    {
        let mut d = CmuDictionary::new();
        let ghost all = lines@.map_values(|l: String| l@);
        let mut i: usize = 0;
        while i < lines.len()
            invariant
                i <= lines.len(),
                all == lines@.map_values(|l: String| l@),
                d.wf(),
                d@ == read_lines(all.take(i as int)),
            decreases lines.len() - i,
        {
            proof {
                assert(all.take(i + 1).drop_last() == all.take(i as int));
            }
            match read_line(lines[i].as_str()) {
                Some((word, reading)) => {
                    d.add_reading(word, reading);
                },
                None => {},
            }
            i += 1;
        }
        assert(all.take(lines.len() as int) == all);
        d
    }

    /// Number of words in the dictionary.
    pub fn len(&self) -> (n: usize)
        ensures
            n == self.word_count(),
    {
        self.dictionary.len()
    }

    /// The number of words.
    pub closed spec fn word_count(&self) -> nat {
        self.dictionary.words().len()
    }

    /// Whether the dictionary is empty.
    pub fn is_empty(&self) -> (b: bool)
        ensures
            b == (self.word_count() == 0),
    {
        self.len() == 0
    }

    /// The readings of a word that is already normalised.
    pub fn get_pronunciations_normalised(&self, word: &str) -> (r: Option<&Vec<Pronunciation>>)
        requires
            self.wf(),
        ensures
            match r {
                Some(list) => self@.contains_key(word@) && self@[word@] == readings(*list)
                    && list.len() > 0,
                None => !self@.contains_key(word@),
            },
    {
        self.dictionary.get(word)
    }

    /// The readings of a word that has not been normalised yet. A word
    /// that cannot be normalised has none.
    pub fn get_pronunciations(&self, word: &str) -> (r: Option<&Vec<Pronunciation>>)
        requires
            self.wf(),
        ensures
            match r {
                Some(list) => looked_up(word@) matches Some(w) && self@.contains_key(w) && self@[w]
                    == readings(*list) && list.len() > 0,
                None => looked_up(word@) matches Some(w) ==> !self@.contains_key(w),
            },
    {
        match normalise_text(word) {
            Ok(text) => {
                proof {
                    crate::text_normaliser::lemma_normalised_is_textual(word@);
                }
                let w = text.to_string_unchecked();
                self.get_pronunciations_normalised(w.as_str())
            },
            Err(_) => None,
        }
    }

    /// Takes the readings of another dictionary in. A word of both keeps
    /// its readings and gets, after them, those of the other dictionary
    /// that it does not have yet.
    pub fn merge(&mut self, other: CmuDictionary)
        requires
            old(self).wf(),
            other.wf(),
        ensures
            final(self).wf(),
            final(self)@ == merged(old(self)@, other@),
    {
        let entries = other.dictionary.entries();
        let ghost theirs = other.dictionary.words();
        let mut i: usize = 0;
        while i < entries.len()
            invariant
                i <= entries.len(),
                other.wf(),
                self.wf(),
                theirs == other.dictionary.words(),
                entries@.map_values(|x: (String, Vec<Pronunciation>)| x.0@) == theirs,
                entries@.map_values(|x: (String, Vec<Pronunciation>)| x.1)
                    == other.dictionary.values(),
                forall|w: Seq<char>|
                    self@.contains_key(w) <==> old(self)@.contains_key(w) || position(
                        theirs.take(i as int),
                        w,
                    ) is Some,
                forall|w: Seq<char>|
                    #![trigger self@[w]]
                    self@.contains_key(w) ==> self@[w] == if position(theirs.take(i as int), w)
                        is Some {
                        union_readings(readings_of(old(self)@, w), readings_of(other@, w))
                    } else {
                        old(self)@[w]
                    },
            decreases entries.len() - i,
        {
            let word = &entries[i].0;
            let list = &entries[i].1;
            proof {
                crate::word_map::lemma_position_unique(theirs, word@, i as int);
                assert(other.dictionary.lookup(word@) == Some(*list));
                assert(theirs.take(i + 1).drop_last() == theirs.take(i as int));
                // the word has not been met before
                lemma_position(theirs.take(i as int), word@);
                if position(theirs.take(i as int), word@) is Some {
                    crate::word_map::lemma_precedes_irreflexive(word@);
                }
            }
            let ghost here = self@;
            let mut joined: Vec<Pronunciation> = match self.dictionary.get(word.as_str()) {
                Some(known) => copy_readings(known),
                None => Vec::new(),
            };
            assert(readings(joined) == readings_of(old(self)@, word@)) by {
                if here.contains_key(word@) {
                    assert(here[word@] == old(self)@[word@]);
                }
            }
            let mut k: usize = 0;
            while k < list.len()
                invariant
                    k <= list.len(),
                    readings(joined) == union_readings(
                        readings_of(old(self)@, word@),
                        readings(*list).take(k as int),
                    ),
                decreases list.len() - k,
            {
                proof {
                    assert(readings(*list).take(k + 1).drop_last() == readings(*list).take(
                        k as int,
                    ));
                }
                if !has_reading(&joined, &list[k]) {
                    let r = copy_reading(&list[k]);
                    joined.push(r);
                }
                k += 1;
            }
            proof {
                assert(readings(*list).take(list.len() as int) == readings(*list));
            }
            self.set_readings(word.clone(), joined);
            i += 1;
        }
        proof {
            assert(theirs.take(entries.len() as int) == theirs);
        }
    }

    /// The dictionary with one reading for each word: the first.
    pub fn into_simple_dictionary(self) -> (simple: WordMap<Pronunciation>)
        requires
            self.wf(),
        ensures
            simple.wf(),
            forall|w: Seq<char>|
                (#[trigger] simple.lookup(w)) is Some <==> self@.contains_key(w),
            forall|w: Seq<char>|
                self@.contains_key(w) ==> (#[trigger] simple.lookup(w))->0@ == self@[w][0],
    {
        let entries = self.dictionary.entries();
        let ghost words = self.dictionary.words();
        let mut simple: WordMap<Pronunciation> = WordMap::new();
        let mut i: usize = 0;
        while i < entries.len()
            invariant
                i <= entries.len(),
                self.wf(),
                simple.wf(),
                words == self.dictionary.words(),
                entries@.map_values(|x: (String, Vec<Pronunciation>)| x.0@) == words,
                entries@.map_values(|x: (String, Vec<Pronunciation>)| x.1)
                    == self.dictionary.values(),
                simple.words() == words.take(i as int),
                forall|w: Seq<char>|
                    (#[trigger] simple.lookup(w)) is Some <==> position(words.take(i as int), w)
                        is Some,
                forall|w: Seq<char>|
                    (#[trigger] simple.lookup(w)) is Some ==> self@.contains_key(w) && simple.lookup(
                        w,
                    )->0@ == self@[w][0],
            decreases entries.len() - i,
        {
            let word = &entries[i].0;
            let list = &entries[i].1;
            proof {
                crate::word_map::lemma_position_unique(words, word@, i as int);
                assert(self.dictionary.lookup(word@) == Some(*list));
                assert(words.take(i + 1).drop_last() == words.take(i as int));
            }
            let first = copy_reading(&list[0]);
            simple.push_last(word.clone(), first);
            i += 1;
        }
        proof {
            assert(words.take(entries.len() as int) == words);
        }
        simple
    }

    /// The entries in the order of their words.
    pub fn iter(&self) -> (e: &Vec<(String, Vec<Pronunciation>)>)
        requires
            self.wf(),
        ensures
            e@.len() == self.word_count(),
            forall|i: int|
                0 <= i < e@.len() ==> self@.contains_key((#[trigger] e@[i]).0@) && self@[e@[i].0@]
                    == readings(e@[i].1),
            forall|i: int, j: int|
                0 <= i < j < e@.len() ==> crate::word_map::precedes(e@[i].0@, e@[j].0@),
    {
        let e = self.dictionary.entries();
        proof {
            let words = e@.map_values(|x: (String, Vec<Pronunciation>)| x.0@);
            assert forall|i: int| 0 <= i < e@.len() implies self@.contains_key(
                (#[trigger] e@[i]).0@,
            ) && self@[e@[i].0@] == readings(e@[i].1) by {
                crate::word_map::lemma_position_unique(self.dictionary.words(), words[i], i);
            }
            assert forall|i: int, j: int| 0 <= i < j < e@.len() implies crate::word_map::precedes(
                e@[i].0@,
                e@[j].0@,
            ) by {
                assert(words[i] == e@[i].0@);
                assert(words[j] == e@[j].0@);
            }
        }
        e
    }
}

impl Default for CmuDictionary {
    fn default() -> (d: CmuDictionary)
        ensures
            d.wf(),
            d@ == Map::<Seq<char>, Seq<Seq<PhoneticUnit>>>::empty(),
    {
        CmuDictionary::new()
    }
}

/// The form in which a word is looked up: normalised and read as text.
pub open spec fn looked_up(word: Seq<char>) -> Option<Seq<char>> {
    match normalised(word) {
        Ok(chunks) => match rendered(chunks) {
            Ok(t) => Some(t),
            Err(_) => None,
        },
        Err(_) => None,
    }
}

/// A reading as units to be spoken.
pub open spec fn phone_units(reading: Seq<PhoneticUnit>) -> Seq<Unit> {
    reading.map_values(|p: PhoneticUnit| Unit::Phone(p))
}

/// The units of the words that the dictionary knows: for each the phones
/// of its first reading and a space. Words that it does not know are
/// left out.
pub open spec fn spoken_units(
    entries: Map<Seq<char>, Seq<Seq<PhoneticUnit>>>,
    words: Seq<Seq<char>>,
) -> Seq<Unit>
    decreases words.len(),
{
    if words.len() == 0 {
        Seq::empty()
    } else {
        let before = spoken_units(entries, words.drop_last());
        match looked_up(words.last()) {
            Some(w) => if entries.contains_key(w) {
                before + phone_units(entries[w][0]).push(Unit::Space)
            } else {
                before
            },
            None => before,
        }
    }
}

/// A chunk with its text, if it holds any, turned into the phones of its
/// words.
pub open spec fn pronounced(
    entries: Map<Seq<char>, Seq<Seq<PhoneticUnit>>>,
    chunk: ChunkModel,
) -> ChunkModel {
    match chunk {
        ChunkModel::Text(s) => ChunkModel::Pronunciation(spoken_units(entries, ascii_words(s))),
        other => other,
    }
}

impl CmuDictionary {
    /// The units of a text, word by word.
    fn units_of(&self, text: &str) -> (out: Vec<Unit>)
        requires
            self.wf(),
        ensures
            out@ == spoken_units(self@, ascii_words(text@)),
    {
        let words = split_ascii_whitespace(&to_chars(text));
        let mut out: Vec<Unit> = Vec::new();
        let mut i: usize = 0;
        while i < words.len()
            invariant
                i <= words.len(),
                self.wf(),
                out@ == spoken_units(self@, texts(words@).take(i as int)),
            decreases words.len() - i,
        {
            proof {
                assert(texts(words@).take(i + 1).drop_last() == texts(words@).take(i as int));
            }
            let word = to_text(&words[i]);
            match self.get_pronunciations(word.as_str()) {
                Some(list) => {
                    let first = &list[0];
                    let ghost before = out@;
                    let mut k: usize = 0;
                    while k < first.len()
                        invariant
                            k <= first.len(),
                            out@ == before + phone_units(first@).take(k as int),
                        decreases first.len() - k,
                    {
                        out.push(Unit::Phone(first[k]));
                        k += 1;
                    }
                    out.push(Unit::Space);
                },
                None => {},
            }
            i += 1;
        }
        assert(texts(words@).take(words.len() as int) == texts(words@));
        out
    }

    fn pronounce(&self, chunk: &NormaliserChunk) -> (out: NormaliserChunk)
        requires
            self.wf(),
        ensures
            out@ == pronounced(self@, chunk@),
    {
        match chunk {
            NormaliserChunk::Text(s) => NormaliserChunk::Pronunciation(self.units_of(s.as_str())),
            NormaliserChunk::Punct(p) => NormaliserChunk::Punct(*p),
            NormaliserChunk::Break(d) => NormaliserChunk::Break(*d),
            NormaliserChunk::Pronunciation(u) => NormaliserChunk::Pronunciation(copy_units(u)),
        }
    }
}

impl NormalisedText {
    /// Turns every text into the phones of its words, as the dictionary
    /// has them. Of several readings the first is taken. Words that the
    /// dictionary does not know are skipped.
    pub fn words_to_pronunciation(&mut self, dict: &CmuDictionary)
        requires
            dict.wf(),
        ensures
            final(self)@ == old(self)@.map_values(|c: ChunkModel| pronounced(dict@, c)),
    {
        let chunks = self.drain_all();
        let ghost all = chunk_models(chunks@);
        let mut i: usize = 0;
        while i < chunks.len()
            invariant
                i <= chunks.len(),
                dict.wf(),
                all == chunk_models(chunks@),
                self@ == all.take(i as int).map_values(|c: ChunkModel| pronounced(dict@, c)),
            decreases chunks.len() - i,
        {
            let chunk = dict.pronounce(&chunks[i]);
            self.push(chunk);
            i += 1;
        }
    }
}

} // verus!
