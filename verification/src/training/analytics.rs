//! Counts over a dataset: how often each phone and each pair of
//! neighbouring phones occurs, which words the dictionary does not know,
//! and how long the sentences are.
use crate::cmu_dict::{looked_up, pronounced, CmuDictionary};
use crate::phonemes::{unit_code, unit_with_code, PhoneticUnit, Pronunciation, UNIT_CODES};
use crate::text::{split, texts, to_chars, to_text, words, Separator};
use crate::text_normaliser::{
    chunk_models, lemma_normalised_is_textual, normalise_text, normalised, ChunkModel,
    NormaliseError, NormaliserChunk,
};
use crate::word_map::{precedes, WordMap};
use std::collections::BTreeMap;
use vstd::prelude::*;

verus! {

broadcast use vstd::laws_cmp::group_laws_cmp;

/// The number of codes that pairs of phonetic units have.
pub const PAIR_CODES: usize = 298116;

/// A number for each pair of phonetic units, in the order of the pairs.
pub open spec fn pair_code(first: PhoneticUnit, second: PhoneticUnit) -> int {
    unit_code(first) * 546 + unit_code(second)
}

/// A count after `more` has been added to it. Counts stop at the largest
/// number that can be held.
pub open spec fn added(count: int, more: int) -> int {
    if count + more > usize::MAX {
        usize::MAX as int
    } else {
        count + more
    }
}

/// How many units of a reading have the given code.
pub open spec fn unit_tally(reading: Seq<PhoneticUnit>, code: int) -> nat
    decreases reading.len(),
{
    if reading.len() == 0 {
        0
    } else {
        unit_tally(reading.drop_last(), code) + if unit_code(reading.last()) == code {
            1nat
        } else {
            0nat
        }
    }
}

/// How many pairs of neighbours in a reading have the given code.
pub open spec fn pair_tally(reading: Seq<PhoneticUnit>, code: int) -> nat
    decreases reading.len(),
{
    if reading.len() < 2 {
        0
    } else {
        pair_tally(reading.drop_last(), code) + if pair_code(
            reading[reading.len() - 2],
            reading.last(),
        ) == code {
            1nat
        } else {
            0nat
        }
    }
}

/// How many units of all the readings have the given code.
pub open spec fn units_in(readings: Seq<Seq<PhoneticUnit>>, code: int) -> nat
    decreases readings.len(),
{
    if readings.len() == 0 {
        0
    } else {
        units_in(readings.drop_last(), code) + unit_tally(readings.last(), code)
    }
}

/// How many pairs of neighbours in all the readings have the given code.
pub open spec fn pairs_in(readings: Seq<Seq<PhoneticUnit>>, code: int) -> nat
    decreases readings.len(),
{
    if readings.len() == 0 {
        0
    } else {
        pairs_in(readings.drop_last(), code) + pair_tally(readings.last(), code)
    }
}

/// The counts that an analysis keeps.
pub struct Tallies {
    /// For each code of a unit, how often the unit occurred.
    pub phonemes: Seq<usize>,
    /// For each code of a pair, how often the pair occurred.
    pub diphones: Seq<usize>,
    /// For each word that the dictionary does not know, how often it
    /// occurred.
    pub oov: Map<Seq<char>, usize>,
    /// For each length, how many sentences had it.
    pub sentence_lengths: Map<usize, usize>,
}

/// A map of counts with one more for `key`.
pub open spec fn bumped<K>(counts: Map<K, usize>, key: K) -> Map<K, usize> {
    if counts.contains_key(key) {
        counts.insert(key, added(counts[key] as int, 1) as usize)
    } else {
        counts.insert(key, 1usize)
    }
}

/// The counts with every count of `base` raised by what `more` says for
/// its place.
pub open spec fn raised(base: Seq<usize>, more: spec_fn(int) -> nat) -> Seq<usize> {
    Seq::new(base.len(), |c: int| added(base[c] as int, more(c) as int) as usize)
}

/// The tallies after one more word, given in its normalised form. A word
/// of the dictionary counts with the phones and the pairs of all its
/// readings; any other word counts as unknown.
pub open spec fn with_word(
    tallies: Tallies,
    entries: Map<Seq<char>, Seq<Seq<PhoneticUnit>>>,
    word: Seq<char>,
) -> Tallies {
    if entries.contains_key(word) {
        Tallies {
            phonemes: raised(tallies.phonemes, |c: int| units_in(entries[word], c)),
            diphones: raised(tallies.diphones, |c: int| pairs_in(entries[word], c)),
            ..tallies
        }
    } else {
        Tallies { oov: bumped(tallies.oov, word), ..tallies }
    }
}

/// Counts for a dataset, gathered word by word and sentence by sentence.
pub struct AnalyticsGenerator {
    dict: CmuDictionary,
    diphones: Vec<usize>,
    phonemes: Vec<usize>,
    oov: WordMap<usize>,
    sentence_lengths: BTreeMap<usize, usize>,
}

impl View for AnalyticsGenerator {
    type V = Tallies;

    closed spec fn view(&self) -> Tallies {
        Tallies {
            phonemes: self.phonemes@,
            diphones: self.diphones@,
            oov: self.oov.map(),
            sentence_lengths: self.sentence_lengths@,
        }
    }
}

fn zeros(n: usize) -> (v: Vec<usize>)
    ensures
        v@.len() == n,
        forall|i: int| 0 <= i < n ==> #[trigger] v@[i] == 0,
{
    let mut v: Vec<usize> = Vec::new();
    let mut i: usize = 0;
    while i < n
        invariant
            i <= n,
            v@.len() == i,
            forall|j: int| 0 <= j < i ==> #[trigger] v@[j] == 0,
        decreases n - i,
    {
        v.push(0);
        i += 1;
    }
    v
}

/// Raises one count of a table by one.
fn bump(table: &mut Vec<usize>, code: usize)
    requires
        code < old(table)@.len(),
    ensures
        final(table)@ == old(table)@.update(
            code as int,
            added(old(table)@[code as int] as int, 1) as usize,
        ),
{
    let v = table[code];
    if v < usize::MAX {
        table.set(code, v + 1);
    } else {
        table.set(code, v);
    }
}

impl AnalyticsGenerator {
    /// The dictionary that tells known words from unknown ones.
    pub closed spec fn dictionary(&self) -> CmuDictionary {
        self.dict
    }

    /// What holds of every generator: there is a count for each unit and
    /// each pair.
    pub closed spec fn wf(&self) -> bool {
        &&& self.dict.wf()
        &&& self.oov.wf()
        &&& self.phonemes@.len() == UNIT_CODES
        &&& self.diphones@.len() == PAIR_CODES
    }

    /// Creates a generator that has counted nothing yet.
    pub fn new(dict: CmuDictionary) -> (g: AnalyticsGenerator)
        requires
            dict.wf(),
        ensures
            g.wf(),
            g.dictionary() == dict,
            g@.phonemes.len() == UNIT_CODES,
            g@.diphones.len() == PAIR_CODES,
            forall|c: int| 0 <= c < UNIT_CODES ==> #[trigger] g@.phonemes[c] == 0,
            forall|c: int| 0 <= c < PAIR_CODES ==> #[trigger] g@.diphones[c] == 0,
            g@.oov == Map::<Seq<char>, usize>::empty(),
            g@.sentence_lengths == Map::<usize, usize>::empty(),
    {
        let g = AnalyticsGenerator {
            dict,
            diphones: zeros(PAIR_CODES),
            phonemes: zeros(UNIT_CODES),
            oov: WordMap::new(),
            sentence_lengths: BTreeMap::new(),
        };
        assert(g@.oov =~= Map::<Seq<char>, usize>::empty());
        g
    }

    /// Counts the units and the pairs of one reading.
    fn count_reading(&mut self, reading: &Pronunciation)
        requires
            old(self).wf(),
        ensures
            final(self).wf(),
            final(self).dictionary() == old(self).dictionary(),
            final(self)@.oov == old(self)@.oov,
            final(self)@.sentence_lengths == old(self)@.sentence_lengths,
            final(self)@.phonemes == raised(
                old(self)@.phonemes,
                |c: int| unit_tally(reading@, c),
            ),
            final(self)@.diphones == raised(
                old(self)@.diphones,
                |c: int| pair_tally(reading@, c),
            ),
    {
        let mut i: usize = 0;
        assert(reading@.take(0) == Seq::<PhoneticUnit>::empty());
        assert(self@.phonemes == raised(old(self)@.phonemes, |c: int| unit_tally(reading@.take(0), c)));
        assert(self@.diphones == raised(old(self)@.diphones, |c: int| pair_tally(reading@.take(0), c)));
        while i < reading.len()
            invariant
                i <= reading.len(),
                self.wf(),
                self.dict == old(self).dict,
                self.oov == old(self).oov,
                self.sentence_lengths == old(self).sentence_lengths,
                old(self)@.phonemes.len() == UNIT_CODES,
                old(self)@.diphones.len() == PAIR_CODES,
                self@.phonemes == raised(
                    old(self)@.phonemes,
                    |c: int| unit_tally(reading@.take(i as int), c),
                ),
                self@.diphones == raised(
                    old(self)@.diphones,
                    |c: int| pair_tally(reading@.take(i as int), c),
                ),
            decreases reading.len() - i,
        {
            let ghost seen = reading@.take(i as int);
            let ghost now = reading@.take(i + 1);
            proof {
                assert(now.drop_last() == seen);
                assert(now.last() == reading@[i as int]);
                if i > 0 {
                    assert(now[now.len() - 2] == reading@[i - 1]);
                }
            }
            let code = reading[i].code();
            bump(&mut self.phonemes, code);
            if i > 0 {
                let pair = reading[i - 1].code() * 546 + code;
                bump(&mut self.diphones, pair);
            }
            proof {
                assert(self@.phonemes =~= raised(
                    old(self)@.phonemes,
                    |c: int| unit_tally(now, c),
                ));
                assert(self@.diphones =~= raised(
                    old(self)@.diphones,
                    |c: int| pair_tally(now, c),
                ));
            }
            i += 1;
        }
        assert(reading@.take(reading.len() as int) == reading@);
    }

    /// Adds a word that is already normalised to the counts.
    fn count_word(&mut self, word: String)
        requires
            old(self).wf(),
        ensures
            final(self).wf(),
            final(self).dictionary() == old(self).dictionary(),
            final(self)@ == with_word(old(self)@, old(self).dictionary()@, word@),
    {
        let ghost entries = self.dict@;
        match self.dict.get_pronunciations_normalised(word.as_str()) {
            Some(list) => {
                let list = crate::cmu_dict::copy_readings(list);
                let ghost all = crate::cmu_dict::readings(list);
                assert(all == entries[word@]);
                let mut k: usize = 0;
                assert(all.take(0) == Seq::<Seq<PhoneticUnit>>::empty());
                assert(self@.phonemes =~= raised(
                    old(self)@.phonemes,
                    |c: int| units_in(all.take(0), c),
                ));
                assert(self@.diphones =~= raised(
                    old(self)@.diphones,
                    |c: int| pairs_in(all.take(0), c),
                ));
                while k < list.len()
                    invariant
                        k <= list.len(),
                        self.wf(),
                        all == crate::cmu_dict::readings(list),
                        self.dict == old(self).dict,
                        self@.oov == old(self)@.oov,
                        self@.sentence_lengths == old(self)@.sentence_lengths,
                        old(self)@.phonemes.len() == UNIT_CODES,
                        old(self)@.diphones.len() == PAIR_CODES,
                        self@.phonemes == raised(
                            old(self)@.phonemes,
                            |c: int| units_in(all.take(k as int), c),
                        ),
                        self@.diphones == raised(
                            old(self)@.diphones,
                            |c: int| pairs_in(all.take(k as int), c),
                        ),
                    decreases list.len() - k,
                {
                    proof {
                        assert(all.take(k + 1).drop_last() == all.take(k as int));
                        assert(all.take(k + 1).last() == list@[k as int]@);
                    }
                    self.count_reading(&list[k]);
                    proof {
                        assert(self@.phonemes =~= raised(
                            old(self)@.phonemes,
                            |c: int| units_in(all.take(k + 1), c),
                        ));
                        assert(self@.diphones =~= raised(
                            old(self)@.diphones,
                            |c: int| pairs_in(all.take(k + 1), c),
                        ));
                    }
                    k += 1;
                }
                assert(all.take(list.len() as int) == all);
            },
            None => {
                let count: usize = match self.oov.get(word.as_str()) {
                    Some(n) => if *n < usize::MAX {
                        *n + 1
                    } else {
                        *n
                    },
                    None => 1,
                };
                self.oov.insert(word, count);
                assert(self@.oov =~= bumped(old(self)@.oov, word@));
            },
        }
    }

    /// Adds a word to the counts. The word is normalised first; a word
    /// that cannot be normalised changes nothing and is reported.
    pub fn push_word(&mut self, word: &str) -> (r: Result<(), NormaliseError>)
        requires
            old(self).wf(),
        ensures
            final(self).wf(),
            final(self).dictionary() == old(self).dictionary(),
            match r {
                Ok(_) => looked_up(word@) matches Some(w) && final(self)@ == with_word(
                    old(self)@,
                    old(self).dictionary()@,
                    w,
                ),
                Err(e) => normalised(word@) == Err::<Seq<ChunkModel>, NormaliseError>(e)
                    && final(self)@ == old(self)@,
            },
    {
        match normalise_text(word) {
            Ok(text) => {
                proof {
                    lemma_normalised_is_textual(word@);
                }
                let w = text.to_string_unchecked();
                self.count_word(w);
                Ok(())
            },
            Err(e) => Err(e),
        }
    }
}

/// The number of units in the sentence that is being read, and the
/// counts of the lengths of the sentences read.
pub struct SentenceRun {
    pub run: usize,
    pub lengths: Map<usize, usize>,
}

/// The run after one more chunk. Units add their number to the length
/// of the sentence, a punctuation mark adds one, and a mark that ends a
/// sentence has the length counted.
pub open spec fn after_chunk(state: SentenceRun, chunk: ChunkModel) -> SentenceRun {
    match chunk {
        ChunkModel::Pronunciation(units) => SentenceRun {
            run: added(state.run as int, units.len() as int) as usize,
            ..state
        },
        ChunkModel::Punct(p) => {
            let run = added(state.run as int, 1) as usize;
            if p.ends_sentence() {
                SentenceRun { run: 0, lengths: bumped(state.lengths, run) }
            } else {
                SentenceRun { run, ..state }
            }
        },
        _ => state,
    }
}

/// The run after all the chunks.
pub open spec fn after_chunks(lengths: Map<usize, usize>, chunks: Seq<ChunkModel>) -> SentenceRun
    decreases chunks.len(),
{
    if chunks.len() == 0 {
        SentenceRun { run: 0, lengths }
    } else {
        after_chunk(after_chunks(lengths, chunks.drop_last()), chunks.last())
    }
}

/// The counts of sentence lengths after the chunks of a text. What
/// follows the last mark that ends a sentence counts as one more.
pub open spec fn lengths_after(lengths: Map<usize, usize>, chunks: Seq<ChunkModel>) -> Map<
    usize,
    usize,
> {
    let end = after_chunks(lengths, chunks);
    if end.run > 0 {
        bumped(end.lengths, end.run)
    } else {
        end.lengths
    }
}

/// The tallies after the words have been counted one by one, and the
/// reason for which the count stopped early, if it did: the first word
/// that cannot be normalised.
pub open spec fn with_words(
    tallies: Tallies,
    entries: Map<Seq<char>, Seq<Seq<PhoneticUnit>>>,
    words: Seq<Seq<char>>,
) -> (Tallies, Option<NormaliseError>)
    decreases words.len(),
{
    if words.len() == 0 {
        (tallies, None)
    } else {
        let before = with_words(tallies, entries, words.drop_last());
        if before.1 is Some {
            before
        } else {
            match (normalised(words.last()), looked_up(words.last())) {
                (Ok(_), Some(w)) => (with_word(before.0, entries, w), None),
                (Err(e), _) => (before.0, Some(e)),
                (Ok(_), None) => before,
            }
        }
    }
}

/// The tallies after a sentence: the lengths of its sentences are
/// counted from its normalised form, then its words are counted one by
/// one.
pub open spec fn with_sentence(
    tallies: Tallies,
    entries: Map<Seq<char>, Seq<Seq<PhoneticUnit>>>,
    sentence: Seq<char>,
) -> (Tallies, Option<NormaliseError>) {
    match normalised(sentence) {
        Err(e) => (tallies, Some(e)),
        Ok(chunks) => {
            let spoken = chunks.map_values(|c: ChunkModel| pronounced(entries, c));
            let counted = Tallies {
                sentence_lengths: lengths_after(tallies.sentence_lengths, spoken),
                ..tallies
            };
            with_words(counted, entries, words(Separator::Whitespace, sentence))
        },
    }
}

fn bump_length(lengths: &mut BTreeMap<usize, usize>, n: usize)
    ensures
        final(lengths)@ == bumped(old(lengths)@, n),
{
    let count: usize = match lengths.get(&n) {
        Some(c) => if *c < usize::MAX {
            *c + 1
        } else {
            *c
        },
        None => 1,
    };
    lengths.insert(n, count);
}

fn add_saturating(a: usize, b: usize) -> (r: usize)
    ensures
        r == added(a as int, b as int),
{
    if b > usize::MAX - a {
        usize::MAX
    } else {
        a + b
    }
}

impl AnalyticsGenerator {
    /// Processes a sentence of plain text: counts the lengths of the
    /// sentences in it, then adds all its words to the counts. Stops at
    /// the first word that cannot be normalised and reports it; what was
    /// counted before stays counted.
    pub fn push_sentence(&mut self, sentence: &str) -> (r: Result<(), NormaliseError>)
        requires
            old(self).wf(),
        ensures
            final(self).wf(),
            final(self).dictionary() == old(self).dictionary(),
            final(self)@ == with_sentence(old(self)@, old(self).dictionary()@, sentence@).0,
            match r {
                Ok(_) => with_sentence(old(self)@, old(self).dictionary()@, sentence@).1 is None,
                Err(e) => with_sentence(old(self)@, old(self).dictionary()@, sentence@).1 == Some(
                    e,
                ),
            },
    {
        let mut text = match normalise_text(sentence) {
            Ok(text) => text,
            Err(e) => {
                return Err(e);
            },
        };
        text.words_to_pronunciation(&self.dict);
        let chunks = text.drain_all();
        let ghost spoken = chunk_models(chunks@);
        let mut run: usize = 0;
        let mut i: usize = 0;
        assert(spoken.take(0) == Seq::<ChunkModel>::empty());
        while i < chunks.len()
            invariant
                i <= chunks.len(),
                spoken == chunk_models(chunks@),
                self.wf(),
                self.dict == old(self).dict,
                self.phonemes == old(self).phonemes,
                self.diphones == old(self).diphones,
                self.oov == old(self).oov,
                after_chunks(old(self)@.sentence_lengths, spoken.take(i as int)) == (SentenceRun {
                    run,
                    lengths: self@.sentence_lengths,
                }),
            decreases chunks.len() - i,
        {
            proof {
                assert(spoken.take(i + 1).drop_last() == spoken.take(i as int));
                assert(spoken.take(i + 1).last() == chunks@[i as int]@);
            }
            match &chunks[i] {
                NormaliserChunk::Pronunciation(units) => {
                    run = add_saturating(run, units.len());
                },
                NormaliserChunk::Punct(p) => {
                    run = add_saturating(run, 1);
                    if p.is_sentence_end() {
                        bump_length(&mut self.sentence_lengths, run);
                        run = 0;
                    }
                },
                _ => {},
            }
            i += 1;
        }
        assert(spoken.take(chunks.len() as int) == spoken);
        if run > 0 {
            bump_length(&mut self.sentence_lengths, run);
        }
        let parts = split(Separator::Whitespace, &to_chars(sentence));
        self.push_words(&parts)
    }

    /// Adds words to the counts one by one, up to the first that cannot
    /// be normalised.
    fn push_words(&mut self, parts: &Vec<Vec<char>>) -> (r: Result<(), NormaliseError>)
        requires
            old(self).wf(),
        ensures
            final(self).wf(),
            final(self).dictionary() == old(self).dictionary(),
            final(self)@ == with_words(old(self)@, old(self).dictionary()@, texts(parts@)).0,
            match r {
                Ok(_) => with_words(old(self)@, old(self).dictionary()@, texts(parts@)).1 is None,
                Err(e) => with_words(old(self)@, old(self).dictionary()@, texts(parts@)).1 == Some(
                    e,
                ),
            },
    {
        let ghost start = self@;
        let ghost entries = self.dict@;
        let ghost all = texts(parts@);
        let mut k: usize = 0;
        assert(all.take(0) == Seq::<Seq<char>>::empty());
        while k < parts.len()
            invariant
                k <= parts.len(),
                all == texts(parts@),
                self.wf(),
                self.dict == old(self).dict,
                entries == old(self).dict@,
                start == old(self)@,
                with_words(start, entries, all.take(k as int)) == (self@, None::<NormaliseError>),
            decreases parts.len() - k,
        {
            let ghost word = parts@[k as int]@;
            let ghost before = self@;
            proof {
                assert(all.take(k + 1).drop_last() == all.take(k as int));
                assert(all.take(k + 1).last() == word);
                lemma_normalised_is_textual(word);
            }
            let r = self.push_word(to_text(&parts[k]).as_str());
            proof {
                lemma_with_words_step(start, entries, all.take(k + 1), before, self@, r);
            }
            match r {
                Ok(_) => {},
                Err(e) => {
                    proof {
                        lemma_with_words_stops(start, entries, all, k + 1);
                    }
                    return Err(e);
                },
            }
            k += 1;
        }
        assert(all.take(parts.len() as int) == all);
        Ok(())
    }
}

/// What one more word does to the count of a list of words.
proof fn lemma_with_words_step(
    tallies: Tallies,
    entries: Map<Seq<char>, Seq<Seq<PhoneticUnit>>>,
    words: Seq<Seq<char>>,
    before: Tallies,
    after: Tallies,
    r: Result<(), NormaliseError>,
)
    requires
        words.len() > 0,
        with_words(tallies, entries, words.drop_last()) == (before, None::<NormaliseError>),
        match r {
            Ok(_) => looked_up(words.last()) matches Some(w) && after == with_word(
                before,
                entries,
                w,
            ),
            Err(e) => normalised(words.last()) == Err::<Seq<ChunkModel>, NormaliseError>(e)
                && after == before,
        },
    ensures
        with_words(tallies, entries, words) == (
            after,
            match r {
                Ok(_) => None::<NormaliseError>,
                Err(e) => Some(e),
            },
        ),
{
}

/// Once the count has stopped, further words change nothing.
proof fn lemma_with_words_stops(
    tallies: Tallies,
    entries: Map<Seq<char>, Seq<Seq<PhoneticUnit>>>,
    words: Seq<Seq<char>>,
    n: int,
)
    requires
        0 <= n <= words.len(),
        with_words(tallies, entries, words.take(n)).1 is Some,
    ensures
        with_words(tallies, entries, words) == with_words(tallies, entries, words.take(n)),
    decreases words.len() - n,
{
    if n < words.len() {
        assert(words.take(n + 1).drop_last() == words.take(n));
        lemma_with_words_stops(tallies, entries, words, n + 1);
    } else {
        assert(words.take(n) == words);
    }
}

/// How often a pair of neighbouring phones occurs, as a value of
/// specifications.
pub struct DiphoneModel {
    pub first: Seq<char>,
    pub second: Seq<char>,
    pub count: usize,
}

/// How often a pair of neighbouring phones occurs.
#[derive(Clone, Debug, PartialEq, Eq, PartialOrd, Ord, Hash)]
pub struct DiphoneStat {
    /// The two phones, as they are written.
    pub phones: [String; 2],
    /// How often the pair occurs in the dataset.
    pub count: usize,
}

impl View for DiphoneStat {
    type V = DiphoneModel;

    open spec fn view(&self) -> DiphoneModel {
        DiphoneModel { first: self.phones[0]@, second: self.phones[1]@, count: self.count }
    }
}

/// The report on a dataset.
#[derive(Clone, Debug, PartialEq, Eq)]
pub struct Analytics {
    /// The pairs of phones that occur, with their counts, in the order
    /// of the pairs.
    pub diphones: Vec<DiphoneStat>,
    /// The phones that occur, as they are written, with their counts.
    pub phonemes: WordMap<usize>,
    /// The words that the dictionary does not know, with their counts.
    pub oov: WordMap<usize>,
    /// For each length of a sentence, how many sentences have it. From
    /// this the longest context seen in training can be read off.
    pub sentence_lengths: BTreeMap<usize, usize>,
}

/// The entry of the report for the pair with the given code.
pub open spec fn diphone_model(code: int, count: usize) -> DiphoneModel {
    DiphoneModel {
        first: unit_with_code(code / 546).text(),
        second: unit_with_code(code % 546).text(),
        count,
    }
}

/// The entries of the report for the pairs with a code below `n`: one
/// for each pair that has occurred.
pub open spec fn diphone_models(counts: Seq<usize>, n: int) -> Seq<DiphoneModel>
    decreases n,
{
    if n <= 0 {
        Seq::empty()
    } else if counts[n - 1] > 0 {
        diphone_models(counts, n - 1).push(diphone_model(n - 1, counts[n - 1]))
    } else {
        diphone_models(counts, n - 1)
    }
}

/// The count that the report gives for a phone as it is written: that
/// of the unit, where the text writes one that has occurred.
pub open spec fn phoneme_entry(counts: Seq<usize>, word: Seq<char>, n: int) -> Option<usize>
    decreases n,
{
    if n <= 0 {
        None
    } else if counts[n - 1] > 0 && unit_with_code(n - 1).text() == word {
        Some(counts[n - 1])
    } else {
        phoneme_entry(counts, word, n - 1)
    }
}

/// A copy of a map of counts.
fn copy_counts(counts: &WordMap<usize>) -> (out: WordMap<usize>)
    requires
        counts.wf(),
    ensures
        out.wf(),
        out.map() == counts.map(),
{
    let mut out: WordMap<usize> = WordMap::new();
    let mut i: usize = 0;
    while i < counts.len()
        invariant
            i <= counts.words().len(),
            counts.wf(),
            out.wf(),
            out.words() == counts.words().take(i as int),
            out.values() == counts.values().take(i as int),
        decreases counts.words().len() - i,
    {
        proof {
            assert forall|j: int| 0 <= j < out.words().len() implies precedes(
                #[trigger] out.words()[j],
                counts.words()[i as int],
            ) by {
                assert(out.words()[j] == counts.words()[j]);
            }
        }
        let word = counts.word_at(i).clone();
        let value = *counts.value_at(i);
        out.push_last(word, value);
        i += 1;
    }
    proof {
        assert(counts.words().take(counts.words().len() as int) == counts.words());
        assert(counts.values().take(counts.values().len() as int) == counts.values());
        assert(out.map() =~= counts.map());
    }
    out
}

impl AnalyticsGenerator {
    /// Generates the report, which callers may save for later use.
    pub fn generate_report(&self) -> (report: Analytics)
        requires
            self.wf(),
        ensures
            report.diphones@.map_values(|d: DiphoneStat| d@) == diphone_models(
                self@.diphones,
                PAIR_CODES as int,
            ),
            report.phonemes.wf(),
            forall|w: Seq<char>|
                #[trigger] report.phonemes.lookup(w) == phoneme_entry(
                    self@.phonemes,
                    w,
                    UNIT_CODES as int,
                ),
            report.oov.wf(),
            report.oov.map() == self@.oov,
            report.sentence_lengths@ == self@.sentence_lengths,
    {
        let mut diphones: Vec<DiphoneStat> = Vec::new();
        let mut c: usize = 0;
        assert(diphones@.map_values(|d: DiphoneStat| d@) == diphone_models(self@.diphones, 0));
        while c < PAIR_CODES
            invariant
                c <= PAIR_CODES,
                self.wf(),
                diphones@.map_values(|d: DiphoneStat| d@) == diphone_models(
                    self@.diphones,
                    c as int,
                ),
            decreases PAIR_CODES - c,
        {
            let count = self.diphones[c];
            if count > 0 {
                match (PhoneticUnit::from_code(c / 546), PhoneticUnit::from_code(c % 546)) {
                    (Some(first), Some(second)) => {
                        let ghost before = diphones@;
                        let stat = DiphoneStat {
                            phones: [first.to_string(), second.to_string()],
                            count,
                        };
                        assert(stat@ == diphone_model(c as int, count));
                        diphones.push(stat);
                        assert(diphones@.map_values(|d: DiphoneStat| d@) == before.map_values(
                            |d: DiphoneStat| d@,
                        ).push(stat@));
                    },
                    _ => {},
                }
            }
            c += 1;
        }
        let mut phonemes: WordMap<usize> = WordMap::new();
        let mut c: usize = 0;
        while c < UNIT_CODES
            invariant
                c <= UNIT_CODES,
                self.wf(),
                phonemes.wf(),
                forall|w: Seq<char>|
                    #[trigger] phonemes.lookup(w) == phoneme_entry(self@.phonemes, w, c as int),
            decreases UNIT_CODES - c,
        {
            let count = self.phonemes[c];
            if count > 0 {
                match PhoneticUnit::from_code(c) {
                    Some(unit) => {
                        phonemes.insert(unit.to_string(), count);
                    },
                    None => {},
                }
            }
            c += 1;
        }
        Analytics {
            diphones,
            phonemes,
            oov: copy_counts(&self.oov),
            sentence_lengths: self.sentence_lengths.clone(),
        }
    }
}

} // verus!
