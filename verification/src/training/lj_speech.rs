//! A dataset of one speaker that is widely used to train synthesis
//! models. Its manifest has one line for each recording: an
//! identifier, the transcript, and most often the transcript once more
//! with its numbers written out.
use crate::cmu_dict::{looked_up, pronounced, CmuDictionary};
use crate::phonemes::Unit;
use crate::text::{append, is_blank, is_blank_text, to_chars, to_text};
use crate::text_normaliser::{
    chunk_models, lemma_normalised_is_textual, normalise_text, normalised, ChunkModel,
    NormaliseError, NormaliserChunk,
};
use crate::word_map::WordMap;
use vstd::prelude::*;

verus! {

/// One recording of the dataset.
#[derive(Clone, Debug, PartialEq, Eq)]
pub struct Entry {
    /// The identifier of the recording.
    pub id: String,
    /// What is said in it.
    pub text: String,
}

/// The whole dataset.
#[derive(Clone, Debug, PartialEq, Eq)]
pub struct Dataset {
    /// The recordings in the order of the manifest.
    pub entries: Vec<Entry>,
}

/// The fields of a record of the manifest that make an entry: the first
/// is the identifier, and the transcript is the third field or, where
/// there is no third, the second. A record with one field or none
/// makes no entry.
pub open spec fn record_fields(record: Seq<Seq<char>>) -> Option<(Seq<char>, Seq<char>)> {
    if record.len() >= 3 {
        Some((record[0], record[2]))
    } else if record.len() == 2 {
        Some((record[0], record[1]))
    } else {
        None
    }
}

/// The entries that the records of a manifest make, as identifiers with
/// transcripts.
pub open spec fn record_entries(records: Seq<Seq<Seq<char>>>) -> Seq<(Seq<char>, Seq<char>)>
    decreases records.len(),
{
    if records.len() == 0 {
        Seq::empty()
    } else {
        let before = record_entries(records.drop_last());
        match record_fields(records.last()) {
            Some(e) => before.push(e),
            None => before,
        }
    }
}

/// The fields of a record, as values of specifications.
pub open spec fn field_texts(record: Vec<String>) -> Seq<Seq<char>> {
    record@.map_values(|f: String| f@)
}

/// Where a pronunciation stands while it is written out: the text so
/// far, and whether a brace is open.
pub struct Markup {
    pub text: Seq<char>,
    pub open: bool,
}

/// The markup after one more unit. The phones of a word stand in
/// braces, each followed by a space; a space or a punctuation mark
/// closes the braces.
pub open spec fn with_unit(m: Markup, unit: Unit) -> Markup {
    match unit {
        Unit::Phone(p) => Markup {
            text: if m.open {
                m.text + p.text().push(' ')
            } else {
                m.text.push('{') + p.text().push(' ')
            },
            open: true,
        },
        Unit::Space => Markup {
            text: if m.open {
                m.text.push('}').push(' ')
            } else {
                m.text.push(' ')
            },
            open: false,
        },
        Unit::Punct(p) => Markup {
            text: if m.open {
                m.text.push('}').push(p.symbol()).push(' ')
            } else {
                m.text.push(p.symbol()).push(' ')
            },
            open: false,
        },
        _ => m,
    }
}

/// The markup of a list of units.
pub open spec fn markup(units: Seq<Unit>) -> Markup
    decreases units.len(),
{
    if units.len() == 0 {
        Markup { text: Seq::empty(), open: false }
    } else {
        with_unit(markup(units.drop_last()), units.last())
    }
}

/// The transcript that the chunks of a text give: the markup of each
/// chunk of units, and each punctuation mark followed by a space.
pub open spec fn phonetic_text(chunks: Seq<ChunkModel>) -> Seq<char>
    decreases chunks.len(),
{
    if chunks.len() == 0 {
        Seq::empty()
    } else {
        let before = phonetic_text(chunks.drop_last());
        match chunks.last() {
            ChunkModel::Pronunciation(units) => before + markup(units).text,
            ChunkModel::Punct(p) => before.push(p.symbol()).push(' '),
            _ => before,
        }
    }
}

/// The phonetic transcript of a text, where the text can be normalised.
pub open spec fn phonetic_transcript(
    entries: Map<Seq<char>, Seq<Seq<crate::phonemes::PhoneticUnit>>>,
    text: Seq<char>,
) -> Result<Seq<char>, NormaliseError> {
    match normalised(text) {
        Ok(chunks) => Ok(phonetic_text(chunks.map_values(|c: ChunkModel| pronounced(entries, c)))),
        Err(e) => Err(e),
    }
}

/// Whether a transcript is fit for training: neither it nor its
/// normalised form is blank.
pub open spec fn is_usable(text: Seq<char>) -> bool {
    &&& !is_blank(text)
    &&& looked_up(text) matches Some(s) && !is_blank(s)
}

fn write_units(units: &Vec<Unit>) -> (out: Vec<char>)
    ensures
        out@ == markup(units@).text,
{
    let mut out: Vec<char> = Vec::new();
    let mut open = false;
    let mut i: usize = 0;
    assert(units@.take(0) == Seq::<Unit>::empty());
    while i < units.len()
        invariant
            i <= units.len(),
            markup(units@.take(i as int)) == (Markup { text: out@, open }),
        decreases units.len() - i,
    {
        proof {
            assert(units@.take(i + 1).drop_last() == units@.take(i as int));
            assert(units@.take(i + 1).last() == units@[i as int]);
        }
        match units[i] {
            Unit::Phone(p) => {
                if !open {
                    out.push('{');
                    open = true;
                }
                let mut letters = p.letters();
                letters.push(' ');
                append(&mut out, &letters);
            },
            Unit::Space => {
                if open {
                    out.push('}');
                }
                open = false;
                out.push(' ');
            },
            Unit::Punct(p) => {
                if open {
                    out.push('}');
                }
                open = false;
                out.push(p.to_char());
                out.push(' ');
            },
            _ => {},
        }
        i += 1;
    }
    assert(units@.take(units.len() as int) == units@);
    out
}

fn write_chunks(chunks: &Vec<NormaliserChunk>) -> (out: Vec<char>)
    ensures
        out@ == phonetic_text(chunk_models(chunks@)),
{
    let ghost all = chunk_models(chunks@);
    let mut out: Vec<char> = Vec::new();
    let mut i: usize = 0;
    assert(all.take(0) == Seq::<ChunkModel>::empty());
    while i < chunks.len()
        invariant
            i <= chunks.len(),
            all == chunk_models(chunks@),
            out@ == phonetic_text(all.take(i as int)),
        decreases chunks.len() - i,
    {
        proof {
            assert(all.take(i + 1).drop_last() == all.take(i as int));
            assert(all.take(i + 1).last() == chunks@[i as int]@);
        }
        match &chunks[i] {
            NormaliserChunk::Pronunciation(units) => {
                let text = write_units(units);
                append(&mut out, &text);
            },
            NormaliserChunk::Punct(p) => {
                out.push(p.to_char());
                out.push(' ');
            },
            _ => {},
        }
        i += 1;
    }
    assert(all.take(chunks.len() as int) == all);
    out
}

/// The phonetic transcript of a text.
pub fn transcribe(text: &str, dict: &CmuDictionary) -> (r: Result<String, NormaliseError>)
    requires
        dict.wf(),
    ensures
        match r {
            Ok(t) => phonetic_transcript(dict@, text@) == Ok::<Seq<char>, NormaliseError>(t@),
            Err(e) => phonetic_transcript(dict@, text@) == Err::<Seq<char>, NormaliseError>(e),
        },
{
    match normalise_text(text) {
        Ok(normal) => {
            let mut normal = normal;
            normal.words_to_pronunciation(dict);
            let chunks = normal.drain_all();
            Ok(to_text(&write_chunks(&chunks)))
        },
        Err(e) => Err(e),
    }
}

impl Dataset {
    /// The identifiers of the entries, in order.
    pub open spec fn ids(&self) -> Seq<Seq<char>> {
        self.entries@.map_values(|e: Entry| e.id@)
    }

    /// The transcripts of the entries, in order.
    pub open spec fn transcripts(&self) -> Seq<Seq<char>> {
        self.entries@.map_values(|e: Entry| e.text@)
    }

    /// Makes a dataset of the records of a manifest, each given as its
    /// fields. Where a record has the transcript twice, the second one
    /// is taken, since its numbers are written out. Records with less
    /// than two fields are passed over.
    pub fn from_records(records: &Vec<Vec<String>>) -> (d: Dataset)
        ensures
            d.entries@.map_values(|e: Entry| (e.id@, e.text@)) == record_entries(
                records@.map_values(|r: Vec<String>| field_texts(r)),
            ),
    {
        let ghost all = records@.map_values(|r: Vec<String>| field_texts(r));
        let mut entries: Vec<Entry> = Vec::new();
        let mut i: usize = 0;
        assert(all.take(0) == Seq::<Seq<Seq<char>>>::empty());
        assert(entries@.map_values(|e: Entry| (e.id@, e.text@)) == record_entries(all.take(0)));
        while i < records.len()
            invariant
                i <= records.len(),
                all == records@.map_values(|r: Vec<String>| field_texts(r)),
                entries@.map_values(|e: Entry| (e.id@, e.text@)) == record_entries(
                    all.take(i as int),
                ),
            decreases records.len() - i,
        {
            proof {
                assert(all.take(i + 1).drop_last() == all.take(i as int));
                assert(all.take(i + 1).last() == field_texts(records@[i as int]));
            }
            let record = &records[i];
            if record.len() >= 2 {
                let text = if record.len() >= 3 {
                    record[2].clone()
                } else {
                    record[1].clone()
                };
                let ghost before = entries@;
                let entry = Entry { id: record[0].clone(), text };
                entries.push(entry);
                assert(entries@.map_values(|e: Entry| (e.id@, e.text@)) == before.map_values(
                    |e: Entry| (e.id@, e.text@),
                ).push((entry.id@, entry.text@)));
            }
            i += 1;
        }
        assert(all.take(records.len() as int) == all);
        Dataset { entries }
    }

    /// The records of the manifest for this dataset: for each entry the
    /// identifier and the transcript twice.
    pub fn to_records(&self) -> (records: Vec<Vec<String>>)
        ensures
            records@.len() == self.entries@.len(),
            forall|i: int|
                0 <= i < records@.len() ==> field_texts(#[trigger] records@[i]) == seq![
                    self.entries@[i].id@,
                    self.entries@[i].text@,
                    self.entries@[i].text@,
                ],
    {
        let mut records: Vec<Vec<String>> = Vec::new();
        let mut i: usize = 0;
        while i < self.entries.len()
            invariant
                i <= self.entries.len(),
                records@.len() == i,
                forall|j: int|
                    0 <= j < i ==> field_texts(#[trigger] records@[j]) == seq![
                        self.entries@[j].id@,
                        self.entries@[j].text@,
                        self.entries@[j].text@,
                    ],
            decreases self.entries.len() - i,
        {
            let entry = &self.entries[i];
            let record = vec![entry.id.clone(), entry.text.clone(), entry.text.clone()];
            assert(field_texts(record) == seq![entry.id@, entry.text@, entry.text@]);
            records.push(record);
            i += 1;
        }
        records
    }

    /// Replaces every transcript by its phonetic transcript: the phones
    /// of each word that the dictionary knows, in braces. Where a
    /// transcript cannot be normalised, nothing is changed and the
    /// reason is given.
    pub fn convert_to_pronunciation(&mut self, dict: &CmuDictionary) -> (r: Result<
        (),
        NormaliseError,
    >)
        requires
            dict.wf(),
        ensures
            final(self).ids() == old(self).ids(),
            final(self).entries@.len() == old(self).entries@.len(),
            match r {
                Ok(_) => forall|i: int|
                    0 <= i < old(self).entries@.len() ==> phonetic_transcript(
                        dict@,
                        #[trigger] old(self).transcripts()[i],
                    ) == Ok::<Seq<char>, NormaliseError>(final(self).transcripts()[i]),
                Err(e) => final(self).transcripts() == old(self).transcripts() && exists|i: int|
                    0 <= i < old(self).entries@.len() && phonetic_transcript(
                        dict@,
                        #[trigger] old(self).transcripts()[i],
                    ) == Err::<Seq<char>, NormaliseError>(e),
            },
    {
        let mut converted: Vec<Entry> = Vec::new();
        let mut i: usize = 0;
        while i < self.entries.len()
            invariant
                i <= self.entries.len(),
                dict.wf(),
                self.entries@ == old(self).entries@,
                converted@.len() == i,
                forall|j: int|
                    0 <= j < i ==> (#[trigger] converted@[j]).id@ == self.entries@[j].id@
                        && phonetic_transcript(dict@, self.entries@[j].text@) == Ok::<
                        Seq<char>,
                        NormaliseError,
                    >(converted@[j].text@),
            decreases self.entries.len() - i,
        {
            let entry = &self.entries[i];
            match transcribe(entry.text.as_str(), dict) {
                Ok(text) => {
                    converted.push(Entry { id: entry.id.clone(), text });
                },
                Err(e) => {
                    assert(old(self).transcripts()[i as int] == entry.text@);
                    return Err(e);
                },
            }
            i += 1;
        }
        self.entries = converted;
        proof {
            assert(self.ids() =~= old(self).ids());
            assert forall|i: int| 0 <= i < old(self).entries@.len() implies phonetic_transcript(
                dict@,
                #[trigger] old(self).transcripts()[i],
            ) == Ok::<Seq<char>, NormaliseError>(self.transcripts()[i]) by {
                assert(converted@[i].text@ == self.transcripts()[i]);
            }
        }
        Ok(())
    }

    /// What a dataset that is fit for training is like: every transcript
    /// is usable, and no identifier stands twice.
    pub open spec fn is_valid(&self) -> bool {
        &&& forall|i: int| 0 <= i < self.entries@.len() ==> is_usable(#[trigger] self.transcripts()[i])
        &&& forall|i: int, j: int|
            0 <= i < j < self.entries@.len() ==> self.ids()[i] != self.ids()[j]
    }

    /// Checks that nothing is wrong with the dataset.
    pub fn validate(&self) -> (success: bool)
        ensures
            success == self.is_valid(),
    {
        let mut seen: WordMap<bool> = WordMap::new();
        let mut success = true;
        let mut i: usize = 0;
        while i < self.entries.len()
            invariant
                i <= self.entries.len(),
                seen.wf(),
                forall|w: Seq<char>|
                    (#[trigger] seen.lookup(w)) is Some <==> exists|j: int|
                        0 <= j < i && self.ids()[j] == w,
                success ==> (forall|k: int| 0 <= k < i ==> is_usable(#[trigger] self.transcripts()[k]))
                    && (forall|a: int, b: int| 0 <= a < b < i ==> self.ids()[a] != self.ids()[b]),
                !success ==> !self.is_valid(),
            decreases self.entries.len() - i,
        {
            let entry = &self.entries[i];
            proof {
                assert(self.transcripts()[i as int] == entry.text@);
                assert(self.ids()[i as int] == entry.id@);
                lemma_normalised_is_textual(entry.text@);
            }
            let mut usable = !is_blank_text(&to_chars(entry.text.as_str()));
            match normalise_text(entry.text.as_str()) {
                Ok(normal) => {
                    let s = normal.to_string_unchecked();
                    if is_blank_text(&to_chars(s.as_str())) {
                        usable = false;
                    }
                },
                Err(_) => {
                    usable = false;
                },
            }
            if !usable {
                success = false;
            }
            match seen.get(entry.id.as_str()) {
                Some(_) => {
                    proof {
                        let j = choose|j: int| 0 <= j < i && self.ids()[j] == entry.id@;
                        assert(self.ids()[j] == self.ids()[i as int]);
                    }
                    success = false;
                },
                None => {},
            }
            let ghost before = seen;
            seen.insert(entry.id.clone(), true);
            proof {
                assert forall|w: Seq<char>| (#[trigger] seen.lookup(w)) is Some <==> exists|j: int|
                    0 <= j < i + 1 && self.ids()[j] == w by {
                    if w == entry.id@ {
                        assert(self.ids()[i as int] == w);
                    } else {
                        assert(seen.lookup(w) == before.lookup(w));
                        if before.lookup(w) is Some {
                            let j = choose|j: int| 0 <= j < i && self.ids()[j] == w;
                            assert(0 <= j < i + 1 && self.ids()[j] == w);
                        }
                        if exists|j: int| 0 <= j < i + 1 && self.ids()[j] == w {
                            let j = choose|j: int| 0 <= j < i + 1 && self.ids()[j] == w;
                            assert(j < i);
                        }
                    }
                }
            }
            i += 1;
        }
        success
    }
}

} // verus!
