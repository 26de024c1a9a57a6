//! Grapheme to phoneme conversion: from a word to its sounds. The only
//! means at hand is a dictionary with one reading for each word.
use crate::cmu_dict::looked_up;
use crate::phonemes::Pronunciation;
use crate::text_normaliser::{lemma_normalised_is_textual, normalise_text};
use crate::word_map::WordMap;
use vstd::prelude::*;

verus! {

/// Why a model cannot be built.
#[derive(Clone, Copy, Debug, PartialEq, Eq, Structural)]
pub enum G2pError {
    /// The builder was given no means of working out a pronunciation.
    NoPronunciationSource,
}

/// A model that finds the sounds of a word.
pub struct G2pModel {
    dictionary: WordMap<Pronunciation>,
}

/// Gathers what a `G2pModel` is built from.
pub struct G2pModelBuilder {
    dict: Option<WordMap<Pronunciation>>,
}

impl G2pModelBuilder {
    /// The dictionary that the builder holds, if it holds one.
    pub closed spec fn dictionary(&self) -> Option<WordMap<Pronunciation>> {
        self.dict
    }

    /// What holds of every builder: its dictionary, if any, is in order.
    pub open spec fn wf(&self) -> bool {
        self.dictionary() matches Some(d) ==> d.wf()
    }

    /// Names the dictionary that the model will look words up in, in
    /// place of one named before.
    pub fn add_dictionary(self, dict: WordMap<Pronunciation>) -> (b: G2pModelBuilder)
        requires
            dict.wf(),
        ensures
            b.wf(),
            b.dictionary() == Some(dict),
    {
        G2pModelBuilder { dict: Some(dict) }
    }

    /// Builds the model. Fails where no dictionary was named.
    pub fn build(self) -> (r: Result<G2pModel, G2pError>)
        requires
            self.wf(),
        ensures
            match r {
                Ok(m) => m.wf() && self.dictionary() == Some(m.dictionary()),
                Err(e) => self.dictionary() is None && e == G2pError::NoPronunciationSource,
            },
    {
        match self.dict {
            Some(dictionary) => Ok(G2pModel { dictionary }),
            None => Err(G2pError::NoPronunciationSource),
        }
    }
}

impl G2pModel {
    /// The dictionary of the model.
    pub closed spec fn dictionary(&self) -> WordMap<Pronunciation> {
        self.dictionary
    }

    /// What holds of every model: its dictionary is in order.
    pub open spec fn wf(&self) -> bool {
        self.dictionary().wf()
    }

    /// A builder that holds nothing yet.
    pub fn create() -> (b: G2pModelBuilder)
        ensures
            b.wf(),
            b.dictionary() is None,
    {
        G2pModelBuilder { dict: None }
    }

    /// The sounds of a word that has not been normalised yet. A word
    /// that cannot be normalised has none.
    pub fn get_pronunciation(&self, word: &str) -> (r: Option<&Pronunciation>)
        requires
            self.wf(),
        ensures
            match r {
                Some(p) => looked_up(word@) matches Some(w) && self.dictionary().lookup(w) == Some(
                    *p,
                ),
                None => looked_up(word@) matches Some(w) ==> self.dictionary().lookup(w) is None,
            },
    {
        match normalise_text(word) {
            Ok(text) => {
                proof {
                    lemma_normalised_is_textual(word@);
                }
                let w = text.to_string_unchecked();
                self.dictionary.get(w.as_str())
            },
            Err(_) => None,
        }
    }

    /// The sounds of a word that is already normalised.
    pub fn get_pronunciation_normalised(&self, word: &str) -> (r: Option<&Pronunciation>)
        requires
            self.wf(),
        ensures
            match r {
                Some(p) => self.dictionary().lookup(word@) == Some(*p),
                None => self.dictionary().lookup(word@) is None,
            },
    {
        self.dictionary.get(word)
    }
}

} // verus!
