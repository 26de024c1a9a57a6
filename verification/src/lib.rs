//! Text-to-speech front end: speech units, vocabulary lookup, chunk splitting
//! and the decoder state machine of a fixed-window sequence-to-sequence model.
pub mod cmu_dict;
pub mod g2p;
pub mod phonemes;
pub mod speedyspeech;
pub mod splitter;
pub mod tacotron2;
pub mod text;
pub mod text_normaliser;
pub mod training;
pub mod vocabulary;
pub mod word_map;
