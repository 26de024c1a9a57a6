//! Help for training a model: cleaning a dataset up and taking stock of
//! what it holds.
pub mod analytics;
pub mod lj_speech;
