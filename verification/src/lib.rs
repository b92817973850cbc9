//! Line-counting library: classifies each line of source text as blank,
//! comment or code under a language's comment syntax, aggregates the
//! counts per language and over a whole project, and folds commit
//! history into daily, weekly and per-author buckets.

pub mod classifier;
pub mod cli;
pub mod error;
pub mod history;
pub mod language;
pub mod output;
pub mod processor;
pub mod stats;
pub mod text;
pub mod walker;
