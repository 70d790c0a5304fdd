//! Fuzzy string matching: the token and subsequence measures the scorers
//! are built from, and the library index the classifier searches.

pub mod order;
pub mod metrics;
pub mod classify;
