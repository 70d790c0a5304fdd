//! Pipeline state tracking for resumable ETL runs: which steps completed,
//! and the version migrations of the saved state.

pub mod state;
