//! Scanner → processor → writer pipeline: batching, per-item bookkeeping
//! and the run statistics. The threads and channels that drive it belong
//! to the caller.

pub mod runner;
pub mod scanner;
pub mod writer;
