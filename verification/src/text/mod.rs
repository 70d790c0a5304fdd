//! Text normalization, filtering, compilation detection and artist splitting.

pub mod batch;
pub mod chars;
pub mod compilation;
pub mod filter;
pub mod folds;
pub mod forms;
pub mod identity;
pub mod mojibake;
pub mod normalize;
pub mod split;
pub mod unicode;
