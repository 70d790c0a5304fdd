//! Column mapping and deduplication for CSV/TSV import.

pub mod dedup;
pub mod mapping;

pub use dedup::ImportDedupSet;
pub use mapping::{ColumnMapping, TransformFn};
