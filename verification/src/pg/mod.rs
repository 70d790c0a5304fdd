//! PostgreSQL bulk loading: COPY TEXT escaping, buffered batch copying,
//! deduplication tracking, TEXT boundary safety and table-name checks.

pub mod copy;
pub mod text;
pub mod admin;
pub mod batch;
pub mod dedup;
