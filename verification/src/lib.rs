//! Shared ETL library for the WXYC music data pipeline: text normalization,
//! fuzzy-matching helpers, PostgreSQL COPY formatting, pipeline bookkeeping
//! and schema contracts.

pub mod cli;
pub mod csv_writer;
pub mod fuzzy;
pub mod import;
pub mod logger;
pub mod parser;
pub mod pg;
pub mod pipeline;
pub mod schema;
pub mod sqlite;
pub mod state;
pub mod text;
