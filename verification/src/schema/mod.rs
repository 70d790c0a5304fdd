//! Schema contracts: table names, column lists and DDL for the databases
//! the pipeline writes: library.db (SQLite), discogs-cache, the entity
//! store, wikidata-cache and musicbrainz-cache (PostgreSQL).

pub mod discogs;
pub mod entity;
pub mod library;
pub mod musicbrainz;
pub mod wikidata;
