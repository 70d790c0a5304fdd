//! Parsers for database dump formats.

pub mod mysql;
