//! library.db schema constants.
//!
//! Matches the SQLite schema in `discogs-cache/scripts/export_to_sqlite.py`.

use vstd::prelude::*;

verus! {

pub const LIBRARY_TABLE: &'static str = "library";

pub const LIBRARY_COLUMNS: &'static [&'static str; 9] = &[
    "id",
    "title",
    "artist",
    "call_letters",
    "artist_call_number",
    "release_call_number",
    "genre",
    "format",
    "alternate_artist_name",
];

pub const LIBRARY_DDL: &'static str = "\
CREATE TABLE library (
    id INTEGER PRIMARY KEY,
    title TEXT,
    artist TEXT,
    call_letters TEXT,
    artist_call_number INTEGER,
    release_call_number INTEGER,
    genre TEXT,
    format TEXT,
    alternate_artist_name TEXT
)";

pub const LIBRARY_FTS_TABLE: &'static str = "library_fts";

pub const LIBRARY_FTS_DDL: &'static str = "\
CREATE VIRTUAL TABLE library_fts USING fts5(
    title,
    artist,
    alternate_artist_name,
    content='library',
    content_rowid='id'
)";

} // verus!
