//! MusicBrainz-cache table and column constants.
//!
//! Matches the PostgreSQL schema in `musicbrainz-cache/schema/create_database.sql`.

use vstd::prelude::*;

verus! {

pub const MB_AREA_TYPE_TABLE: &'static str = "mb_area_type";
pub const MB_AREA_TYPE_COLUMNS: &'static [&'static str; 2] = &["id", "name"];

pub const MB_GENDER_TABLE: &'static str = "mb_gender";
pub const MB_GENDER_COLUMNS: &'static [&'static str; 2] = &["id", "name"];

pub const MB_TAG_TABLE: &'static str = "mb_tag";
pub const MB_TAG_COLUMNS: &'static [&'static str; 2] = &["id", "name"];

pub const MB_AREA_TABLE: &'static str = "mb_area";
pub const MB_AREA_COLUMNS: &'static [&'static str; 3] = &["id", "name", "type"];

pub const MB_COUNTRY_AREA_TABLE: &'static str = "mb_country_area";
pub const MB_COUNTRY_AREA_COLUMNS: &'static [&'static str; 1] = &["area"];

pub const MB_ARTIST_TABLE: &'static str = "mb_artist";
pub const MB_ARTIST_COLUMNS: &'static [&'static str; 8] = &[
    "id",
    "name",
    "sort_name",
    "type",
    "area",
    "gender",
    "begin_area",
    "comment",
];

pub const MB_ARTIST_ALIAS_TABLE: &'static str = "mb_artist_alias";
pub const MB_ARTIST_ALIAS_COLUMNS: &'static [&'static str; 7] = &[
    "id",
    "artist",
    "name",
    "sort_name",
    "locale",
    "type",
    "primary_for_locale",
];

pub const MB_ARTIST_TAG_TABLE: &'static str = "mb_artist_tag";
pub const MB_ARTIST_TAG_COLUMNS: &'static [&'static str; 3] = &["artist", "tag", "count"];

pub const MB_ARTIST_CREDIT_TABLE: &'static str = "mb_artist_credit";
pub const MB_ARTIST_CREDIT_COLUMNS: &'static [&'static str; 3] = &["id", "name", "artist_count"];

pub const MB_ARTIST_CREDIT_NAME_TABLE: &'static str = "mb_artist_credit_name";
pub const MB_ARTIST_CREDIT_NAME_COLUMNS: &'static [&'static str; 5] = &[
    "artist_credit",
    "position",
    "artist",
    "name",
    "join_phrase",
];

pub const MB_RELEASE_GROUP_TABLE: &'static str = "mb_release_group";
pub const MB_RELEASE_GROUP_COLUMNS: &'static [&'static str; 4] = &["id", "name", "artist_credit", "type"];

pub const MB_RECORDING_TABLE: &'static str = "mb_recording";
pub const MB_RECORDING_COLUMNS: &'static [&'static str; 5] = &["id", "gid", "name", "artist_credit", "length"];

pub const MB_MEDIUM_TABLE: &'static str = "mb_medium";
pub const MB_MEDIUM_COLUMNS: &'static [&'static str; 4] = &["id", "release", "position", "format"];

pub const MB_TRACK_TABLE: &'static str = "mb_track";
pub const MB_TRACK_COLUMNS: &'static [&'static str; 7] = &[
    "id",
    "recording",
    "medium",
    "position",
    "name",
    "artist_credit",
    "length",
];

/// All table names in the musicbrainz-cache schema.
pub const ALL_TABLES: &'static [&'static str; 14] = &[
    MB_AREA_TYPE_TABLE,
    MB_GENDER_TABLE,
    MB_TAG_TABLE,
    MB_AREA_TABLE,
    MB_COUNTRY_AREA_TABLE,
    MB_ARTIST_TABLE,
    MB_ARTIST_ALIAS_TABLE,
    MB_ARTIST_TAG_TABLE,
    MB_ARTIST_CREDIT_TABLE,
    MB_ARTIST_CREDIT_NAME_TABLE,
    MB_RELEASE_GROUP_TABLE,
    MB_RECORDING_TABLE,
    MB_MEDIUM_TABLE,
    MB_TRACK_TABLE,
];

} // verus!
