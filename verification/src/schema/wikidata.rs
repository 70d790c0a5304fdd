//! Wikidata-cache table and column constants.
//!
//! Matches the schema defined in the 6b plan
//! (`plans/phase-6-etl-conversions/6b-wikidata-cache-import.md`).

use vstd::prelude::*;

verus! {

pub const ENTITY_TABLE: &'static str = "entity";
pub const ENTITY_COLUMNS: &'static [&'static str; 4] = &["qid", "label", "description", "entity_type"];

pub const DISCOGS_MAPPING_TABLE: &'static str = "discogs_mapping";
pub const DISCOGS_MAPPING_COLUMNS: &'static [&'static str; 3] = &["qid", "property", "discogs_id"];

pub const INFLUENCE_TABLE: &'static str = "influence";
pub const INFLUENCE_COLUMNS: &'static [&'static str; 2] = &["source_qid", "target_qid"];

pub const GENRE_TABLE: &'static str = "genre";
pub const GENRE_COLUMNS: &'static [&'static str; 2] = &["entity_qid", "genre_qid"];

pub const RECORD_LABEL_TABLE: &'static str = "record_label";
pub const RECORD_LABEL_COLUMNS: &'static [&'static str; 2] = &["artist_qid", "label_qid"];

pub const LABEL_HIERARCHY_TABLE: &'static str = "label_hierarchy";
pub const LABEL_HIERARCHY_COLUMNS: &'static [&'static str; 2] = &["child_qid", "parent_qid"];

pub const ENTITY_ALIAS_TABLE: &'static str = "entity_alias";
pub const ENTITY_ALIAS_COLUMNS: &'static [&'static str; 2] = &["qid", "alias"];

pub const OCCUPATION_TABLE: &'static str = "occupation";
pub const OCCUPATION_COLUMNS: &'static [&'static str; 2] = &["entity_qid", "occupation_qid"];

/// All table names in the wikidata-cache schema.
pub const ALL_TABLES: &'static [&'static str; 8] = &[
    ENTITY_TABLE,
    DISCOGS_MAPPING_TABLE,
    INFLUENCE_TABLE,
    GENRE_TABLE,
    RECORD_LABEL_TABLE,
    LABEL_HIERARCHY_TABLE,
    ENTITY_ALIAS_TABLE,
    OCCUPATION_TABLE,
];

} // verus!
