use wxyc_etl::csv_writer::{file_index, CsvFileSpec};
use wxyc_etl::logger::{resolve_dsn, resolve_run_id};
use wxyc_etl::parser::mysql::{find_values_start, parse_single_value, SqlValue};
use wxyc_etl::sqlite::{fts5_sql, BatchState};

#[test]
fn csv_file_spec_holds_name_and_columns() {
    let spec = CsvFileSpec::new("release.csv", &["id", "title", "country"]);
    assert_eq!(spec.filename, "release.csv");
    assert_eq!(spec.columns, vec!["id", "title", "country"]);
}

#[test]
fn file_index_finds_first_match() {
    let names = vec!["a.csv".to_string(), "b.csv".to_string(), "a.csv".to_string()];
    assert_eq!(file_index(&names, "a.csv"), Some(0));
    assert_eq!(file_index(&names, "b.csv"), Some(1));
    assert_eq!(file_index(&names, "c.csv"), None);
}

#[test]
fn run_id_is_kept_or_generated() {
    assert_eq!(resolve_run_id(Some("test-run".to_string())), "test-run");
    let generated = resolve_run_id(None);
    assert_eq!(generated.len(), 36);
    assert_ne!(generated, resolve_run_id(None));
}

#[test]
fn dsn_prefers_config_and_ignores_empty() {
    assert_eq!(resolve_dsn(Some("https://a".to_string()), Some("https://b".to_string())), Some("https://a".to_string()));
    assert_eq!(resolve_dsn(None, Some("https://b".to_string())), Some("https://b".to_string()));
    assert_eq!(resolve_dsn(Some(String::new()), Some("https://b".to_string())), None);
    assert_eq!(resolve_dsn(None, Some(String::new())), None);
    assert_eq!(resolve_dsn(None, None), None);
}

#[test]
fn find_values_start_locates_first_paren_after_values() {
    let line = b"INSERT INTO `release` VALUES (1,'a'),(2,'b');";
    assert_eq!(find_values_start(line), Some(29));
    assert_eq!(find_values_start(b"INSERT INTO t VALUES"), None);
    assert_eq!(find_values_start(b"CREATE TABLE t (id int);"), None);
    assert_eq!(find_values_start(b"(x) VALUES(y)"), Some(10));
}

#[test]
fn batch_state_commits_at_batch_size() {
    let mut st = BatchState::new(2);
    assert!(st.needs_begin());
    st.began();
    assert!(!st.inserted());
    assert!(st.inserted());
    assert!(st.needs_commit());
    st.committed();
    assert_eq!(st.total_written, 2);
    assert!(!st.in_transaction);
    assert_eq!(st.batch_count, 0);
}

#[test]
fn fts5_sql_matches_statement_layout() {
    let sql = fts5_sql("library_fts", "library", "id", &["title", "artist"], "unicode61");
    assert_eq!(
        sql,
        "CREATE VIRTUAL TABLE library_fts USING fts5(\n                title,\n                artist,\n                content=library,\n                content_rowid=id,\n                tokenize='unicode61'\n            );\n            INSERT INTO library_fts(library_fts) VALUES('rebuild');"
    );
}

#[test]
fn generated_run_id_is_hyphenated_lowercase_v4() {
    let id: Vec<char> = resolve_run_id(None).chars().collect();
    assert_eq!(id.len(), 36);
    for (i, c) in id.iter().enumerate() {
        if [8, 13, 18, 23].contains(&i) {
            assert_eq!(*c, '-');
        } else {
            assert!(c.is_ascii_digit() || ('a'..='f').contains(c));
        }
    }
    assert_eq!(id[14], '4');
    assert!(['8', '9', 'a', 'b'].contains(&id[19]));
}

#[test]
fn test_parse_null() {
    let data = b"NULL,";
    let mut pos = 0;
    let val = parse_single_value(data, &mut pos);
    assert!(matches!(val, SqlValue::Null));
    assert_eq!(pos, 4);
}

#[test]
fn parse_single_value_at_end_is_null() {
    let data = b"NULL";
    let mut pos = 4;
    assert_eq!(parse_single_value(data, &mut pos), SqlValue::Null);
    assert_eq!(pos, 4);
}
