use wxyc_etl::state::state::{PipelineState, RawState, RawStep, RawSteps, StateError, STEP_NAMES};

#[test]
fn basic_state_creation() {
    let steps = &["create_schema", "import_csv", "create_indexes"];
    let state = PipelineState::new("postgresql:///discogs", "/tmp/csv", steps);

    assert_eq!(state.step_status("create_schema"), "pending");
    assert!(!state.is_completed("create_schema"));
    assert!(!state.is_completed("import_csv"));
}

#[test]
fn mark_completed() {
    let steps = &["step1", "step2"];
    let mut state = PipelineState::new("db_url", "csv_dir", steps);
    state.mark_completed("step1");
    assert!(state.is_completed("step1"));
    assert!(!state.is_completed("step2"));
    assert_eq!(state.step_status("step1"), "completed");
}

#[test]
fn mark_failed() {
    let steps = &["step1"];
    let mut state = PipelineState::new("db_url", "csv_dir", steps);
    state.mark_failed("step1", "connection refused");
    assert_eq!(state.step_status("step1"), "failed");
    assert_eq!(state.step_error("step1"), Some("connection refused"));
}

#[test]
fn step_error_returns_none_for_non_failed() {
    let steps = &["step1"];
    let state = PipelineState::new("db_url", "csv_dir", steps);
    assert_eq!(state.step_error("step1"), None);
}

#[test]
fn validate_resume_ok() {
    let steps = &["step1"];
    let state = PipelineState::new("postgresql:///discogs", "/tmp/csv", steps);
    assert!(state
        .validate_resume("postgresql:///discogs", "/tmp/csv")
        .is_ok());
}

#[test]
fn validate_resume_db_mismatch() {
    let steps = &["step1"];
    let state = PipelineState::new("postgresql:///discogs", "/tmp/csv", steps);
    assert!(state
        .validate_resume("postgresql:///other", "/tmp/csv")
        .is_err());
}

#[test]
fn validate_resume_csv_dir_mismatch() {
    let steps = &["step1"];
    let state = PipelineState::new("postgresql:///discogs", "/tmp/csv", steps);
    assert!(state
        .validate_resume("postgresql:///discogs", "/other/csv")
        .is_err());
}

fn step(name: &str, status: Option<&str>, error: Option<&str>) -> RawStep {
    RawStep {
        name: name.to_string(),
        status: status.map(|s| s.to_string()),
        error: error.map(|s| s.to_string()),
    }
}

fn raw(version: u64, steps: Vec<RawStep>) -> RawState {
    RawState {
        version: Some(version),
        database_url: Some("postgresql:///discogs".to_string()),
        csv_dir: Some("/tmp/csv".to_string()),
        steps: RawSteps::Object(steps),
    }
}

#[test]
fn migrate_v1() {
    let state = PipelineState::from_raw(&raw(
        1,
        vec![
            step("create_schema", Some("completed"), None),
            step("import_csv", Some("completed"), None),
            step("create_indexes", Some("pending"), None),
            step("dedup", Some("pending"), None),
            step("prune", Some("pending"), None),
            step("vacuum", Some("pending"), None),
        ],
    ))
    .unwrap();
    assert!(state.is_completed("import_tracks"));
    assert!(state.is_completed("create_schema"));
    assert!(state.is_completed("import_csv"));
    assert!(!state.is_completed("create_track_indexes"));
    assert!(!state.is_completed("set_logged"));
}

#[test]
fn migrate_v1_dedup_completed_infers_track_indexes() {
    let state = PipelineState::from_raw(&raw(
        1,
        vec![
            step("create_schema", Some("completed"), None),
            step("import_csv", Some("completed"), None),
            step("create_indexes", Some("completed"), None),
            step("dedup", Some("completed"), None),
            step("prune", Some("completed"), None),
            step("vacuum", Some("completed"), None),
        ],
    ))
    .unwrap();
    assert!(state.is_completed("create_track_indexes"));
    assert!(state.is_completed("import_tracks"));
    assert!(state.is_completed("set_logged"));
}

#[test]
fn migrate_v2() {
    let state = PipelineState::from_raw(&raw(
        2,
        vec![
            step("create_schema", Some("completed"), None),
            step("import_csv", Some("completed"), None),
            step("create_indexes", Some("completed"), None),
            step("dedup", Some("completed"), None),
            step("import_tracks", Some("completed"), None),
            step("create_track_indexes", Some("completed"), None),
            step("prune", Some("completed"), None),
            step("vacuum", Some("completed"), None),
        ],
    ))
    .unwrap();
    assert!(state.is_completed("set_logged"));
}

#[test]
fn migrate_v2_vacuum_pending() {
    let state = PipelineState::from_raw(&raw(
        2,
        vec![
            step("create_schema", Some("completed"), None),
            step("import_csv", Some("pending"), None),
            step("create_indexes", Some("pending"), None),
            step("dedup", Some("pending"), None),
            step("import_tracks", Some("pending"), None),
            step("create_track_indexes", Some("pending"), None),
            step("prune", Some("pending"), None),
            step("vacuum", Some("pending"), None),
        ],
    ))
    .unwrap();
    assert!(!state.is_completed("set_logged"));
}

#[test]
fn unsupported_version() {
    let r = RawState {
        version: Some(99),
        database_url: None,
        csv_dir: None,
        steps: RawSteps::Missing,
    };
    assert_eq!(PipelineState::from_raw(&r).unwrap_err(), StateError::UnsupportedVersion(99));
}

#[test]
fn missing_version_and_fields_are_errors() {
    let r = RawState { version: None, database_url: None, csv_dir: None, steps: RawSteps::Missing };
    assert_eq!(PipelineState::from_raw(&r).unwrap_err(), StateError::MissingVersion);
    let r = RawState { version: Some(3), database_url: None, csv_dir: None, steps: RawSteps::Missing };
    assert_eq!(PipelineState::from_raw(&r).unwrap_err(), StateError::MissingDatabaseUrl);
    let r = RawState {
        version: Some(3),
        database_url: Some("db".to_string()),
        csv_dir: None,
        steps: RawSteps::Missing,
    };
    assert_eq!(PipelineState::from_raw(&r).unwrap_err(), StateError::MissingCsvDir);
    let r = RawState {
        version: Some(3),
        database_url: Some("db".to_string()),
        csv_dir: Some("csv".to_string()),
        steps: RawSteps::Missing,
    };
    assert_eq!(PipelineState::from_raw(&r).unwrap_err(), StateError::MissingSteps);
    let r = RawState {
        version: Some(3),
        database_url: Some("db".to_string()),
        csv_dir: Some("csv".to_string()),
        steps: RawSteps::NotObject,
    };
    assert_eq!(PipelineState::from_raw(&r).unwrap_err(), StateError::StepsNotObject);
}

#[test]
fn version_is_read_as_u32() {
    // 2^32 + 1 is taken as version 1, as `as u32` reads it.
    let state = PipelineState::from_raw(&raw((1u64 << 32) + 1, vec![])).unwrap();
    assert_eq!(state.step_status("set_logged"), "pending");
}

#[test]
fn v3_keeps_its_own_steps_and_failures() {
    let state = PipelineState::from_raw(&raw(
        3,
        vec![
            step("create_schema", Some("completed"), None),
            step("import_csv", Some("failed"), Some("disk full")),
            step("custom", Some("weird"), None),
        ],
    ))
    .unwrap();
    assert!(state.is_completed("create_schema"));
    assert_eq!(state.step_status("import_csv"), "failed");
    assert_eq!(state.step_error("import_csv"), Some("disk full"));
    assert_eq!(state.step_status("custom"), "pending");
    assert_eq!(state.step_status("set_logged"), "unknown");
    assert_eq!(state.version(), 3);
    assert_eq!(state.database_url(), "postgresql:///discogs");
    assert_eq!(state.csv_dir(), "/tmp/csv");
}

#[test]
fn step_names_has_nine_steps_in_order() {
    assert_eq!(STEP_NAMES.len(), 9);
    assert_eq!(STEP_NAMES[0], "create_schema");
    assert_eq!(STEP_NAMES[8], "set_logged");
}

#[test]
fn state_roundtrips_through_raw() {
    let mut state = PipelineState::new("postgresql:///discogs", "/tmp/csv", STEP_NAMES);
    state.mark_completed("create_schema");
    state.mark_failed("import_csv", "disk full");
    let loaded = PipelineState::from_raw(&state.to_raw()).unwrap();
    for name in STEP_NAMES {
        assert_eq!(loaded.step_status(name), state.step_status(name));
        assert_eq!(loaded.step_error(name), state.step_error(name));
    }
    assert!(loaded.validate_resume("postgresql:///discogs", "/tmp/csv").is_ok());
}
