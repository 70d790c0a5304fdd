use clap::{Arg, ArgAction, ArgMatches, Command};
use wxyc_etl::cli::{
    resolve_database_url_from, CliError, DatabaseArgs, ImportArgs, ResumableBuildArgs,
};

fn build_command() -> Command {
    Command::new("tool")
        .arg(Arg::new("database-url").long("database-url"))
        .arg(Arg::new("resume").long("resume").action(ArgAction::SetTrue))
        .arg(Arg::new("state-file").long("state-file"))
        .arg(Arg::new("data-dir").long("data-dir"))
}

fn import_command() -> Command {
    Command::new("tool")
        .arg(Arg::new("database-url").long("database-url"))
        .arg(Arg::new("fresh").long("fresh").action(ArgAction::SetTrue))
        .arg(Arg::new("data-dir").long("data-dir"))
}

fn text(m: &ArgMatches, id: &str) -> Option<String> {
    m.get_one::<String>(id).cloned()
}

fn parse_build(argv: &[&str]) -> (DatabaseArgs, ResumableBuildArgs) {
    let m = build_command().try_get_matches_from(argv).unwrap();
    let db = DatabaseArgs { database_url: text(&m, "database-url") };
    let build = ResumableBuildArgs::from_flags(
        m.get_flag("resume"),
        text(&m, "state-file"),
        text(&m, "data-dir"),
    );
    (db, build)
}

fn parse_import(argv: &[&str]) -> (DatabaseArgs, ImportArgs) {
    let m = import_command().try_get_matches_from(argv).unwrap();
    let db = DatabaseArgs { database_url: text(&m, "database-url") };
    let import = ImportArgs::from_flags(m.get_flag("fresh"), text(&m, "data-dir"));
    (db, import)
}

#[test]
fn parses_database_url_flag() {
    let (db, _) = parse_build(&["tool", "--database-url", "postgres://localhost:5432/db"]);
    assert_eq!(db.database_url.as_deref(), Some("postgres://localhost:5432/db"));
}

#[test]
fn build_args_default_values() {
    let (_, build) = parse_build(&["tool"]);
    assert!(!build.resume);
    assert_eq!(build.state_file, "./state.json");
    assert_eq!(build.data_dir, "./data");
}

#[test]
fn build_args_resume_flag() {
    let (_, build) = parse_build(&["tool", "--resume"]);
    assert!(build.resume);
}

#[test]
fn import_args_fresh_flag() {
    let (_, import) = parse_import(&["tool", "--fresh"]);
    assert!(import.fresh);
    assert_eq!(import.data_dir, "./data");
}

#[test]
fn build_args_given_paths_win_over_defaults() {
    let (_, build) = parse_build(&["tool", "--state-file", "/var/s.json", "--data-dir", "/d"]);
    assert_eq!(build.state_file, "/var/s.json");
    assert_eq!(build.data_dir, "/d");
}

#[test]
fn resolve_uses_flag_when_present() {
    let args = DatabaseArgs { database_url: Some("postgres://flag-host/db".into()) };
    let url = resolve_database_url_from(
        &args,
        Some("postgres://env-host/db".to_string()),
        "DATABASE_URL_TEST_FLAG_WINS",
    )
    .unwrap();
    assert_eq!(url, "postgres://flag-host/db");
}

#[test]
fn resolve_falls_back_to_env() {
    let args = DatabaseArgs { database_url: None };
    let url = resolve_database_url_from(
        &args,
        Some("postgres://env-host/db".to_string()),
        "DATABASE_URL_TEST_FALLBACK",
    )
    .unwrap();
    assert_eq!(url, "postgres://env-host/db");
}

#[test]
fn resolve_errors_when_both_missing() {
    let args = DatabaseArgs { database_url: None };
    let err = resolve_database_url_from(&args, None, "DATABASE_URL_TEST_MISSING").unwrap_err();
    assert_eq!(
        err,
        CliError::MissingDatabaseUrl { env_name: "DATABASE_URL_TEST_MISSING".into() }
    );
    assert_eq!(
        err.message(),
        "no database URL: set --database-url or the DATABASE_URL_TEST_MISSING environment variable"
    );
}

#[test]
fn resolve_treats_empty_flag_as_missing() {
    let args = DatabaseArgs { database_url: Some(String::new()) };
    let url = resolve_database_url_from(
        &args,
        Some("postgres://env-host/db".to_string()),
        "DATABASE_URL_TEST_EMPTY_FLAG",
    )
    .unwrap();
    assert_eq!(url, "postgres://env-host/db");
}

#[test]
fn resolve_treats_empty_env_as_missing() {
    let args = DatabaseArgs { database_url: None };
    let err =
        resolve_database_url_from(&args, Some(String::new()), "DATABASE_URL_TEST_EMPTY_ENV")
            .unwrap_err();
    assert_eq!(
        err,
        CliError::MissingDatabaseUrl { env_name: "DATABASE_URL_TEST_EMPTY_ENV".into() }
    );
}
