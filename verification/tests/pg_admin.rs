use wxyc_etl::pg::admin::{admin_sql, validate_table_name, AdminOp, TableNameError};

#[test]
fn test_validate_table_name_valid() {
    assert!(validate_table_name("release").is_ok());
    assert!(validate_table_name("release_artist").is_ok());
    assert!(validate_table_name("table123").is_ok());
}

#[test]
fn test_validate_table_name_empty() {
    assert!(validate_table_name("").is_err());
}

#[test]
fn test_validate_table_name_injection() {
    assert!(validate_table_name("release; DROP TABLE release").is_err());
    assert!(validate_table_name("release--comment").is_err());
    assert!(validate_table_name("public.release").is_err());
}

#[test]
fn validate_table_name_reports_which_error() {
    assert_eq!(validate_table_name(""), Err(TableNameError::Empty));
    assert_eq!(
        validate_table_name("public.release"),
        Err(TableNameError::UnsafeCharacters("public.release".to_string()))
    );
    assert_eq!(
        validate_table_name("Release_2"),
        Ok(())
    );
}

#[test]
fn admin_sql_builds_each_statement() {
    assert_eq!(
        admin_sql(AdminOp::SetUnlogged, "release").unwrap(),
        "ALTER TABLE release SET UNLOGGED"
    );
    assert_eq!(
        admin_sql(AdminOp::SetLogged, "release_artist").unwrap(),
        "ALTER TABLE release_artist SET LOGGED"
    );
    assert_eq!(admin_sql(AdminOp::VacuumFull, "artist").unwrap(), "VACUUM FULL artist");
}

#[test]
fn admin_sql_refuses_unsafe_names() {
    assert_eq!(admin_sql(AdminOp::VacuumFull, ""), Err(TableNameError::Empty));
    assert_eq!(
        admin_sql(AdminOp::SetLogged, "x; DROP TABLE y"),
        Err(TableNameError::UnsafeCharacters("x; DROP TABLE y".to_string()))
    );
}
