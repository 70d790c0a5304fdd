//! Administrative statements for bulk imports (`SET UNLOGGED`, `SET LOGGED`,
//! `VACUUM FULL`), built only for table names made of ASCII letters, digits
//! and underscores, so no statement can carry injected SQL.

use vstd::prelude::*;
use vstd::string::StringExecFns;

verus! {

/// Why a table name was refused.
#[derive(Debug, PartialEq, Eq)]
pub enum TableNameError {
    /// The name is empty.
    Empty,
    /// The name holds a character other than an ASCII letter, digit or `_`.
    UnsafeCharacters(String),
}

/// The administrative operations.
#[derive(Debug, Clone, Copy, PartialEq, Eq)]
pub enum AdminOp {
    /// `ALTER TABLE t SET UNLOGGED`: no WAL, fast bulk loading, not crash-safe.
    SetUnlogged,
    /// `ALTER TABLE t SET LOGGED`: WAL durability restored.
    SetLogged,
    /// `VACUUM FULL t`: reclaim space after bulk deletes and updates.
    VacuumFull,
}

/// ASCII letter, ASCII digit, or underscore.
pub open spec fn is_table_name_char(c: char) -> bool {
    ('a' <= c <= 'z') || ('A' <= c <= 'Z') || ('0' <= c <= '9') || c == '_'
}

/// A name is safe when it is non-empty and made of safe characters only.
pub open spec fn is_safe_table_name(name: Seq<char>) -> bool {
    name.len() > 0 && forall|i: int| 0 <= i < name.len() ==> is_table_name_char(#[trigger] name[i])
}

/// The SQL text of `op` applied to table `t`.
pub open spec fn admin_sql_spec(op: AdminOp, t: Seq<char>) -> Seq<char> {
    match op {
        AdminOp::SetUnlogged => "ALTER TABLE "@ + t + " SET UNLOGGED"@,
        AdminOp::SetLogged => "ALTER TABLE "@ + t + " SET LOGGED"@,
        AdminOp::VacuumFull => "VACUUM FULL "@ + t,
    }
}

/// Validate that a table name contains only safe characters (ASCII
/// alphanumerics and underscore) and is not empty.
pub fn validate_table_name(name: &str) -> (r: Result<(), TableNameError>)
    ensures
        r is Ok <==> is_safe_table_name(name@),
        r == Err::<(), TableNameError>(TableNameError::Empty) <==> name@.len() == 0,
        r matches Err(TableNameError::UnsafeCharacters(n)) ==> n@ == name@,
{
    let v = crate::text::chars::chars_of(name);
    let mut safe = true;
    let mut i: usize = 0;
    while i < v.len()
        invariant
            i <= v@.len(),
            v@ == name@,
            safe == forall|j: int| 0 <= j < i ==> is_table_name_char(#[trigger] name@[j]),
        decreases v.len() - i,
    {
        let c = v[i];
        if !(('a' <= c && c <= 'z') || ('A' <= c && c <= 'Z') || ('0' <= c && c <= '9') || c == '_') {
            safe = false;
        }
        i += 1;
    }
    if v.len() == 0 {
        return Err(TableNameError::Empty);
    }
    if !safe {
        return Err(TableNameError::UnsafeCharacters(String::from_str(name)));
    }
    Ok(())
}

/// The statement that applies `op` to `table`, or why the name was refused.
pub fn admin_sql(op: AdminOp, table: &str) -> (r: Result<String, TableNameError>)
    ensures
        r is Ok <==> is_safe_table_name(table@),
        r matches Ok(s) ==> s@ == admin_sql_spec(op, table@),
        r matches Err(e) ==> validate_table_name_error(table@, e),
{
    match validate_table_name(table) {
        Err(e) => Err(e),
        Ok(()) => {
            let sql = match op {
                AdminOp::SetUnlogged => {
                    let mut s = String::from_str("ALTER TABLE ");
                    s.append(table);
                    s.append(" SET UNLOGGED");
                    s
                },
                AdminOp::SetLogged => {
                    let mut s = String::from_str("ALTER TABLE ");
                    s.append(table);
                    s.append(" SET LOGGED");
                    s
                },
                AdminOp::VacuumFull => {
                    let mut s = String::from_str("VACUUM FULL ");
                    s.append(table);
                    s
                },
            };
            Ok(sql)
        },
    }
}

/// The error [`validate_table_name`] gives for a refused name.
pub open spec fn validate_table_name_error(name: Seq<char>, e: TableNameError) -> bool {
    if name.len() == 0 {
        e == TableNameError::Empty
    } else {
        e matches TableNameError::UnsafeCharacters(n) && n@ == name
    }
}

} // verus!
