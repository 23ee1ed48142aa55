//! Trusted boundary to the embedded relational engine (rusqlite).
//!
//! Each wrapper makes exactly one call into rusqlite. The engine's behaviour
//! (which statements succeed, what a query returns) is decided by SQLite, so
//! the wrappers promise nothing about it; the verified callers state what
//! holds whatever comes back.
use vstd::prelude::*;

verus! {

#[verifier::external_type_specification]
#[verifier::external_body]
pub struct ExConnection(rusqlite::Connection);

#[verifier::external_type_specification]
#[verifier::external_body]
pub struct ExSqlError(rusqlite::Error);

#[verifier::external_type_specification]
#[verifier::external_body]
pub struct ExStatement<'conn>(rusqlite::Statement<'conn>);

#[verifier::external_type_specification]
#[verifier::external_body]
pub struct ExRows<'stmt>(rusqlite::Rows<'stmt>);

#[verifier::external_type_specification]
#[verifier::external_body]
pub struct ExRow<'stmt>(rusqlite::Row<'stmt>);

/// Relies on rusqlite::Connection::execute: runs one SQL statement with no
/// parameters; `Err` when SQLite rejects or fails it.
#[verifier::external_body]
pub(crate) fn exec_sql(conn: &rusqlite::Connection, sql: &str) -> Result<(), rusqlite::Error> {
    conn.execute(sql, []).map(|_| ())
}

/// Relies on rusqlite::Statement::execute with rusqlite::params_from_iter:
/// runs the prepared statement once, binding each string as one text
/// parameter in order (prepare once, execute per row).
#[verifier::external_body]
pub(crate) fn stmt_execute(
    stmt: &mut rusqlite::Statement<'_>,
    params: &Vec<String>,
) -> Result<(), rusqlite::Error> {
    stmt.execute(rusqlite::params_from_iter(params.iter())).map(|_| ())
}

/// Relies on rusqlite::Connection::prepare: compiles one SQL statement;
/// `Err` when SQLite cannot parse or resolve it.
#[verifier::external_body]
pub(crate) fn prepare<'conn>(
    conn: &'conn rusqlite::Connection,
    sql: &str,
) -> Result<rusqlite::Statement<'conn>, rusqlite::Error> {
    conn.prepare(sql)
}

/// Relies on rusqlite::Statement::column_names: the result column names of the
/// prepared statement, in the engine's reported order.
#[verifier::external_body]
pub(crate) fn column_names(stmt: &rusqlite::Statement<'_>) -> Vec<String> {
    stmt.column_names().iter().map(|s| s.to_string()).collect()
}

/// Relies on rusqlite::Statement::query: begins result iteration with no
/// parameters bound.
#[verifier::external_body]
pub(crate) fn start_query<'stmt>(
    stmt: &'stmt mut rusqlite::Statement<'_>,
) -> Result<rusqlite::Rows<'stmt>, rusqlite::Error> {
    stmt.query([])
}

/// Relies on rusqlite::Rows::next: `Ok(Some(row))` while rows remain,
/// `Ok(None)` at the end, `Err` on a runtime failure mid-iteration.
#[verifier::external_body]
pub(crate) fn next_row<'a, 'stmt>(
    rows: &'a mut rusqlite::Rows<'stmt>,
) -> Result<Option<&'a rusqlite::Row<'stmt>>, rusqlite::Error> {
    rows.next()
}

/// Relies on rusqlite::Row::get_ref: reads the column at `idx` as a dynamic
/// value and renders it as text (the engine's type decides the rendering);
/// `Err` when `idx` is not a valid column index.
#[verifier::external_body]
pub(crate) fn column_text(row: &rusqlite::Row<'_>, idx: usize) -> Result<String, rusqlite::Error> {
    row.get_ref(idx).map(|v| match v {
        rusqlite::types::ValueRef::Null => String::new(),
        rusqlite::types::ValueRef::Integer(i) => i.to_string(),
        rusqlite::types::ValueRef::Real(r) => r.to_string(),
        rusqlite::types::ValueRef::Text(t) => String::from_utf8_lossy(t).into_owned(),
        rusqlite::types::ValueRef::Blob(b) => String::from_utf8_lossy(b).into_owned(),
    })
}

/// Relies on rusqlite::Error's Display impl: the engine's own diagnostic text.
#[verifier::external_body]
pub(crate) fn error_text(e: &rusqlite::Error) -> String {
    format!("{}", e)
}

} // verus!
