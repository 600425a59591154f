//! The calls into SQLite (through `rusqlite`) that the index makes.
//!
//! What a query answers depends on the database file, which other connections may
//! change at any time, so none of these calls promises anything about the values it
//! returns; the index states what holds whatever they return.
use rusqlite::Error as SqliteError;
use vstd::prelude::*;

verus! {

/// `rusqlite::Error`, carried as the cause of database failures.
#[verifier::external_type_specification]
#[verifier::external_body]
pub struct ExSqliteError(SqliteError);

/// `rusqlite::Connection`, an open database.
#[verifier::external_type_specification]
#[verifier::external_body]
pub struct ExConnection(rusqlite::Connection);

/// `rusqlite::Connection::open`: opens the database file at `path`, creating it when
/// it does not exist.
#[verifier::external_body]
pub(crate) fn db_open(path: &str) -> (r: Result<rusqlite::Connection, SqliteError>) {
    rusqlite::Connection::open(path)
}

/// `rusqlite::Connection::pragma_update` on the main schema: sets `name` to `value`.
#[verifier::external_body]
pub(crate) fn db_pragma_update<V: rusqlite::ToSql>(conn: &rusqlite::Connection, name: &str, value: V) -> (r:
    Result<(), SqliteError>) {
    conn.pragma_update(None, name, value)
}

/// `rusqlite::Connection::execute_batch`: runs statements that take no parameters.
#[verifier::external_body]
pub(crate) fn db_execute_batch(conn: &rusqlite::Connection, sql: &str) -> (r: Result<(), SqliteError>) {
    conn.execute_batch(sql)
}

/// `rusqlite::Connection::execute`: runs one statement with `params` bound to it and
/// answers how many rows it changed.
#[verifier::external_body]
pub(crate) fn db_execute<P: rusqlite::Params>(conn: &rusqlite::Connection, sql: &str, params: P) -> (r:
    Result<usize, SqliteError>) {
    conn.execute(sql, params)
}

/// `rusqlite::Connection::query_row`, reading the first column of the first row.
#[verifier::external_body]
pub(crate) fn db_query_value<P: rusqlite::Params, T: rusqlite::types::FromSql>(
    conn: &rusqlite::Connection,
    sql: &str,
    params: P,
) -> (r: Result<T, SqliteError>) {
    conn.query_row(sql, params, |row| row.get(0))
}

/// `rusqlite::Statement::query_map` on the prepared `sql`, each row read as a tuple of
/// its columns, all rows collected in the order the query returns them.
#[verifier::external_body]
pub(crate) fn db_query_rows<P: rusqlite::Params, T>(conn: &rusqlite::Connection, sql: &str, params: P) -> (r:
    Result<Vec<T>, SqliteError>) where T: for<'a> TryFrom<&'a rusqlite::Row<'a>, Error = SqliteError> {
    let mut statement = conn.prepare(sql)?;
    let rows = statement.query_map(params, |row| T::try_from(row))?;
    rows.collect()
}

} // verus!
