//! Trusted boundary to the embedded SQLite engine and to the id generator.
//!
//! The in-memory store is authoritative for every read; these calls keep the
//! database file in step with it for durability, and load it back on open.
//! Nothing about the stored data is assumed of them: every result that the
//! library's logic depends on is validated by verified code.

use vstd::prelude::*;

verus! {

#[verifier::external_type_specification]
#[verifier::external_body]
pub struct ExConnection(rusqlite::Connection);

/// Relies on rusqlite::Connection::open: opens the database at `path`,
/// creating it if absent.
#[verifier::external_body]
pub(crate) fn sql_open(path: &str) -> (r: Result<rusqlite::Connection, String>) {
    rusqlite::Connection::open(path).map_err(|e| e.to_string())
}

/// Relies on rusqlite::Connection::execute_batch: runs the given SQL
/// statements, without parameters or results.
#[verifier::external_body]
pub(crate) fn sql_batch(conn: &rusqlite::Connection, sql: &str) -> (r: Result<(), String>) {
    conn.execute_batch(sql).map_err(|e| e.to_string())
}

/// Relies on rusqlite::Connection::execute: runs one statement with a
/// `(userid, type)` parameter pair, returning the number of rows changed.
#[verifier::external_body]
pub(crate) fn sql_exec_ut(
    conn: &rusqlite::Connection,
    sql: &str,
    userid: i64,
    rectype: i32,
) -> (r: Result<usize, String>) {
    conn.execute(sql, (userid, rectype)).map_err(|e| e.to_string())
}

/// Relies on rusqlite::Connection::execute: runs one statement with the
/// parameters of a record insert.
#[verifier::external_body]
pub(crate) fn sql_exec_insert(
    conn: &rusqlite::Connection,
    sql: &str,
    id: &str,
    userid: i64,
    rectype: i32,
    modseq: i64,
    json: &str,
) -> (r: Result<usize, String>) {
    conn.execute(sql, (id, userid, rectype, modseq, json)).map_err(|e| e.to_string())
}

/// Relies on rusqlite::Connection::execute: runs one statement with the
/// parameters of a record rewrite (new modseq and document, keyed by
/// `(userid, type, id)`).
#[verifier::external_body]
pub(crate) fn sql_exec_rewrite(
    conn: &rusqlite::Connection,
    sql: &str,
    modseq: i64,
    json: &str,
    userid: i64,
    rectype: i32,
    id: &str,
) -> (r: Result<usize, String>) {
    conn.execute(sql, (modseq, json, userid, rectype, id)).map_err(|e| e.to_string())
}

/// Relies on rusqlite::Connection::execute: runs one statement with the
/// parameters of a tombstone stamp (new modseq, keyed by
/// `(userid, type, id)`).
#[verifier::external_body]
pub(crate) fn sql_exec_stamp(
    conn: &rusqlite::Connection,
    sql: &str,
    modseq: i64,
    userid: i64,
    rectype: i32,
    id: &str,
) -> (r: Result<usize, String>) {
    conn.execute(sql, (modseq, userid, rectype, id)).map_err(|e| e.to_string())
}

/// Relies on rusqlite::Connection::query_row: runs one query returning a
/// single integer, or nothing.
#[verifier::external_body]
pub(crate) fn sql_query_i64(conn: &rusqlite::Connection, sql: &str) -> (r: Result<
    Option<i64>,
    String,
>) {
    match conn.query_row(sql, (), |row| row.get::<_, i64>(0)) {
        Ok(v) => Ok(Some(v)),
        Err(rusqlite::Error::QueryReturnedNoRows) => Ok(None),
        Err(e) => Err(e.to_string()),
    }
}

/// Relies on rusqlite::Statement::query_map: reads every record row as the
/// plain tuple `(id, userid, type, modseq, deleted, json)`.
#[verifier::external_body]
pub(crate) fn sql_load_records(conn: &rusqlite::Connection, sql: &str) -> (r: Result<
    Vec<(String, i64, i32, i64, i64, String)>,
    String,
>) {
    let mut stmt = conn.prepare(sql).map_err(|e| e.to_string())?;
    let rows = stmt
        .query_map((), |row| {
            Ok((row.get(0)?, row.get(1)?, row.get(2)?, row.get(3)?, row.get(4)?, row.get(5)?))
        })
        .map_err(|e| e.to_string())?;
    rows.collect::<Result<Vec<_>, _>>().map_err(|e| e.to_string())
}

/// Relies on rusqlite::Statement::query_map: reads every modseq bookkeeping
/// row as the plain tuple `(userid, type, modseq, low_modseq)`.
#[verifier::external_body]
pub(crate) fn sql_load_states(conn: &rusqlite::Connection, sql: &str) -> (r: Result<
    Vec<(i64, i32, i64, i64)>,
    String,
>) {
    let mut stmt = conn.prepare(sql).map_err(|e| e.to_string())?;
    let rows = stmt
        .query_map((), |row| Ok((row.get(0)?, row.get(1)?, row.get(2)?, row.get(3)?)))
        .map_err(|e| e.to_string())?;
    rows.collect::<Result<Vec<_>, _>>().map_err(|e| e.to_string())
}

/// Relies on uuid::Uuid::new_v4: a freshly generated random identifier,
/// rendered in the 36-character hyphenated form. Nothing is assumed about
/// which identifier comes back.
#[verifier::external_body]
pub(crate) fn fresh_id() -> (r: String)
    ensures
        r@.len() == 36,
{
    uuid::Uuid::new_v4().to_string()
}

} // verus!
