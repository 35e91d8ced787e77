//! The per-request context: the authenticated user and the storage engine
//! handle every handler call works against.

use vstd::prelude::*;
use crate::db::Db;

verus! {

/// The per-request bundle of the authenticated user identifier and the
/// storage engine connection.
pub struct RequestContext {
    pub userid: i64,
    pub db: Db,
}

} // verus!
