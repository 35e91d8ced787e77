//! A JMAP-style synchronized record store.
//!
//! Clients fetch collections of typed records, receive incremental change
//! notifications keyed by a monotonic per-collection version ("state"), and
//! submit atomic create/update/destroy batches. The storage engine keeps the
//! logical content of the store in memory and mirrors every committed change
//! into an embedded SQLite database for durability.

pub mod calendar;
pub mod contact;
pub mod contactgroup;
pub mod db;
pub mod document;
pub mod jmap_handler;
pub mod laws;
pub mod logger;
pub mod mailbox;
pub mod method;
pub mod record;
pub mod store;
pub mod token;
pub mod util;
mod sql;

