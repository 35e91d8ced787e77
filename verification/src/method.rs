//! The protocol method types: arguments and responses of the three
//! operations every record type supports (Get, GetUpdates, Set), the
//! response-level error, and the batch envelopes the dispatcher works on.

use vstd::prelude::*;
use crate::db::{DbError, SetError};
use crate::document::{Document, DocV};

verus! {

/// A property-subset projection of a record: the optional id and the
/// projected properties. Used both for client-supplied deltas and for
/// filtered output.
pub struct PartialRecord {
    pub id: Option<String>,
    pub props: Document,
}

/// A response-level method error, tagged back to the client with the
/// invocation's correlation id.
#[derive(Clone, Debug, PartialEq)]
pub enum MethodError {
    /// Changes since the requested state cannot be calculated; the client
    /// must fall back to a full fetch.
    CannotCalculateChanges,
    /// A Set precondition state did not match; nothing was mutated.
    StateMismatch,
    /// More changes matched than the request allowed.
    TooManyChanges,
    /// An internal failure, with an opaque description.
    InternalError(String),
}

/// How a storage error surfaces to the client.
pub open spec fn method_error_of(e: DbError) -> MethodError {
    match e {
        DbError::StateTooOld => MethodError::CannotCalculateChanges,
        DbError::StateMismatch => MethodError::StateMismatch,
        DbError::TooManyChanges => MethodError::TooManyChanges,
        DbError::InternalError(s) => MethodError::InternalError(s),
    }
}

impl From<DbError> for MethodError {
    fn from(e: DbError) -> (r: MethodError) {
        match e {
            DbError::StateTooOld => MethodError::CannotCalculateChanges,
            DbError::StateMismatch => MethodError::StateMismatch,
            DbError::TooManyChanges => MethodError::TooManyChanges,
            DbError::InternalError(s) => MethodError::InternalError(s),
        }
    }
}

impl vstd::std_specs::convert::FromSpecImpl<DbError> for MethodError {
    open spec fn obeys_from_spec() -> bool {
        true
    }

    open spec fn from_spec(e: DbError) -> MethodError {
        method_error_of(e)
    }
}

/// Arguments of a Get invocation.
pub struct GetRequestArgs {
    pub ids: Option<Vec<String>>,
    pub properties: Option<Vec<String>>,
    pub since_state: Option<String>,
}

/// Response of a Get invocation.
pub struct GetResponseArgs {
    pub state: String,
    pub list: Vec<PartialRecord>,
    pub not_found: Option<Vec<String>>,
}

/// Arguments of a GetUpdates invocation.
pub struct GetUpdatesRequestArgs {
    pub since_state: String,
    pub max_changes: Option<i64>,
    pub fetch_records: Option<bool>,
    pub fetch_record_properties: Option<Vec<String>>,
}

/// Response of a GetUpdates invocation.
pub struct GetUpdatesResponseArgs {
    pub old_state: String,
    pub new_state: String,
    pub changed: Vec<String>,
    pub removed: Vec<String>,
}

/// Arguments of a Set invocation.
pub struct SetRequestArgs {
    pub if_in_state: Option<String>,
    pub create: Option<Vec<(String, Document)>>,
    pub update: Option<Vec<(String, Document)>>,
    pub destroy: Option<Vec<String>>,
}

/// Response of a Set invocation.
pub struct SetResponseArgs {
    pub old_state: String,
    pub new_state: String,
    pub created: Vec<(String, PartialRecord)>,
    pub updated: Vec<String>,
    pub destroyed: Vec<String>,
    pub not_created: Vec<(String, SetError)>,
    pub not_updated: Vec<(String, SetError)>,
    pub not_destroyed: Vec<(String, SetError)>,
}

/// One tagged method invocation: the operation, its arguments and the
/// client-supplied correlation id. A malformed invocation arrives as
/// `RequestError` and is echoed back without reaching any handler.
pub enum RequestMethod {
    GetContacts(GetRequestArgs, String),
    SetContacts(SetRequestArgs, String),
    GetContactUpdates(GetUpdatesRequestArgs, String),
    GetContactGroups(GetRequestArgs, String),
    SetContactGroups(SetRequestArgs, String),
    GetContactGroupUpdates(GetUpdatesRequestArgs, String),
    GetCalendars(GetRequestArgs, String),
    SetCalendars(SetRequestArgs, String),
    GetCalendarUpdates(GetUpdatesRequestArgs, String),
    GetCalendarEvents(GetRequestArgs, String),
    SetCalendarEvents(SetRequestArgs, String),
    GetCalendarEventUpdates(GetUpdatesRequestArgs, String),
    GetMailboxes(GetRequestArgs, String),
    SetMailboxes(SetRequestArgs, String),
    GetMailboxUpdates(GetUpdatesRequestArgs, String),
    GetMessages(GetRequestArgs, String),
    SetMessages(SetRequestArgs, String),
    GetMessageUpdates(GetUpdatesRequestArgs, String),
    RequestError(MethodError, String),
}

/// One tagged method response.
pub enum ResponseMethod {
    Contacts(GetResponseArgs, String),
    ContactsSet(SetResponseArgs, String),
    ContactUpdates(GetUpdatesResponseArgs, String),
    ContactGroups(GetResponseArgs, String),
    ContactGroupsSet(SetResponseArgs, String),
    ContactGroupUpdates(GetUpdatesResponseArgs, String),
    Calendars(GetResponseArgs, String),
    CalendarsSet(SetResponseArgs, String),
    CalendarUpdates(GetUpdatesResponseArgs, String),
    CalendarEvents(GetResponseArgs, String),
    CalendarEventsSet(SetResponseArgs, String),
    CalendarEventUpdates(GetUpdatesResponseArgs, String),
    Mailboxes(GetResponseArgs, String),
    MailboxesSet(SetResponseArgs, String),
    MailboxUpdates(GetUpdatesResponseArgs, String),
    Messages(GetResponseArgs, String),
    MessagesSet(SetResponseArgs, String),
    MessageUpdates(GetUpdatesResponseArgs, String),
    ResponseError(MethodError, String),
}

/// A batch of invocations, in client order.
pub struct RequestBatch(pub Vec<RequestMethod>);

/// A batch of responses, preserving the relative order of the invocations
/// they answer.
pub struct ResponseBatch(pub Vec<ResponseMethod>);

} // verus!
