//! Tests of the batch dispatcher: ordering, correlation ids, expansion and
//! error echo.

use salada::db::Db;
use salada::document::Document;
use salada::jmap_handler::handler;
use salada::method::{
    GetRequestArgs, GetUpdatesRequestArgs, MethodError, RequestBatch, RequestMethod,
    ResponseMethod, SetRequestArgs,
};
use salada::util::RequestContext;

fn fresh_ctx() -> RequestContext {
    RequestContext { userid: 1, db: Db::open_path(":memory:").expect("open in-memory store") }
}

fn empty_get() -> GetRequestArgs {
    GetRequestArgs { ids: None, properties: None, since_state: None }
}

#[test]
fn batch_preserves_order_and_correlation_ids() {
    let mut ctx = fresh_ctx();
    let mut d = Document::new();
    d.set("name".to_string(), "Ada".to_string());
    let set_args = SetRequestArgs {
        if_in_state: None,
        create: Some(vec![("c1".to_string(), d)]),
        update: None,
        destroy: None,
    };
    let batch = RequestBatch(vec![
        RequestMethod::SetContacts(set_args, "tag-set".to_string()),
        RequestMethod::GetContacts(empty_get(), "tag-get".to_string()),
        RequestMethod::GetMailboxes(empty_get(), "tag-mbox".to_string()),
    ]);
    let out = handler(&mut ctx, &batch);
    assert_eq!(out.0.len(), 3);
    match &out.0[0] {
        ResponseMethod::ContactsSet(resp, id) => {
            assert_eq!(id, "tag-set");
            assert_eq!(resp.new_state, "1");
        },
        other => panic!("unexpected first response kind: {:?}", kind_of(other)),
    }
    match &out.0[1] {
        ResponseMethod::Contacts(resp, id) => {
            assert_eq!(id, "tag-get");
            assert_eq!(resp.list.len(), 1);
        },
        other => panic!("unexpected second response kind: {:?}", kind_of(other)),
    }
    match &out.0[2] {
        ResponseMethod::Mailboxes(resp, id) => {
            assert_eq!(id, "tag-mbox");
            assert!(resp.list.is_empty());
        },
        other => panic!("unexpected third response kind: {:?}", kind_of(other)),
    }
}

#[test]
fn malformed_invocation_is_echoed() {
    let mut ctx = fresh_ctx();
    let batch = RequestBatch(vec![RequestMethod::RequestError(
        MethodError::InternalError("unparsable method".to_string()),
        "tag-err".to_string(),
    )]);
    let out = handler(&mut ctx, &batch);
    assert_eq!(out.0.len(), 1);
    match &out.0[0] {
        ResponseMethod::ResponseError(e, id) => {
            assert_eq!(id, "tag-err");
            assert_eq!(
                *e,
                MethodError::InternalError("unparsable method".to_string())
            );
        },
        other => panic!("unexpected response kind: {:?}", kind_of(other)),
    }
}

#[test]
fn updates_with_fetch_expand_to_two_responses() {
    let mut ctx = fresh_ctx();
    let mut d = Document::new();
    d.set("name".to_string(), "Ada".to_string());
    let set_args = SetRequestArgs {
        if_in_state: None,
        create: Some(vec![("c1".to_string(), d)]),
        update: None,
        destroy: None,
    };
    let upd_args = GetUpdatesRequestArgs {
        since_state: "1".to_string(),
        max_changes: None,
        fetch_records: Some(true),
        fetch_record_properties: None,
    };
    let batch = RequestBatch(vec![
        RequestMethod::SetContacts(set_args, "s".to_string()),
        RequestMethod::GetContactUpdates(upd_args, "u".to_string()),
    ]);
    let out = handler(&mut ctx, &batch);
    assert_eq!(out.0.len(), 3);
    assert!(matches!(&out.0[0], ResponseMethod::ContactsSet(_, id) if id == "s"));
    assert!(matches!(&out.0[1], ResponseMethod::ContactUpdates(_, id) if id == "u"));
    assert!(matches!(&out.0[2], ResponseMethod::Contacts(_, id) if id == "u"));
}

#[test]
fn failing_invocation_does_not_abort_its_siblings() {
    let mut ctx = fresh_ctx();
    let stale = GetUpdatesRequestArgs {
        since_state: "0".to_string(),
        max_changes: None,
        fetch_records: None,
        fetch_record_properties: None,
    };
    let mut d = Document::new();
    d.set("name".to_string(), "Ada".to_string());
    let set_args = SetRequestArgs {
        if_in_state: None,
        create: Some(vec![("c1".to_string(), d)]),
        update: None,
        destroy: None,
    };
    let batch = RequestBatch(vec![
        RequestMethod::SetContacts(set_args, "a".to_string()),
        RequestMethod::GetContactUpdates(stale, "b".to_string()),
        RequestMethod::GetContacts(empty_get(), "c".to_string()),
    ]);
    let out = handler(&mut ctx, &batch);
    assert_eq!(out.0.len(), 3);
    assert!(matches!(&out.0[0], ResponseMethod::ContactsSet(_, id) if id == "a"));
    assert!(
        matches!(&out.0[1], ResponseMethod::ResponseError(MethodError::CannotCalculateChanges, id) if id == "b")
    );
    assert!(matches!(&out.0[2], ResponseMethod::Contacts(resp, id) if id == "c" && resp.list.len() == 1));
}

#[test]
fn every_record_type_dispatches() {
    let mut ctx = fresh_ctx();
    let create = |cid: &str| {
        let mut d = Document::new();
        d.set("title".to_string(), cid.to_string());
        SetRequestArgs {
            if_in_state: None,
            create: Some(vec![(cid.to_string(), d)]),
            update: None,
            destroy: None,
        }
    };
    let batch = RequestBatch(vec![
        RequestMethod::SetContactGroups(create("g"), "1".to_string()),
        RequestMethod::SetCalendars(create("c"), "2".to_string()),
        RequestMethod::SetCalendarEvents(create("e"), "3".to_string()),
        RequestMethod::SetMessages(create("m"), "4".to_string()),
        RequestMethod::GetContactGroups(empty_get(), "5".to_string()),
        RequestMethod::GetCalendars(empty_get(), "6".to_string()),
        RequestMethod::GetCalendarEvents(empty_get(), "7".to_string()),
        RequestMethod::GetMessages(empty_get(), "8".to_string()),
    ]);
    let out = handler(&mut ctx, &batch);
    assert_eq!(out.0.len(), 8);
    assert!(matches!(&out.0[0], ResponseMethod::ContactGroupsSet(r, id) if id == "1" && r.new_state == "1"));
    assert!(matches!(&out.0[1], ResponseMethod::CalendarsSet(_, id) if id == "2"));
    assert!(matches!(&out.0[2], ResponseMethod::CalendarEventsSet(_, id) if id == "3"));
    assert!(matches!(&out.0[3], ResponseMethod::MessagesSet(_, id) if id == "4"));
    // each collection sees exactly its own record
    for (i, id) in [(4usize, "5"), (5, "6"), (6, "7"), (7, "8")] {
        match &out.0[i] {
            ResponseMethod::ContactGroups(r, rid)
            | ResponseMethod::Calendars(r, rid)
            | ResponseMethod::CalendarEvents(r, rid)
            | ResponseMethod::Messages(r, rid) => {
                assert_eq!(rid, id);
                assert_eq!(r.list.len(), 1);
            },
            other => panic!("unexpected response kind: {:?}", kind_of(other)),
        }
    }
}

fn kind_of(m: &ResponseMethod) -> &'static str {
    match m {
        ResponseMethod::Contacts(_, _) => "Contacts",
        ResponseMethod::ContactsSet(_, _) => "ContactsSet",
        ResponseMethod::ContactUpdates(_, _) => "ContactUpdates",
        ResponseMethod::ContactGroups(_, _) => "ContactGroups",
        ResponseMethod::ContactGroupsSet(_, _) => "ContactGroupsSet",
        ResponseMethod::ContactGroupUpdates(_, _) => "ContactGroupUpdates",
        ResponseMethod::Calendars(_, _) => "Calendars",
        ResponseMethod::CalendarsSet(_, _) => "CalendarsSet",
        ResponseMethod::CalendarUpdates(_, _) => "CalendarUpdates",
        ResponseMethod::CalendarEvents(_, _) => "CalendarEvents",
        ResponseMethod::CalendarEventsSet(_, _) => "CalendarEventsSet",
        ResponseMethod::CalendarEventUpdates(_, _) => "CalendarEventUpdates",
        ResponseMethod::Mailboxes(_, _) => "Mailboxes",
        ResponseMethod::MailboxesSet(_, _) => "MailboxesSet",
        ResponseMethod::MailboxUpdates(_, _) => "MailboxUpdates",
        ResponseMethod::Messages(_, _) => "Messages",
        ResponseMethod::MessagesSet(_, _) => "MessagesSet",
        ResponseMethod::MessageUpdates(_, _) => "MessageUpdates",
        ResponseMethod::ResponseError(_, _) => "ResponseError",
    }
}
