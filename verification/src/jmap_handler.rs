//! Request dispatch: maps a batch of tagged method invocations onto the
//! generic record handler, in input order, tagging every response with the
//! invocation's correlation id. A GetUpdates invocation that also asked for
//! the changed records expands into two responses; a malformed invocation
//! is echoed back as an error without reaching any handler.

use vstd::prelude::*;
use crate::db::{Calendar, CalendarEvent, Contact, ContactGroup, DbV, Mailbox, Message, RecordType};
use crate::method::{MethodError, RequestBatch, RequestMethod, ResponseBatch, ResponseMethod};
use crate::record::{get_post, get_updates_handler_post, set_post, RecordHandler};
use crate::util::RequestContext;

verus! {

/// How a group of consecutive responses answers one invocation against the
/// engine state `v` it ran on, leaving state `v2`: the response carries the
/// invocation's correlation id and satisfies the operation's own
/// postcondition — a Get or GetUpdates answers from `v` and leaves it
/// untouched (an error only on the inputs the operation's contract allows
/// one), a Set relates `v` to `v2` through its full contract, and a
/// malformed invocation is echoed back unchanged.
pub open spec fn answers(
    v: DbV,
    u: int,
    m: RequestMethod,
    g: Seq<ResponseMethod>,
    v2: DbV,
) -> bool {
    match m {
        RequestMethod::GetContacts(args, id) => {
            ||| (g.len() == 1 && v2 == v && (g[0] matches ResponseMethod::Contacts(a, rid)
                && rid@ == id@ && get_post(v, u, Contact::type_id(), &args, Ok(a))))
            ||| (g.len() == 1 && v2 == v && (g[0] matches ResponseMethod::ResponseError(e, rid)
                && rid@ == id@ && get_post(v, u, Contact::type_id(), &args, Err(e))))
        },
        RequestMethod::SetContacts(args, id) => {
            ||| (g.len() == 1 && (g[0] matches ResponseMethod::ContactsSet(a, rid) && rid@ == id@
                && set_post(v, v2, u, Contact::type_id(), Contact::default_doc_spec(), &args, Ok(a))))
            ||| (g.len() == 1 && (g[0] matches ResponseMethod::ResponseError(e, rid) && rid@ == id@
                && set_post(v, v2, u, Contact::type_id(), Contact::default_doc_spec(), &args, Err(e))))
        },
        RequestMethod::GetContactUpdates(args, id) => {
            ||| (g.len() == 1 && v2 == v && (g[0] matches ResponseMethod::ContactUpdates(a, rid)
                && rid@ == id@ && get_updates_handler_post(
                v,
                u,
                Contact::type_id(),
                &args,
                Ok((a, None)),
            )))
            ||| (g.len() == 2 && v2 == v && (g[0] matches ResponseMethod::ContactUpdates(a, rid)
                && rid@ == id@ && (g[1] matches ResponseMethod::Contacts(b, rid2) && rid2@ == id@
                && get_updates_handler_post(v, u, Contact::type_id(), &args, Ok((a, Some(b)))))))
            ||| (g.len() == 1 && v2 == v && (g[0] matches ResponseMethod::ResponseError(e, rid)
                && rid@ == id@ && get_updates_handler_post(v, u, Contact::type_id(), &args, Err(e))))
        },
        RequestMethod::GetContactGroups(args, id) => {
            ||| (g.len() == 1 && v2 == v && (g[0] matches ResponseMethod::ContactGroups(a, rid)
                && rid@ == id@ && get_post(v, u, ContactGroup::type_id(), &args, Ok(a))))
            ||| (g.len() == 1 && v2 == v && (g[0] matches ResponseMethod::ResponseError(e, rid)
                && rid@ == id@ && get_post(v, u, ContactGroup::type_id(), &args, Err(e))))
        },
        RequestMethod::SetContactGroups(args, id) => {
            ||| (g.len() == 1 && (g[0] matches ResponseMethod::ContactGroupsSet(a, rid) && rid@ == id@
                && set_post(v, v2, u, ContactGroup::type_id(), ContactGroup::default_doc_spec(), &args, Ok(a))))
            ||| (g.len() == 1 && (g[0] matches ResponseMethod::ResponseError(e, rid) && rid@ == id@
                && set_post(v, v2, u, ContactGroup::type_id(), ContactGroup::default_doc_spec(), &args, Err(e))))
        },
        RequestMethod::GetContactGroupUpdates(args, id) => {
            ||| (g.len() == 1 && v2 == v && (g[0] matches ResponseMethod::ContactGroupUpdates(a, rid)
                && rid@ == id@ && get_updates_handler_post(
                v,
                u,
                ContactGroup::type_id(),
                &args,
                Ok((a, None)),
            )))
            ||| (g.len() == 2 && v2 == v && (g[0] matches ResponseMethod::ContactGroupUpdates(a, rid)
                && rid@ == id@ && (g[1] matches ResponseMethod::ContactGroups(b, rid2) && rid2@ == id@
                && get_updates_handler_post(v, u, ContactGroup::type_id(), &args, Ok((a, Some(b)))))))
            ||| (g.len() == 1 && v2 == v && (g[0] matches ResponseMethod::ResponseError(e, rid)
                && rid@ == id@ && get_updates_handler_post(v, u, ContactGroup::type_id(), &args, Err(e))))
        },
        RequestMethod::GetCalendars(args, id) => {
            ||| (g.len() == 1 && v2 == v && (g[0] matches ResponseMethod::Calendars(a, rid)
                && rid@ == id@ && get_post(v, u, Calendar::type_id(), &args, Ok(a))))
            ||| (g.len() == 1 && v2 == v && (g[0] matches ResponseMethod::ResponseError(e, rid)
                && rid@ == id@ && get_post(v, u, Calendar::type_id(), &args, Err(e))))
        },
        RequestMethod::SetCalendars(args, id) => {
            ||| (g.len() == 1 && (g[0] matches ResponseMethod::CalendarsSet(a, rid) && rid@ == id@
                && set_post(v, v2, u, Calendar::type_id(), Calendar::default_doc_spec(), &args, Ok(a))))
            ||| (g.len() == 1 && (g[0] matches ResponseMethod::ResponseError(e, rid) && rid@ == id@
                && set_post(v, v2, u, Calendar::type_id(), Calendar::default_doc_spec(), &args, Err(e))))
        },
        RequestMethod::GetCalendarUpdates(args, id) => {
            ||| (g.len() == 1 && v2 == v && (g[0] matches ResponseMethod::CalendarUpdates(a, rid)
                && rid@ == id@ && get_updates_handler_post(
                v,
                u,
                Calendar::type_id(),
                &args,
                Ok((a, None)),
            )))
            ||| (g.len() == 2 && v2 == v && (g[0] matches ResponseMethod::CalendarUpdates(a, rid)
                && rid@ == id@ && (g[1] matches ResponseMethod::Calendars(b, rid2) && rid2@ == id@
                && get_updates_handler_post(v, u, Calendar::type_id(), &args, Ok((a, Some(b)))))))
            ||| (g.len() == 1 && v2 == v && (g[0] matches ResponseMethod::ResponseError(e, rid)
                && rid@ == id@ && get_updates_handler_post(v, u, Calendar::type_id(), &args, Err(e))))
        },
        RequestMethod::GetCalendarEvents(args, id) => {
            ||| (g.len() == 1 && v2 == v && (g[0] matches ResponseMethod::CalendarEvents(a, rid)
                && rid@ == id@ && get_post(v, u, CalendarEvent::type_id(), &args, Ok(a))))
            ||| (g.len() == 1 && v2 == v && (g[0] matches ResponseMethod::ResponseError(e, rid)
                && rid@ == id@ && get_post(v, u, CalendarEvent::type_id(), &args, Err(e))))
        },
        RequestMethod::SetCalendarEvents(args, id) => {
            ||| (g.len() == 1 && (g[0] matches ResponseMethod::CalendarEventsSet(a, rid) && rid@ == id@
                && set_post(v, v2, u, CalendarEvent::type_id(), CalendarEvent::default_doc_spec(), &args, Ok(a))))
            ||| (g.len() == 1 && (g[0] matches ResponseMethod::ResponseError(e, rid) && rid@ == id@
                && set_post(v, v2, u, CalendarEvent::type_id(), CalendarEvent::default_doc_spec(), &args, Err(e))))
        },
        RequestMethod::GetCalendarEventUpdates(args, id) => {
            ||| (g.len() == 1 && v2 == v && (g[0] matches ResponseMethod::CalendarEventUpdates(a, rid)
                && rid@ == id@ && get_updates_handler_post(
                v,
                u,
                CalendarEvent::type_id(),
                &args,
                Ok((a, None)),
            )))
            ||| (g.len() == 2 && v2 == v && (g[0] matches ResponseMethod::CalendarEventUpdates(a, rid)
                && rid@ == id@ && (g[1] matches ResponseMethod::CalendarEvents(b, rid2) && rid2@ == id@
                && get_updates_handler_post(v, u, CalendarEvent::type_id(), &args, Ok((a, Some(b)))))))
            ||| (g.len() == 1 && v2 == v && (g[0] matches ResponseMethod::ResponseError(e, rid)
                && rid@ == id@ && get_updates_handler_post(v, u, CalendarEvent::type_id(), &args, Err(e))))
        },
        RequestMethod::GetMailboxes(args, id) => {
            ||| (g.len() == 1 && v2 == v && (g[0] matches ResponseMethod::Mailboxes(a, rid)
                && rid@ == id@ && get_post(v, u, Mailbox::type_id(), &args, Ok(a))))
            ||| (g.len() == 1 && v2 == v && (g[0] matches ResponseMethod::ResponseError(e, rid)
                && rid@ == id@ && get_post(v, u, Mailbox::type_id(), &args, Err(e))))
        },
        RequestMethod::SetMailboxes(args, id) => {
            ||| (g.len() == 1 && (g[0] matches ResponseMethod::MailboxesSet(a, rid) && rid@ == id@
                && set_post(v, v2, u, Mailbox::type_id(), Mailbox::default_doc_spec(), &args, Ok(a))))
            ||| (g.len() == 1 && (g[0] matches ResponseMethod::ResponseError(e, rid) && rid@ == id@
                && set_post(v, v2, u, Mailbox::type_id(), Mailbox::default_doc_spec(), &args, Err(e))))
        },
        RequestMethod::GetMailboxUpdates(args, id) => {
            ||| (g.len() == 1 && v2 == v && (g[0] matches ResponseMethod::MailboxUpdates(a, rid)
                && rid@ == id@ && get_updates_handler_post(
                v,
                u,
                Mailbox::type_id(),
                &args,
                Ok((a, None)),
            )))
            ||| (g.len() == 2 && v2 == v && (g[0] matches ResponseMethod::MailboxUpdates(a, rid)
                && rid@ == id@ && (g[1] matches ResponseMethod::Mailboxes(b, rid2) && rid2@ == id@
                && get_updates_handler_post(v, u, Mailbox::type_id(), &args, Ok((a, Some(b)))))))
            ||| (g.len() == 1 && v2 == v && (g[0] matches ResponseMethod::ResponseError(e, rid)
                && rid@ == id@ && get_updates_handler_post(v, u, Mailbox::type_id(), &args, Err(e))))
        },
        RequestMethod::GetMessages(args, id) => {
            ||| (g.len() == 1 && v2 == v && (g[0] matches ResponseMethod::Messages(a, rid)
                && rid@ == id@ && get_post(v, u, Message::type_id(), &args, Ok(a))))
            ||| (g.len() == 1 && v2 == v && (g[0] matches ResponseMethod::ResponseError(e, rid)
                && rid@ == id@ && get_post(v, u, Message::type_id(), &args, Err(e))))
        },
        RequestMethod::SetMessages(args, id) => {
            ||| (g.len() == 1 && (g[0] matches ResponseMethod::MessagesSet(a, rid) && rid@ == id@
                && set_post(v, v2, u, Message::type_id(), Message::default_doc_spec(), &args, Ok(a))))
            ||| (g.len() == 1 && (g[0] matches ResponseMethod::ResponseError(e, rid) && rid@ == id@
                && set_post(v, v2, u, Message::type_id(), Message::default_doc_spec(), &args, Err(e))))
        },
        RequestMethod::GetMessageUpdates(args, id) => {
            ||| (g.len() == 1 && v2 == v && (g[0] matches ResponseMethod::MessageUpdates(a, rid)
                && rid@ == id@ && get_updates_handler_post(
                v,
                u,
                Message::type_id(),
                &args,
                Ok((a, None)),
            )))
            ||| (g.len() == 2 && v2 == v && (g[0] matches ResponseMethod::MessageUpdates(a, rid)
                && rid@ == id@ && (g[1] matches ResponseMethod::Messages(b, rid2) && rid2@ == id@
                && get_updates_handler_post(v, u, Message::type_id(), &args, Ok((a, Some(b)))))))
            ||| (g.len() == 1 && v2 == v && (g[0] matches ResponseMethod::ResponseError(e, rid)
                && rid@ == id@ && get_updates_handler_post(v, u, Message::type_id(), &args, Err(e))))
        },
        RequestMethod::RequestError(e, id) => g.len() == 1 && v2 == v && (g[0] matches
            ResponseMethod::ResponseError(e2, rid) && e2 == e && rid@ == id@),
    }
}

/// How a whole response batch answers a whole request batch run against the
/// engine state `v`: each invocation, in order, is answered by its own
/// group of one or two consecutive responses, threading the engine state
/// from each invocation to the next and ending at `v2`.
pub open spec fn matches_dispatch(
    v: DbV,
    u: int,
    input: Seq<RequestMethod>,
    output: Seq<ResponseMethod>,
    v2: DbV,
) -> bool
    decreases input.len(),
{
    if input.len() == 0 {
        output.len() == 0 && v2 == v
    } else {
        exists|k: int, vm: DbV|
            (k == 1 || k == 2) && output.len() >= k && #[trigger] answers(
                v,
                u,
                input[0],
                output.take(k),
                vm,
            ) && matches_dispatch(vm, u, input.drop_first(), output.skip(k), v2)
    }
}

/// Answering one more invocation at the back extends a matching batch.
proof fn lemma_dispatch_push(
    v0: DbV,
    u: int,
    s: Seq<RequestMethod>,
    o: Seq<ResponseMethod>,
    vm: DbV,
    x: RequestMethod,
    g: Seq<ResponseMethod>,
    vend: DbV,
)
    requires
        matches_dispatch(v0, u, s, o, vm),
        answers(vm, u, x, g, vend),
        g.len() == 1 || g.len() == 2,
    ensures
        matches_dispatch(v0, u, s.push(x), o + g, vend),
    decreases s.len(),
{
    if s.len() == 0 {
        assert(o + g =~= g);
        assert(s.push(x)[0] == x);
        assert(s.push(x).drop_first() =~= Seq::<RequestMethod>::empty());
        assert(g.take(g.len() as int) =~= g);
        assert(g.skip(g.len() as int) =~= Seq::<ResponseMethod>::empty());
        assert(matches_dispatch(
            vend,
            u,
            Seq::<RequestMethod>::empty(),
            Seq::<ResponseMethod>::empty(),
            vend,
        ));
        assert(answers(v0, u, s.push(x)[0], (o + g).take(g.len() as int), vend));
    } else {
        let (k, vmid) = choose|k: int, vmid: DbV|
            (k == 1 || k == 2) && o.len() >= k && #[trigger] answers(
                v0,
                u,
                s[0],
                o.take(k),
                vmid,
            ) && matches_dispatch(vmid, u, s.drop_first(), o.skip(k), vm);
        lemma_dispatch_push(vmid, u, s.drop_first(), o.skip(k), vm, x, g, vend);
        assert((o + g).take(k) =~= o.take(k));
        assert((o + g).skip(k) =~= o.skip(k) + g);
        assert(s.push(x)[0] == s[0]);
        assert(s.push(x).drop_first() =~= s.drop_first().push(x));
        assert(answers(v0, u, s.push(x)[0], (o + g).take(k), vmid));
    }
}

/// Rebuilds a response-level error value.
fn clone_method_error(e: &MethodError) -> (r: MethodError)
    ensures
        r == *e,
{
    match e {
        MethodError::CannotCalculateChanges => MethodError::CannotCalculateChanges,
        MethodError::StateMismatch => MethodError::StateMismatch,
        MethodError::TooManyChanges => MethodError::TooManyChanges,
        MethodError::InternalError(s) => MethodError::InternalError(s.clone()),
    }
}

/// Dispatches a whole batch: every invocation is answered in order by its
/// own group of responses, under its correlation id, each group meeting
/// its operation's postcondition against the engine state threaded through
/// the batch.
pub fn handler(ctx: &mut RequestContext, batch: &RequestBatch) -> (r: ResponseBatch)
    requires
        old(ctx).db.inv(),
    ensures
        final(ctx).db.inv(),
        final(ctx).userid == old(ctx).userid,
        matches_dispatch(
            old(ctx).db@,
            old(ctx).userid as int,
            batch.0@,
            r.0@,
            final(ctx).db@,
        ),
{
    let ghost u = old(ctx).userid as int;
    let mut out: Vec<ResponseMethod> = Vec::new();
    let mut i: usize = 0;
    while i < batch.0.len()
        invariant
            i <= batch.0.len(),
            ctx.db.inv(),
            ctx.userid == old(ctx).userid,
            u == old(ctx).userid as int,
            matches_dispatch(old(ctx).db@, u, batch.0@.take(i as int), out@, ctx.db@),
        decreases batch.0.len() - i,
    {
        let ghost o0 = out@;
        let ghost n0 = out@.len();
        let ghost m0 = batch.0@[i as int];
        let ghost dpre = ctx.db@;
        match &batch.0[i] {
            RequestMethod::GetContacts(args, id) => {
                match <RequestContext as RecordHandler<Contact>>::get_records(&*ctx, args) {
                    Ok(a) => out.push(ResponseMethod::Contacts(a, id.clone())),
                    Err(e) => out.push(ResponseMethod::ResponseError(e, id.clone())),
                }
                proof {
                    assert(out@.skip(n0 as int) =~= seq![out@.last()]);
                    assert(answers(dpre, u, m0, out@.skip(n0 as int), ctx.db@));
                }
            },
            RequestMethod::SetContacts(args, id) => {
                match <RequestContext as RecordHandler<Contact>>::set_records(ctx, args) {
                    Ok(a) => out.push(ResponseMethod::ContactsSet(a, id.clone())),
                    Err(e) => out.push(ResponseMethod::ResponseError(e, id.clone())),
                }
                proof {
                    assert(out@.skip(n0 as int) =~= seq![out@.last()]);
                    assert(answers(dpre, u, m0, out@.skip(n0 as int), ctx.db@));
                }
            },
            RequestMethod::GetContactUpdates(args, id) => {
                let res = <RequestContext as RecordHandler<Contact>>::get_record_updates(&*ctx, args);
                let ghost rr = res;
                match res {
                    Ok(p) => {
                        let (a, b) = p;
                        out.push(ResponseMethod::ContactUpdates(a, id.clone()));
                        match b {
                            Some(gr) => out.push(ResponseMethod::Contacts(gr, id.clone())),
                            None => {},
                        }
                    },
                    Err(e) => out.push(ResponseMethod::ResponseError(e, id.clone())),
                }
                proof {
                    if rr is Ok {
                        let p0 = rr->Ok_0;
                        assert((p0.0, p0.1) =~= p0);
                        if p0.1 is Some {
                            assert(out@.skip(n0 as int) =~= seq![
                                out@[n0 as int],
                                out@[n0 as int + 1],
                            ]);
                        } else {
                            assert(out@.skip(n0 as int) =~= seq![out@.last()]);
                        }
                    } else {
                        assert(out@.skip(n0 as int) =~= seq![out@.last()]);
                    }
                    assert(answers(dpre, u, m0, out@.skip(n0 as int), ctx.db@));
                }
            },
            RequestMethod::GetContactGroups(args, id) => {
                match <RequestContext as RecordHandler<ContactGroup>>::get_records(&*ctx, args) {
                    Ok(a) => out.push(ResponseMethod::ContactGroups(a, id.clone())),
                    Err(e) => out.push(ResponseMethod::ResponseError(e, id.clone())),
                }
                proof {
                    assert(out@.skip(n0 as int) =~= seq![out@.last()]);
                    assert(answers(dpre, u, m0, out@.skip(n0 as int), ctx.db@));
                }
            },
            RequestMethod::SetContactGroups(args, id) => {
                match <RequestContext as RecordHandler<ContactGroup>>::set_records(ctx, args) {
                    Ok(a) => out.push(ResponseMethod::ContactGroupsSet(a, id.clone())),
                    Err(e) => out.push(ResponseMethod::ResponseError(e, id.clone())),
                }
                proof {
                    assert(out@.skip(n0 as int) =~= seq![out@.last()]);
                    assert(answers(dpre, u, m0, out@.skip(n0 as int), ctx.db@));
                }
            },
            RequestMethod::GetContactGroupUpdates(args, id) => {
                let res = <RequestContext as RecordHandler<ContactGroup>>::get_record_updates(&*ctx, args);
                let ghost rr = res;
                match res {
                    Ok(p) => {
                        let (a, b) = p;
                        out.push(ResponseMethod::ContactGroupUpdates(a, id.clone()));
                        match b {
                            Some(gr) => out.push(ResponseMethod::ContactGroups(gr, id.clone())),
                            None => {},
                        }
                    },
                    Err(e) => out.push(ResponseMethod::ResponseError(e, id.clone())),
                }
                proof {
                    if rr is Ok {
                        let p0 = rr->Ok_0;
                        assert((p0.0, p0.1) =~= p0);
                        if p0.1 is Some {
                            assert(out@.skip(n0 as int) =~= seq![
                                out@[n0 as int],
                                out@[n0 as int + 1],
                            ]);
                        } else {
                            assert(out@.skip(n0 as int) =~= seq![out@.last()]);
                        }
                    } else {
                        assert(out@.skip(n0 as int) =~= seq![out@.last()]);
                    }
                    assert(answers(dpre, u, m0, out@.skip(n0 as int), ctx.db@));
                }
            },
            RequestMethod::GetCalendars(args, id) => {
                match <RequestContext as RecordHandler<Calendar>>::get_records(&*ctx, args) {
                    Ok(a) => out.push(ResponseMethod::Calendars(a, id.clone())),
                    Err(e) => out.push(ResponseMethod::ResponseError(e, id.clone())),
                }
                proof {
                    assert(out@.skip(n0 as int) =~= seq![out@.last()]);
                    assert(answers(dpre, u, m0, out@.skip(n0 as int), ctx.db@));
                }
            },
            RequestMethod::SetCalendars(args, id) => {
                match <RequestContext as RecordHandler<Calendar>>::set_records(ctx, args) {
                    Ok(a) => out.push(ResponseMethod::CalendarsSet(a, id.clone())),
                    Err(e) => out.push(ResponseMethod::ResponseError(e, id.clone())),
                }
                proof {
                    assert(out@.skip(n0 as int) =~= seq![out@.last()]);
                    assert(answers(dpre, u, m0, out@.skip(n0 as int), ctx.db@));
                }
            },
            RequestMethod::GetCalendarUpdates(args, id) => {
                let res = <RequestContext as RecordHandler<Calendar>>::get_record_updates(&*ctx, args);
                let ghost rr = res;
                match res {
                    Ok(p) => {
                        let (a, b) = p;
                        out.push(ResponseMethod::CalendarUpdates(a, id.clone()));
                        match b {
                            Some(gr) => out.push(ResponseMethod::Calendars(gr, id.clone())),
                            None => {},
                        }
                    },
                    Err(e) => out.push(ResponseMethod::ResponseError(e, id.clone())),
                }
                proof {
                    if rr is Ok {
                        let p0 = rr->Ok_0;
                        assert((p0.0, p0.1) =~= p0);
                        if p0.1 is Some {
                            assert(out@.skip(n0 as int) =~= seq![
                                out@[n0 as int],
                                out@[n0 as int + 1],
                            ]);
                        } else {
                            assert(out@.skip(n0 as int) =~= seq![out@.last()]);
                        }
                    } else {
                        assert(out@.skip(n0 as int) =~= seq![out@.last()]);
                    }
                    assert(answers(dpre, u, m0, out@.skip(n0 as int), ctx.db@));
                }
            },
            RequestMethod::GetCalendarEvents(args, id) => {
                match <RequestContext as RecordHandler<CalendarEvent>>::get_records(&*ctx, args) {
                    Ok(a) => out.push(ResponseMethod::CalendarEvents(a, id.clone())),
                    Err(e) => out.push(ResponseMethod::ResponseError(e, id.clone())),
                }
                proof {
                    assert(out@.skip(n0 as int) =~= seq![out@.last()]);
                    assert(answers(dpre, u, m0, out@.skip(n0 as int), ctx.db@));
                }
            },
            RequestMethod::SetCalendarEvents(args, id) => {
                match <RequestContext as RecordHandler<CalendarEvent>>::set_records(ctx, args) {
                    Ok(a) => out.push(ResponseMethod::CalendarEventsSet(a, id.clone())),
                    Err(e) => out.push(ResponseMethod::ResponseError(e, id.clone())),
                }
                proof {
                    assert(out@.skip(n0 as int) =~= seq![out@.last()]);
                    assert(answers(dpre, u, m0, out@.skip(n0 as int), ctx.db@));
                }
            },
            RequestMethod::GetCalendarEventUpdates(args, id) => {
                let res = <RequestContext as RecordHandler<CalendarEvent>>::get_record_updates(&*ctx, args);
                let ghost rr = res;
                match res {
                    Ok(p) => {
                        let (a, b) = p;
                        out.push(ResponseMethod::CalendarEventUpdates(a, id.clone()));
                        match b {
                            Some(gr) => out.push(ResponseMethod::CalendarEvents(gr, id.clone())),
                            None => {},
                        }
                    },
                    Err(e) => out.push(ResponseMethod::ResponseError(e, id.clone())),
                }
                proof {
                    if rr is Ok {
                        let p0 = rr->Ok_0;
                        assert((p0.0, p0.1) =~= p0);
                        if p0.1 is Some {
                            assert(out@.skip(n0 as int) =~= seq![
                                out@[n0 as int],
                                out@[n0 as int + 1],
                            ]);
                        } else {
                            assert(out@.skip(n0 as int) =~= seq![out@.last()]);
                        }
                    } else {
                        assert(out@.skip(n0 as int) =~= seq![out@.last()]);
                    }
                    assert(answers(dpre, u, m0, out@.skip(n0 as int), ctx.db@));
                }
            },
            RequestMethod::GetMailboxes(args, id) => {
                match <RequestContext as RecordHandler<Mailbox>>::get_records(&*ctx, args) {
                    Ok(a) => out.push(ResponseMethod::Mailboxes(a, id.clone())),
                    Err(e) => out.push(ResponseMethod::ResponseError(e, id.clone())),
                }
                proof {
                    assert(out@.skip(n0 as int) =~= seq![out@.last()]);
                    assert(answers(dpre, u, m0, out@.skip(n0 as int), ctx.db@));
                }
            },
            RequestMethod::SetMailboxes(args, id) => {
                match <RequestContext as RecordHandler<Mailbox>>::set_records(ctx, args) {
                    Ok(a) => out.push(ResponseMethod::MailboxesSet(a, id.clone())),
                    Err(e) => out.push(ResponseMethod::ResponseError(e, id.clone())),
                }
                proof {
                    assert(out@.skip(n0 as int) =~= seq![out@.last()]);
                    assert(answers(dpre, u, m0, out@.skip(n0 as int), ctx.db@));
                }
            },
            RequestMethod::GetMailboxUpdates(args, id) => {
                let res = <RequestContext as RecordHandler<Mailbox>>::get_record_updates(&*ctx, args);
                let ghost rr = res;
                match res {
                    Ok(p) => {
                        let (a, b) = p;
                        out.push(ResponseMethod::MailboxUpdates(a, id.clone()));
                        match b {
                            Some(gr) => out.push(ResponseMethod::Mailboxes(gr, id.clone())),
                            None => {},
                        }
                    },
                    Err(e) => out.push(ResponseMethod::ResponseError(e, id.clone())),
                }
                proof {
                    if rr is Ok {
                        let p0 = rr->Ok_0;
                        assert((p0.0, p0.1) =~= p0);
                        if p0.1 is Some {
                            assert(out@.skip(n0 as int) =~= seq![
                                out@[n0 as int],
                                out@[n0 as int + 1],
                            ]);
                        } else {
                            assert(out@.skip(n0 as int) =~= seq![out@.last()]);
                        }
                    } else {
                        assert(out@.skip(n0 as int) =~= seq![out@.last()]);
                    }
                    assert(answers(dpre, u, m0, out@.skip(n0 as int), ctx.db@));
                }
            },
            RequestMethod::GetMessages(args, id) => {
                match <RequestContext as RecordHandler<Message>>::get_records(&*ctx, args) {
                    Ok(a) => out.push(ResponseMethod::Messages(a, id.clone())),
                    Err(e) => out.push(ResponseMethod::ResponseError(e, id.clone())),
                }
                proof {
                    assert(out@.skip(n0 as int) =~= seq![out@.last()]);
                    assert(answers(dpre, u, m0, out@.skip(n0 as int), ctx.db@));
                }
            },
            RequestMethod::SetMessages(args, id) => {
                match <RequestContext as RecordHandler<Message>>::set_records(ctx, args) {
                    Ok(a) => out.push(ResponseMethod::MessagesSet(a, id.clone())),
                    Err(e) => out.push(ResponseMethod::ResponseError(e, id.clone())),
                }
                proof {
                    assert(out@.skip(n0 as int) =~= seq![out@.last()]);
                    assert(answers(dpre, u, m0, out@.skip(n0 as int), ctx.db@));
                }
            },
            RequestMethod::GetMessageUpdates(args, id) => {
                let res = <RequestContext as RecordHandler<Message>>::get_record_updates(&*ctx, args);
                let ghost rr = res;
                match res {
                    Ok(p) => {
                        let (a, b) = p;
                        out.push(ResponseMethod::MessageUpdates(a, id.clone()));
                        match b {
                            Some(gr) => out.push(ResponseMethod::Messages(gr, id.clone())),
                            None => {},
                        }
                    },
                    Err(e) => out.push(ResponseMethod::ResponseError(e, id.clone())),
                }
                proof {
                    if rr is Ok {
                        let p0 = rr->Ok_0;
                        assert((p0.0, p0.1) =~= p0);
                        if p0.1 is Some {
                            assert(out@.skip(n0 as int) =~= seq![
                                out@[n0 as int],
                                out@[n0 as int + 1],
                            ]);
                        } else {
                            assert(out@.skip(n0 as int) =~= seq![out@.last()]);
                        }
                    } else {
                        assert(out@.skip(n0 as int) =~= seq![out@.last()]);
                    }
                    assert(answers(dpre, u, m0, out@.skip(n0 as int), ctx.db@));
                }
            },
            RequestMethod::RequestError(e, id) => {
                let e2 = clone_method_error(e);
                out.push(ResponseMethod::ResponseError(e2, id.clone()));
                proof {
                    assert(out@.skip(n0 as int) =~= seq![out@.last()]);
                    assert(answers(dpre, u, m0, out@.skip(n0 as int), ctx.db@));
                }
            },
        }
        proof {
            let g = out@.skip(n0 as int);
            assert(out@ =~= o0 + g);
            lemma_dispatch_push(old(ctx).db@, u, batch.0@.take(i as int), o0, dpre, m0, g, ctx.db@);
            assert(batch.0@.take(i as int + 1) =~= batch.0@.take(i as int).push(m0));
        }
        i = i + 1;
    }
    proof {
        assert(batch.0@.take(batch.0@.len() as int) =~= batch.0@);
    }
    ResponseBatch(out)
}

} // verus!
