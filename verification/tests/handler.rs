//! Tests of the generic record handler and the per-type handler surfaces.

use salada::contact::ContactHandler;
use salada::db::{Contact, Db};
use salada::document::Document;
use salada::method::{
    GetRequestArgs, GetUpdatesRequestArgs, MethodError, SetRequestArgs,
};
use salada::record::RecordHandler;
use salada::util::RequestContext;

fn fresh_ctx() -> RequestContext {
    RequestContext { userid: 1, db: Db::open_path(":memory:").expect("open in-memory store") }
}

fn doc(pairs: &[(&str, &str)]) -> Document {
    let mut d = Document::new();
    for (k, v) in pairs {
        d.set(k.to_string(), v.to_string());
    }
    d
}

fn empty_set() -> SetRequestArgs {
    SetRequestArgs { if_in_state: None, create: None, update: None, destroy: None }
}

fn empty_get() -> GetRequestArgs {
    GetRequestArgs { ids: None, properties: None, since_state: None }
}

#[test]
fn set_create_returns_states_and_id_partial() {
    let mut ctx = fresh_ctx();
    let mut args = empty_set();
    args.create = Some(vec![("c1".to_string(), doc(&[("name", "Ada")]))]);
    let resp = ctx.set_contacts(&args).unwrap();
    assert_eq!(resp.old_state, "0");
    assert_eq!(resp.new_state, "1");
    assert_eq!(resp.created.len(), 1);
    assert_eq!(resp.created[0].0, "c1");
    let partial = &resp.created[0].1;
    assert!(partial.id.is_some());
    assert_eq!(partial.props.props.len(), 0);
    assert!(resp.not_created.is_empty());
    assert!(resp.updated.is_empty());
    assert!(resp.destroyed.is_empty());
}

#[test]
fn noop_set_does_not_advance_state() {
    let mut ctx = fresh_ctx();
    let mut args = empty_set();
    args.create = Some(vec![("c1".to_string(), Document::new())]);
    ctx.set_contacts(&args).unwrap();
    let resp = ctx.set_contacts(&empty_set()).unwrap();
    assert_eq!(resp.old_state, "1");
    assert_eq!(resp.new_state, "1");
    // an empty-but-present list is also a no-op
    let mut args2 = empty_set();
    args2.create = Some(vec![]);
    args2.destroy = Some(vec![]);
    let resp2 = ctx.set_contacts(&args2).unwrap();
    assert_eq!(resp2.new_state, "1");
}

#[test]
fn set_precondition_mismatch_changes_nothing() {
    let mut ctx = fresh_ctx();
    let mut args = empty_set();
    args.create = Some(vec![("c1".to_string(), Document::new())]);
    ctx.set_contacts(&args).unwrap();
    ctx.set_contacts(&args).unwrap();
    // current state is "2"; a Set conditioned on "1" must fail untouched
    let mut stale = empty_set();
    stale.if_in_state = Some("1".to_string());
    stale.create = Some(vec![("c9".to_string(), Document::new())]);
    let r = ctx.set_contacts(&stale);
    assert!(matches!(r, Err(MethodError::StateMismatch)));
    assert_eq!(ctx.db.get_state::<Contact>(1).unwrap(), "2");
    assert_eq!(ctx.db.get_records::<Contact>(1, None, None).unwrap().len(), 2);
}

#[test]
fn set_applies_create_update_destroy_in_order() {
    let mut ctx = fresh_ctx();
    let mut args = empty_set();
    args.create = Some(vec![
        ("a".to_string(), doc(&[("name", "one")])),
        ("b".to_string(), doc(&[("name", "two")])),
    ]);
    let resp = ctx.set_contacts(&args).unwrap();
    let id_a = resp.created[0].1.id.clone().unwrap();
    let id_b = resp.created[1].1.id.clone().unwrap();
    let mut args2 = empty_set();
    args2.update = Some(vec![(id_a.clone(), doc(&[("name", "ONE")]))]);
    args2.destroy = Some(vec![id_b.clone()]);
    let resp2 = ctx.set_contacts(&args2).unwrap();
    assert_eq!(resp2.old_state, "1");
    assert_eq!(resp2.new_state, "2");
    assert_eq!(resp2.updated, vec![id_a.clone()]);
    assert_eq!(resp2.destroyed, vec![id_b]);
    let rows = ctx.db.get_records::<Contact>(1, None, None).unwrap();
    assert_eq!(rows.len(), 1);
    assert_eq!(rows[0].doc.get_value("name").as_deref(), Some("ONE"));
}

#[test]
fn set_update_of_missing_id_lands_in_not_updated() {
    let mut ctx = fresh_ctx();
    let mut args = empty_set();
    args.update = Some(vec![("ghost".to_string(), doc(&[("x", "y")]))]);
    let resp = ctx.set_contacts(&args).unwrap();
    assert!(resp.updated.is_empty());
    assert_eq!(resp.not_updated.len(), 1);
    assert_eq!(resp.not_updated[0].0, "ghost");
}

#[test]
fn get_serves_list_state_and_not_found() {
    let mut ctx = fresh_ctx();
    let mut args = empty_set();
    args.create = Some(vec![("c1".to_string(), doc(&[("name", "Ada"), ("tel", "7")]))]);
    let resp = ctx.set_contacts(&args).unwrap();
    let id = resp.created[0].1.id.clone().unwrap();
    let mut get = empty_get();
    get.ids = Some(vec![id.clone(), "nope".to_string()]);
    let g = ctx.get_contacts(&get).unwrap();
    assert_eq!(g.state, "1");
    assert_eq!(g.list.len(), 1);
    assert_eq!(g.list[0].id.as_deref(), Some(id.as_str()));
    assert_eq!(g.list[0].props.get_value("name").as_deref(), Some("Ada"));
    assert_eq!(g.not_found, Some(vec!["nope".to_string()]));
    // without an id filter no not-found list is computed
    let g2 = ctx.get_contacts(&empty_get()).unwrap();
    assert_eq!(g2.not_found, None);
}

#[test]
fn get_with_property_filter_projects() {
    let mut ctx = fresh_ctx();
    let mut args = empty_set();
    args.create = Some(vec![("c1".to_string(), doc(&[("name", "Ada"), ("tel", "7")]))]);
    ctx.set_contacts(&args).unwrap();
    let mut get = empty_get();
    get.properties = Some(vec!["name".to_string()]);
    let g = ctx.get_contacts(&get).unwrap();
    assert_eq!(g.list.len(), 1);
    // "id" was not requested, so the partial carries none
    assert!(g.list[0].id.is_none());
    assert_eq!(g.list[0].props.get_value("name").as_deref(), Some("Ada"));
    assert_eq!(g.list[0].props.get_value("tel"), None);
    let mut get2 = empty_get();
    get2.properties = Some(vec!["id".to_string(), "tel".to_string()]);
    let g2 = ctx.get_contacts(&get2).unwrap();
    assert!(g2.list[0].id.is_some());
    assert_eq!(g2.list[0].props.get_value("tel").as_deref(), Some("7"));
    assert_eq!(g2.list[0].props.get_value("name"), None);
}

#[test]
fn get_updates_echoes_old_state_and_fetches_records() {
    let mut ctx = fresh_ctx();
    let mut args = empty_set();
    args.create = Some(vec![("c1".to_string(), doc(&[("name", "Ada")]))]);
    let resp = ctx.set_contacts(&args).unwrap();
    let id = resp.created[0].1.id.clone().unwrap();
    let upd_args = GetUpdatesRequestArgs {
        since_state: "1".to_string(),
        max_changes: None,
        fetch_records: Some(true),
        fetch_record_properties: None,
    };
    // nothing changed since state 1: empty lists, and an (empty) fetch
    let (u, fetched) = ctx.get_contact_updates(&upd_args).unwrap();
    assert_eq!(u.old_state, "1");
    assert_eq!(u.new_state, "1");
    assert!(u.changed.is_empty());
    assert!(fetched.is_some());
    // mutate, then ask again from the old cursor
    let mut args2 = empty_set();
    args2.update = Some(vec![(id.clone(), doc(&[("name", "B")]))]);
    ctx.set_contacts(&args2).unwrap();
    let (u2, fetched2) = ctx.get_contact_updates(&upd_args).unwrap();
    assert_eq!(u2.old_state, "1");
    assert_eq!(u2.new_state, "2");
    assert_eq!(u2.changed, vec![id.clone()]);
    let f = fetched2.unwrap();
    assert_eq!(f.list.len(), 1);
    assert_eq!(f.list[0].props.get_value("name").as_deref(), Some("B"));
    // without the fetch flag there is no nested response
    let upd_plain = GetUpdatesRequestArgs {
        since_state: "1".to_string(),
        max_changes: None,
        fetch_records: None,
        fetch_record_properties: None,
    };
    let (_, none_fetched) = ctx.get_contact_updates(&upd_plain).unwrap();
    assert!(none_fetched.is_none());
}

#[test]
fn get_updates_cap_surfaces_too_many_changes() {
    let mut ctx = fresh_ctx();
    let mut args = empty_set();
    args.create = Some(vec![("w".to_string(), Document::new())]);
    ctx.set_contacts(&args).unwrap();
    let mut args2 = empty_set();
    args2.create = Some(vec![
        ("a".to_string(), Document::new()),
        ("b".to_string(), Document::new()),
        ("c".to_string(), Document::new()),
    ]);
    ctx.set_contacts(&args2).unwrap();
    let capped = GetUpdatesRequestArgs {
        since_state: "1".to_string(),
        max_changes: Some(2),
        fetch_records: None,
        fetch_record_properties: None,
    };
    let r = <RequestContext as RecordHandler<Contact>>::get_record_updates(&ctx, &capped);
    assert!(matches!(r, Err(MethodError::TooManyChanges)));
}

#[test]
fn get_updates_below_floor_cannot_calculate_changes() {
    let mut ctx = fresh_ctx();
    let mut args = empty_set();
    args.create = Some(vec![("a".to_string(), Document::new())]);
    ctx.set_contacts(&args).unwrap();
    let stale = GetUpdatesRequestArgs {
        since_state: "0".to_string(),
        max_changes: None,
        fetch_records: None,
        fetch_record_properties: None,
    };
    let r = ctx.get_contact_updates(&stale);
    assert!(matches!(r, Err(MethodError::CannotCalculateChanges)));
}
