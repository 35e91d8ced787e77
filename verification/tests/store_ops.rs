//! Scenario tests of the storage engine, through its public operations.

use salada::db::{Contact, ContactGroup, Db, DbError};
use salada::document::Document;

fn fresh_db() -> Db {
    Db::open_path(":memory:").expect("open in-memory store")
}

fn doc(pairs: &[(&str, &str)]) -> Document {
    let mut d = Document::new();
    for (k, v) in pairs {
        d.set(k.to_string(), v.to_string());
    }
    d
}

#[test]
fn untouched_collection_state_is_zero() {
    let db = fresh_db();
    assert_eq!(db.get_state::<Contact>(1).unwrap(), "0");
}

#[test]
fn get_state_is_idempotent() {
    let mut db = fresh_db();
    db.next_state::<Contact>(1).unwrap();
    let a = db.get_state::<Contact>(1).unwrap();
    let b = db.get_state::<Contact>(1).unwrap();
    assert_eq!(a, b);
    assert_eq!(a, "1");
}

#[test]
fn empty_collection_lifecycle() {
    // Empty collection reads state "0"; the first mutating batch advances
    // it to "1"; a created record is then served, and the state still
    // reads "1".
    let mut db = fresh_db();
    assert_eq!(db.get_state::<Contact>(1).unwrap(), "0");
    let next = db.next_state::<Contact>(1).unwrap();
    assert_eq!(next, "1");
    let create = vec![("c1".to_string(), doc(&[("name", "Ada")]))];
    let (created, not_created) = db.create_records::<Contact>(1, &create).unwrap();
    assert_eq!(created.len(), 1);
    assert_eq!(created[0].0, "c1");
    assert!(not_created.is_empty());
    let rows = db.get_records::<Contact>(1, None, None).unwrap();
    assert_eq!(rows.len(), 1);
    assert_eq!(rows[0].id, created[0].1);
    assert_eq!(rows[0].modseq, 1);
    assert_eq!(db.get_state::<Contact>(1).unwrap(), "1");
}

#[test]
fn created_ids_are_uuid_shaped() {
    let mut db = fresh_db();
    db.next_state::<Contact>(1).unwrap();
    let create = vec![("c1".to_string(), Document::new())];
    let (created, _) = db.create_records::<Contact>(1, &create).unwrap();
    assert_eq!(created[0].1.chars().count(), 36);
}

#[test]
fn create_without_modseq_row_is_an_internal_error() {
    let mut db = fresh_db();
    let create = vec![("c1".to_string(), Document::new())];
    let r = db.create_records::<Contact>(1, &create);
    assert!(matches!(r, Err(DbError::InternalError(_))));
}

#[test]
fn create_merges_partial_over_default() {
    let mut db = fresh_db();
    db.next_state::<Contact>(1).unwrap();
    let create = vec![("c1".to_string(), doc(&[("name", "Ada"), ("email", "a@b")]))];
    let (created, _) = db.create_records::<Contact>(1, &create).unwrap();
    let ids = vec![created[0].1.clone()];
    let rows = db.get_records::<Contact>(1, Some(&ids), None).unwrap();
    assert_eq!(rows.len(), 1);
    assert_eq!(rows[0].doc.get_value("name").as_deref(), Some("Ada"));
    assert_eq!(rows[0].doc.get_value("email").as_deref(), Some("a@b"));
    assert_eq!(rows[0].doc.get_value("missing"), None);
}

#[test]
fn update_merges_and_restamps() {
    let mut db = fresh_db();
    db.next_state::<Contact>(1).unwrap();
    let create = vec![("c1".to_string(), doc(&[("name", "Ada"), ("email", "a@b")]))];
    let (created, _) = db.create_records::<Contact>(1, &create).unwrap();
    let id = created[0].1.clone();
    db.next_state::<Contact>(1).unwrap();
    let update = vec![(id.clone(), doc(&[("email", "new@b")]))];
    let (updated, not_updated) = db.update_records::<Contact>(1, &update).unwrap();
    assert_eq!(updated, vec![id.clone()]);
    assert!(not_updated.is_empty());
    let rows = db.get_records::<Contact>(1, None, None).unwrap();
    assert_eq!(rows[0].doc.get_value("name").as_deref(), Some("Ada"));
    assert_eq!(rows[0].doc.get_value("email").as_deref(), Some("new@b"));
    assert_eq!(rows[0].modseq, 2);
}

#[test]
fn update_of_missing_id_reports_not_found() {
    let mut db = fresh_db();
    db.next_state::<Contact>(1).unwrap();
    let update = vec![("no-such-id".to_string(), doc(&[("name", "x")]))];
    let (updated, not_updated) = db.update_records::<Contact>(1, &update).unwrap();
    assert!(updated.is_empty());
    assert_eq!(not_updated.len(), 1);
    assert_eq!(not_updated[0].0, "no-such-id");
    assert_eq!(not_updated[0].1, salada::db::SetError::NotFound);
}

#[test]
fn tombstoned_record_is_hidden_but_reported_removed() {
    let mut db = fresh_db();
    db.next_state::<Contact>(1).unwrap();
    let create = vec![("c1".to_string(), doc(&[("name", "Ada")]))];
    let (created, _) = db.create_records::<Contact>(1, &create).unwrap();
    let id = created[0].1.clone();
    db.next_state::<Contact>(1).unwrap();
    let (destroyed, not_destroyed) = db
        .destroy_records::<Contact>(1, &vec![id.clone()])
        .unwrap();
    assert_eq!(destroyed, vec![id.clone()]);
    assert!(not_destroyed.is_empty());
    // a plain read never returns the tombstone
    let rows = db.get_records::<Contact>(1, None, None).unwrap();
    assert!(rows.is_empty());
    // the change feed reports it removed until the cursor reaches its modseq
    let (changed, removed) = db
        .get_record_updates::<Contact>(1, &"1".to_string(), None)
        .unwrap();
    assert!(changed.is_empty());
    assert_eq!(removed, vec![id]);
    let (changed2, removed2) = db
        .get_record_updates::<Contact>(1, &"2".to_string(), None)
        .unwrap();
    assert!(changed2.is_empty());
    assert!(removed2.is_empty());
}

#[test]
fn destroying_nonexistent_id_is_a_silent_no_op() {
    let mut db = fresh_db();
    db.next_state::<Contact>(1).unwrap();
    let (destroyed, not_destroyed) = db
        .destroy_records::<Contact>(1, &vec!["ghost".to_string()])
        .unwrap();
    assert!(destroyed.is_empty());
    assert!(not_destroyed.is_empty());
}

#[test]
fn updates_at_current_state_are_empty_not_an_error() {
    let mut db = fresh_db();
    db.next_state::<Contact>(1).unwrap();
    let create = vec![("c1".to_string(), Document::new())];
    db.create_records::<Contact>(1, &create).unwrap();
    let cur = db.get_state::<Contact>(1).unwrap();
    let (changed, removed) = db.get_record_updates::<Contact>(1, &cur, None).unwrap();
    assert!(changed.is_empty());
    assert!(removed.is_empty());
}

#[test]
fn since_state_below_floor_fails_with_state_too_old() {
    let mut db = fresh_db();
    db.next_state::<Contact>(1).unwrap();
    let r = db.get_record_updates::<Contact>(1, &"0".to_string(), None);
    assert_eq!(r, Err(DbError::StateTooOld));
    let r2 = db.get_records::<Contact>(1, None, Some(&"0".to_string()));
    assert!(matches!(r2, Err(DbError::StateTooOld)));
}

#[test]
fn untouched_collection_cannot_serve_updates() {
    let db = fresh_db();
    let r = db.get_record_updates::<Contact>(1, &"0".to_string(), None);
    assert_eq!(r, Err(DbError::StateTooOld));
}

#[test]
fn max_changes_cap_is_strict() {
    let mut db = fresh_db();
    db.next_state::<Contact>(1).unwrap();
    let create = vec![("c0".to_string(), Document::new())];
    db.create_records::<Contact>(1, &create).unwrap();
    db.next_state::<Contact>(1).unwrap();
    let create3 = vec![
        ("c1".to_string(), Document::new()),
        ("c2".to_string(), Document::new()),
        ("c3".to_string(), Document::new()),
    ];
    db.create_records::<Contact>(1, &create3).unwrap();
    // three rows changed since state "1"
    let r = db.get_record_updates::<Contact>(1, &"1".to_string(), Some(2));
    assert_eq!(r, Err(DbError::TooManyChanges));
    let (changed, removed) = db
        .get_record_updates::<Contact>(1, &"1".to_string(), Some(3))
        .unwrap();
    assert_eq!(changed.len(), 3);
    assert!(removed.is_empty());
}

#[test]
fn collections_are_independent() {
    let mut db = fresh_db();
    db.next_state::<Contact>(1).unwrap();
    assert_eq!(db.get_state::<Contact>(1).unwrap(), "1");
    assert_eq!(db.get_state::<ContactGroup>(1).unwrap(), "0");
    assert_eq!(db.get_state::<Contact>(2).unwrap(), "0");
}

#[test]
fn check_state_distinguishes_tokens() {
    let mut db = fresh_db();
    db.next_state::<Contact>(1).unwrap();
    assert!(db.check_state::<Contact>(1, &"1".to_string()).is_ok());
    assert_eq!(
        db.check_state::<Contact>(1, &"0".to_string()),
        Err(DbError::StateMismatch)
    );
}

#[test]
fn rollback_restores_the_store() {
    let mut db = fresh_db();
    db.next_state::<Contact>(1).unwrap();
    let create = vec![("c1".to_string(), Document::new())];
    db.create_records::<Contact>(1, &create).unwrap();
    db.transaction_begin().unwrap();
    db.next_state::<Contact>(1).unwrap();
    let create2 = vec![("c2".to_string(), Document::new())];
    db.create_records::<Contact>(1, &create2).unwrap();
    assert_eq!(db.get_state::<Contact>(1).unwrap(), "2");
    db.transaction_rollback().unwrap();
    assert_eq!(db.get_state::<Contact>(1).unwrap(), "1");
    assert_eq!(db.get_records::<Contact>(1, None, None).unwrap().len(), 1);
}
