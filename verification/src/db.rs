//! The storage engine: the per-user, per-type modseq versioning scheme and
//! the transactional record operations built on it.
//!
//! The engine keeps the logical content of the store in memory — that image
//! is authoritative for every read and is what the contracts speak of — and
//! mirrors every change into an embedded SQLite database for durability.
//! Transactions snapshot the image; commit discards the snapshot, rollback
//! restores it. Nesting uses savepoints, tracked by the snapshot stack.
//!
//! The `json` column of the mirror holds the library's own canonical
//! document serialization (see the document module), chosen so that reading
//! a store back is verifiable; it is not interchange JSON.

use vstd::prelude::*;
use crate::document::{enc_doc, key_in, key_in_list, str_eq, strs_view, Document, DocV};
use crate::sql::{
    fresh_id, sql_batch, sql_exec_insert, sql_exec_rewrite, sql_exec_stamp, sql_exec_ut,
    sql_load_records, sql_load_states, sql_open, sql_query_i64,
};
use crate::store::{
    apply_destroys, apply_updates, changed_ids, created_row, cur_modseq, del_one, destroyed_ids,
    has_state, inv_store, lemma_changed_removed_len, lemma_destroys_push, lemma_live_index_char,
    lemma_live_index_found, lemma_live_index_none, lemma_rec_index_char, lemma_rec_index_found,
    lemma_rec_index_none, lemma_state_index_bounds, lemma_state_index_char,
    lemma_state_index_found, lemma_state_index_none, lemma_updates_push, live_index, low_modseq,
    missing_ids, rec_index, removed_ids, row_visible, rows_v, state_index, states_v, upd_one,
    updated_ids, visible_rows, Row, RowV, StateRow, StateV, StoreV,
};
use crate::token::{dec_str, parse_state, parse_state_str, render_state};

verus! {

/// The errors a storage operation can surface.
#[derive(Clone, Debug, PartialEq)]
pub enum DbError {
    /// A since-state precedes the collection's retained floor; the client
    /// must fall back to a full fetch.
    StateTooOld,
    /// A Set precondition state does not match the current state; nothing
    /// was mutated.
    StateMismatch,
    /// A change count exceeds the requested cap.
    TooManyChanges,
    /// An underlying storage failure, with an opaque description.
    InternalError(String),
}

/// The per-item failure of one entry of a Set batch.
#[derive(Clone, Debug, PartialEq)]
pub enum SetError {
    /// The id names no live record of the collection.
    NotFound,
}

/// The registry: maps each domain record type to the stable small-integer
/// discriminant that partitions the single physical table, and supplies the
/// type-specific default document a create starts from.
pub trait RecordType {
    /// The discriminant of the record type in the store.
    spec fn type_id() -> int;

    /// The properties every record of the type starts from.
    spec fn default_doc_spec() -> DocV;

    /// Returns the record type's stable discriminant.
    fn record_type() -> (t: i32)
        ensures
            t as int == Self::type_id(),
    ;

    /// Returns the type-specific default document a create starts from.
    fn default_doc() -> (d: Document)
        ensures
            d@ == Self::default_doc_spec(),
    ;
}

/// An address book entry.
pub struct Contact;

/// A named group of contacts.
pub struct ContactGroup;

/// A calendar.
pub struct Calendar;

/// An event on a calendar.
pub struct CalendarEvent;

/// A mail folder.
pub struct Mailbox;

/// A mail message.
pub struct Message;

impl RecordType for Contact {
    open spec fn type_id() -> int {
        1
    }

    open spec fn default_doc_spec() -> DocV {
        Seq::empty()
    }

    fn record_type() -> (t: i32) {
        1
    }

    fn default_doc() -> (d: Document) {
        Document::new()
    }
}

impl RecordType for ContactGroup {
    open spec fn type_id() -> int {
        2
    }

    open spec fn default_doc_spec() -> DocV {
        Seq::empty()
    }

    fn record_type() -> (t: i32) {
        2
    }

    fn default_doc() -> (d: Document) {
        Document::new()
    }
}

impl RecordType for Calendar {
    open spec fn type_id() -> int {
        3
    }

    open spec fn default_doc_spec() -> DocV {
        Seq::empty()
    }

    fn record_type() -> (t: i32) {
        3
    }

    fn default_doc() -> (d: Document) {
        Document::new()
    }
}

impl RecordType for CalendarEvent {
    open spec fn type_id() -> int {
        4
    }

    open spec fn default_doc_spec() -> DocV {
        Seq::empty()
    }

    fn record_type() -> (t: i32) {
        4
    }

    fn default_doc() -> (d: Document) {
        Document::new()
    }
}

impl RecordType for Mailbox {
    open spec fn type_id() -> int {
        5
    }

    open spec fn default_doc_spec() -> DocV {
        Seq::empty()
    }

    fn record_type() -> (t: i32) {
        5
    }

    fn default_doc() -> (d: Document) {
        Document::new()
    }
}

impl RecordType for Message {
    open spec fn type_id() -> int {
        6
    }

    open spec fn default_doc_spec() -> DocV {
        Seq::empty()
    }

    fn record_type() -> (t: i32) {
        6
    }

    fn default_doc() -> (d: Document) {
        Document::new()
    }
}

/// A saved copy of the store, taken when a transaction level opens.
pub struct Snapshot {
    pub records: Vec<Row>,
    pub states: Vec<StateRow>,
}

impl View for Snapshot {
    type V = StoreV;

    open spec fn view(&self) -> StoreV {
        StoreV { records: rows_v(self.records@), states: states_v(self.states@) }
    }
}

/// The mathematical value of the engine: the store and the stack of
/// snapshots of open transaction levels, outermost first.
#[verifier::ext_equal]
pub ghost struct DbV {
    pub store: StoreV,
    pub snaps: Seq<StoreV>,
}

/// Well-formedness of the engine: the store and every snapshot are
/// well-formed.
pub open spec fn inv_db(v: DbV) -> bool {
    &&& inv_store(v.store)
    &&& forall|i: int| 0 <= i < v.snaps.len() ==> inv_store(#[trigger] v.snaps[i])
}

/// What advancing a collection's state means: on success the bookkeeping row
/// for `(u, t)` is bumped by exactly one (or created at 1, with a floor of
/// 1), nothing else changes, and the returned token renders the new modseq.
/// On failure nothing changes at all.
pub open spec fn next_state_post(
    pre: DbV,
    post: DbV,
    u: int,
    t: int,
    r: Result<String, DbError>,
) -> bool {
    let ss = pre.store.states;
    let c = cur_modseq(ss, u, t);
    match r {
        Ok(s) => {
            &&& c < i64::MAX
            &&& post.snaps == pre.snaps
            &&& post.store.records == pre.store.records
            &&& (if has_state(ss, u, t) {
                post.store.states == ss.update(
                    state_index(ss, u, t),
                    (StateV { userid: u, rectype: t, modseq: c + 1, low_modseq: low_modseq(ss, u, t) }),
                )
            } else {
                post.store.states == ss.push(
                    (StateV { userid: u, rectype: t, modseq: 1, low_modseq: 1 }),
                )
            })
            &&& cur_modseq(post.store.states, u, t) == c + 1
            &&& low_modseq(post.store.states, u, t) == (if has_state(ss, u, t) {
                low_modseq(ss, u, t)
            } else {
                1
            })
            &&& s@ == dec_str(c + 1)
        },
        Err(e) => post == pre && (e matches DbError::InternalError(_)),
    }
}

/// The bookkeeping row a loaded tuple stands for.
pub open spec fn raw_state_v(x: (i64, i32, i64, i64)) -> StateV {
    StateV { userid: x.0 as int, rectype: x.1 as int, modseq: x.2 as int, low_modseq: x.3 as int }
}

/// The bookkeeping rows a loaded list stands for, in order.
pub open spec fn raw_states_v(v: Seq<(i64, i32, i64, i64)>) -> Seq<StateV> {
    v.map_values(|x: (i64, i32, i64, i64)| raw_state_v(x))
}

/// The views of an optional id filter.
pub open spec fn ids_view_opt(ids: Option<&Vec<String>>) -> Option<Seq<Seq<char>>> {
    match ids {
        Some(v) => Some(strs_view(v@)),
        None => None,
    }
}

/// The parsed value of an optional since-state token.
pub open spec fn since_view_opt(s: Option<&String>) -> Option<int> {
    match s {
        Some(x) => Some(parse_state(x@)),
        None => None,
    }
}

/// The value of an optional change cap.
pub open spec fn max_view_opt(m: Option<i64>) -> Option<int> {
    match m {
        Some(x) => Some(x as int),
        None => None,
    }
}

/// Whether a since-state of `m` precedes what the collection can still
/// answer incrementally: the collection is untouched, or its floor lies
/// above `m`.
pub open spec fn state_too_old(s: StoreV, u: int, t: int, m: int) -> bool {
    !has_state(s.states, u, t) || low_modseq(s.states, u, t) > m
}

/// What a record read means: with a since-state older than the floor it
/// fails with `StateTooOld`, otherwise it returns exactly the visible rows,
/// in storage order.
pub open spec fn get_records_post(
    v: DbV,
    u: int,
    t: int,
    ids: Option<Seq<Seq<char>>>,
    since: Option<int>,
    r: Result<Vec<Row>, DbError>,
) -> bool {
    let bad = match since {
        Some(m) => state_too_old(v.store, u, t, m),
        None => false,
    };
    &&& (r is Err <==> bad)
    &&& (r matches Err(e) ==> e == DbError::StateTooOld)
    &&& (r matches Ok(list) ==> rows_v(list@) == visible_rows(v.store.records, u, t, ids, since))
}

/// What a change read means: with a since-state older than the floor it
/// fails with `StateTooOld`; with more matching rows than the cap it fails
/// with `TooManyChanges`; otherwise it returns the changed and removed ids,
/// in storage order.
pub open spec fn get_updates_post(
    v: DbV,
    u: int,
    t: int,
    m: int,
    max: Option<int>,
    r: Result<(Vec<String>, Vec<String>), DbError>,
) -> bool {
    let bad = state_too_old(v.store, u, t, m);
    let ch = changed_ids(v.store.records, u, t, m);
    let rm = removed_ids(v.store.records, u, t, m);
    let over = match max {
        Some(mx) => ch.len() + rm.len() > mx,
        None => false,
    };
    &&& (r is Err <==> bad || over)
    &&& (r matches Err(e) ==> (e == DbError::StateTooOld && bad) || (e == DbError::TooManyChanges
        && !bad && over))
    &&& (r matches Ok(p) ==> strs_view(p.0@) == ch && strs_view(p.1@) == rm)
}

/// The views of a list of `(client id, partial document)` or
/// `(record id, partial document)` pairs.
pub open spec fn pairs_view(s: Seq<(String, Document)>) -> Seq<(Seq<char>, DocV)> {
    s.map_values(|p: (String, Document)| (p.0@, p.1@))
}

/// What creating a batch of records means: on success each partial, in
/// order, becomes a fresh live row at the end of the store — the partial
/// merged over the type default, stamped with the collection's current
/// (already advanced) modseq, under a fresh server-assigned id — and the
/// returned list maps each client id to the new record id. Nothing else
/// changes, and no per-item failure is reported. On failure nothing
/// changes at all.
pub open spec fn create_post(
    pre: DbV,
    post: DbV,
    u: int,
    t: int,
    base: DocV,
    creates: Seq<(Seq<char>, DocV)>,
    r: Result<(Vec<(String, String)>, Vec<(String, SetError)>), DbError>,
) -> bool {
    match r {
        Ok(p) => {
            &&& p.1@.len() == 0
            &&& has_state(pre.store.states, u, t)
            &&& post.snaps == pre.snaps
            &&& post.store.states == pre.store.states
            &&& p.0@.len() == creates.len()
            &&& post.store.records.len() == pre.store.records.len() + creates.len()
            &&& post.store.records.take(pre.store.records.len() as int) == pre.store.records
            &&& (forall|k: int|
                0 <= k < creates.len() ==> {
                    let row = post.store.records[pre.store.records.len() + k];
                    &&& (#[trigger] p.0@[k]).0@ == creates[k].0
                    &&& p.0@[k].1@ == row.id
                    &&& row == created_row(
                        u,
                        t,
                        cur_modseq(pre.store.states, u, t),
                        row.id,
                        base,
                        creates[k].1,
                    )
                    &&& rec_index(pre.store.records, row.id, u) == -1
                })
        },
        Err(e) => post == pre && (e matches DbError::InternalError(_)),
    }
}

/// What updating a batch of records means: on success each partial, in
/// order, is merged into the live row it names, which is re-stamped with
/// the collection's current modseq; an id naming no live row is reported in
/// the second list as not found. Nothing else changes. On failure nothing
/// changes at all.
pub open spec fn update_post(
    pre: DbV,
    post: DbV,
    u: int,
    t: int,
    ups: Seq<(Seq<char>, DocV)>,
    r: Result<(Vec<String>, Vec<(String, SetError)>), DbError>,
) -> bool {
    let m = cur_modseq(pre.store.states, u, t);
    match r {
        Ok(p) => {
            &&& post.snaps == pre.snaps
            &&& post.store.states == pre.store.states
            &&& post.store.records == apply_updates(pre.store.records, u, t, ups, m)
            &&& strs_view(p.0@) == updated_ids(pre.store.records, u, t, ups, m)
            &&& p.1@.len() == missing_ids(pre.store.records, u, t, ups, m).len()
            &&& (forall|k: int|
                0 <= k < p.1@.len() ==> (#[trigger] p.1@[k]).0@ == missing_ids(
                    pre.store.records,
                    u,
                    t,
                    ups,
                    m,
                )[k] && p.1@[k].1 == SetError::NotFound)
        },
        Err(e) => post == pre && (e matches DbError::InternalError(_)),
    }
}

/// What destroying a batch of ids means: on success each id's live row, in
/// order, is tombstoned and re-stamped with the collection's current
/// modseq, and exactly those ids are reported destroyed; an id naming no
/// live row is a silent no-op. Nothing else changes. On failure nothing
/// changes at all.
pub open spec fn destroy_post(
    pre: DbV,
    post: DbV,
    u: int,
    t: int,
    ids: Seq<Seq<char>>,
    r: Result<(Vec<String>, Vec<(String, SetError)>), DbError>,
) -> bool {
    let m = cur_modseq(pre.store.states, u, t);
    match r {
        Ok(p) => {
            &&& post.snaps == pre.snaps
            &&& post.store.states == pre.store.states
            &&& post.store.records == apply_destroys(pre.store.records, u, t, ids, m)
            &&& strs_view(p.0@) == destroyed_ids(pre.store.records, u, t, ids, m)
            &&& p.1@.len() == 0
        },
        Err(e) => post == pre && (e matches DbError::InternalError(_)),
    }
}

/// The storage engine.
pub struct Db {
    pub records: Vec<Row>,
    pub states: Vec<StateRow>,
    pub snaps: Vec<Snapshot>,
    pub conn: rusqlite::Connection,
}

impl View for Db {
    type V = DbV;

    open spec fn view(&self) -> DbV {
        DbV {
            store: StoreV { records: rows_v(self.records@), states: states_v(self.states@) },
            snaps: self.snaps@.map_values(|s: Snapshot| s@),
        }
    }
}

/// Copies a list of record rows.
fn clone_rows(v: &Vec<Row>) -> (r: Vec<Row>)
    ensures
        rows_v(r@) == rows_v(v@),
{
    let mut out: Vec<Row> = Vec::new();
    let mut i: usize = 0;
    while i < v.len()
        invariant
            i <= v.len(),
            out@.len() == i,
            forall|m: int| 0 <= m < i ==> #[trigger] out@[m]@ == v@[m]@,
        decreases v.len() - i,
    {
        out.push(v[i].clone());
        i = i + 1;
    }
    assert(rows_v(out@) =~= rows_v(v@));
    out
}

/// Copies a list of bookkeeping rows.
fn clone_states(v: &Vec<StateRow>) -> (r: Vec<StateRow>)
    ensures
        states_v(r@) == states_v(v@),
{
    let mut out: Vec<StateRow> = Vec::new();
    let mut i: usize = 0;
    while i < v.len()
        invariant
            i <= v.len(),
            out@.len() == i,
            forall|m: int| 0 <= m < i ==> #[trigger] out@[m]@ == v@[m]@,
        decreases v.len() - i,
    {
        out.push(v[i]);
        i = i + 1;
    }
    assert(states_v(out@) =~= states_v(v@));
    out
}

impl Db {
    /// Well-formedness of the engine.
    pub open spec fn inv(&self) -> bool {
        inv_db(self@)
    }

    /// Opens the single persistent store file, applying the schema
    /// migration if needed and loading the stored rows into the in-memory
    /// image. Rows that fail to deserialize or violate the store's
    /// invariants surface as an internal error.
    pub fn open() -> (r: Result<Db, DbError>)
        ensures
            (r matches Ok(db) ==> db.inv() && db@.snaps.len() == 0),
    {
        Self::open_path("db.sqlite")
    }

    /// `open`, against a caller-chosen database path (`":memory:"` for a
    /// transient store).
    pub fn open_path(path: &str) -> (r: Result<Db, DbError>)
        ensures
            (r matches Ok(db) ==> db.inv() && db@.snaps.len() == 0),
    {
        let conn = match sql_open(path) {
            Ok(c) => c,
            Err(e) => {
                return Err(DbError::InternalError(e));
            },
        };
        let mut db = Db { records: Vec::new(), states: Vec::new(), snaps: Vec::new(), conn };
        proof {
            assert(db@.store.records =~= Seq::<RowV>::empty());
            assert(db@.store.states =~= Seq::<StateV>::empty());
            assert(db@.snaps =~= Seq::<StoreV>::empty());
        }
        match db.upgrade() {
            Ok(()) => {},
            Err(e) => {
                return Err(e);
            },
        }
        let states_raw = match sql_load_states(
            &db.conn,
            "SELECT userid, type, modseq, low_modseq FROM modseq",
        ) {
            Ok(v) => v,
            Err(e) => {
                return Err(DbError::InternalError(e));
            },
        };
        let recs_raw = match sql_load_records(
            &db.conn,
            "SELECT id, userid, type, modseq, deleted, json FROM records",
        ) {
            Ok(v) => v,
            Err(e) => {
                return Err(DbError::InternalError(e));
            },
        };
        let rows = match Self::decode_rows(&recs_raw) {
            Ok(v) => v,
            Err(e) => {
                return Err(e);
            },
        };
        match db.install(&states_raw, rows) {
            Ok(()) => {},
            Err(e) => {
                return Err(e);
            },
        }
        Ok(db)
    }

    /// Applies the one-time schema migration: a fresh database gets the two
    /// tables, their indexes and the schema version stamp; a database at
    /// the current version is left alone; anything newer is refused.
    fn upgrade(&self) -> (r: Result<(), DbError>) {
        let ver = match sql_query_i64(&self.conn, "PRAGMA user_version") {
            Ok(v) => v,
            Err(e) => {
                return Err(DbError::InternalError(e));
            },
        };
        match ver {
            Some(1) => Ok(()),
            Some(0) | None => {
                match sql_batch(
                    &self.conn,
                    "CREATE TABLE records (\n    rowid       INTEGER PRIMARY KEY,\n    id          TEXT NOT NULL,\n    userid      INTEGER NOT NULL,\n    type        INTEGER NOT NULL,\n    modseq      INTEGER NOT NULL,\n    deleted     INTEGER NOT NULL DEFAULT 0,\n    json        TEXT NOT NULL,\n    UNIQUE( id, userid )\n);\nCREATE INDEX idx_record_id_userid          ON records ( id, userid );\nCREATE INDEX idx_record_userid_type        ON records ( userid, type );\nCREATE INDEX idx_record_userid_type_modseq ON records ( userid, type, modseq );\nCREATE TABLE modseq (\n    userid      INTEGER NOT NULL,\n    type        INTEGER NOT NULL,\n    modseq      INTEGER NOT NULL,\n    low_modseq  INTEGER NOT NULL,\n    UNIQUE( userid, type )\n);\nCREATE INDEX idx_userid_type ON modseq ( userid, type );\nPRAGMA user_version = 1;",
                ) {
                    Ok(()) => Ok(()),
                    Err(e) => Err(DbError::InternalError(e)),
                }
            },
            Some(_) => Err(DbError::InternalError(String::from_str("unknown schema version"))),
        }
    }

    /// Decodes the loaded record tuples into rows, in order. Each decoded
    /// row carries the tuple's plain columns unchanged and a document whose
    /// canonical serialization is exactly the stored text. Fails with an
    /// internal error when a stored document is unreadable.
    fn decode_rows(raw: &Vec<(String, i64, i32, i64, i64, String)>) -> (r: Result<
        Vec<Row>,
        DbError,
    >)
        ensures
            (r matches Ok(rows) ==> rows@.len() == raw@.len() && forall|j: int|
                0 <= j < raw@.len() ==> {
                    let rv = (#[trigger] rows@[j])@;
                    &&& rv.id == raw@[j].0@
                    &&& rv.userid == raw@[j].1 as int
                    &&& rv.rectype == raw@[j].2 as int
                    &&& rv.modseq == raw@[j].3 as int
                    &&& rv.deleted == (raw@[j].4 != 0)
                    &&& enc_doc(rv.doc) == raw@[j].5@
                }),
            r matches Err(e) ==> e matches DbError::InternalError(_),
    {
        let mut rows: Vec<Row> = Vec::new();
        let mut k: usize = 0;
        while k < raw.len()
            invariant
                k <= raw.len(),
                rows@.len() == k,
                forall|j: int|
                    0 <= j < k ==> {
                        let rv = (#[trigger] rows@[j])@;
                        &&& rv.id == raw@[j].0@
                        &&& rv.userid == raw@[j].1 as int
                        &&& rv.rectype == raw@[j].2 as int
                        &&& rv.modseq == raw@[j].3 as int
                        &&& rv.deleted == (raw@[j].4 != 0)
                        &&& enc_doc(rv.doc) == raw@[j].5@
                    },
            decreases raw.len() - k,
        {
            let doc = match Document::decode(raw[k].5.as_str()) {
                Some(d) => d,
                None => {
                    return Err(
                        DbError::InternalError(String::from_str("stored document unreadable")),
                    );
                },
            };
            let row = Row {
                id: raw[k].0.clone(),
                userid: raw[k].1,
                rectype: raw[k].2,
                modseq: raw[k].3,
                deleted: raw[k].4 != 0,
                doc,
            };
            rows.push(row);
            k = k + 1;
        }
        Ok(rows)
    }

    /// Installs loaded rows into the empty image. Succeeds if and only if
    /// the rows form a well-formed store — one bookkeeping row per
    /// collection with `1 <= low_modseq <= modseq`, `(id, userid)` unique
    /// across all records, every record stamped within its collection's
    /// current modseq — and the image then holds exactly those rows, in
    /// their given order.
    #[verifier::rlimit(50)]
    fn install(&mut self, states_raw: &Vec<(i64, i32, i64, i64)>, rows: Vec<Row>) -> (r: Result<
        (),
        DbError,
    >)
        requires
            old(self)@.store.records.len() == 0,
            old(self)@.store.states.len() == 0,
            old(self)@.snaps.len() == 0,
        ensures
            final(self)@.snaps.len() == 0,
            r is Ok <==> inv_store(
                (StoreV { records: rows_v(rows@), states: raw_states_v(states_raw@) }),
            ),
            r is Ok ==> final(self)@.store.states == raw_states_v(states_raw@)
                && final(self)@.store.records == rows_v(rows@) && final(self).inv(),
            r matches Err(e) ==> e matches DbError::InternalError(_),
    {
        let ghost target = StoreV { records: rows_v(rows@), states: raw_states_v(states_raw@) };
        let mut i: usize = 0;
        while i < states_raw.len()
            invariant
                i <= states_raw.len(),
                target == (StoreV {
                    records: rows_v(rows@),
                    states: raw_states_v(states_raw@),
                }),
                self@.store.records.len() == 0,
                self@.snaps.len() == 0,
                self@.store.states == raw_states_v(states_raw@.take(i as int)),
                forall|a: int, b: int|
                    0 <= a < b < self@.store.states.len() ==> !(#[trigger] self@.store.states[a].userid
                        == #[trigger] self@.store.states[b].userid && self@.store.states[a].rectype
                        == self@.store.states[b].rectype),
                forall|a: int|
                    0 <= a < self@.store.states.len() ==> 1
                        <= #[trigger] self@.store.states[a].low_modseq
                        <= self@.store.states[a].modseq <= i64::MAX,
            decreases states_raw.len() - i,
        {
            let (uid, rt, ms, low) = states_raw[i];
            proof {
                assert(target.states[i as int] == raw_state_v(states_raw@[i as int]));
                assert(forall|m: int|
                    0 <= m < i ==> #[trigger] self@.store.states[m] == target.states[m]);
            }
            if !(1 <= low && low <= ms) {
                proof {
                    assert(!(1 <= target.states[i as int].low_modseq
                        <= target.states[i as int].modseq));
                    assert(!inv_store(target));
                }
                return Err(DbError::InternalError(String::from_str("corrupt modseq row")));
            }
            match self.find_state(uid, rt) {
                Some(j) => {
                    proof {
                        lemma_state_index_char(self@.store.states, uid as int, rt as int);
                        assert(self@.store.states[j as int].userid == uid as int
                            && self@.store.states[j as int].rectype == rt as int);
                        assert(self@.store.states[j as int] == target.states[j as int]);
                        assert(target.states[j as int].userid == target.states[i as int].userid
                            && target.states[j as int].rectype
                            == target.states[i as int].rectype);
                        assert(!inv_store(target));
                    }
                    return Err(
                        DbError::InternalError(String::from_str("duplicate modseq row")),
                    );
                },
                None => {},
            }
            proof {
                lemma_state_index_char(self@.store.states, uid as int, rt as int);
            }
            let ghost ss0 = self@.store.states;
            self.states.push(StateRow { userid: uid, rectype: rt, modseq: ms, low_modseq: low });
            proof {
                assert(self@.store.states =~= ss0.push(
                    (StateV {
                        userid: uid as int,
                        rectype: rt as int,
                        modseq: ms as int,
                        low_modseq: low as int,
                    }),
                ));
                assert(self@.store.states =~= raw_states_v(states_raw@.take(i as int + 1)));
                assert forall|a: int, b: int| 0 <= a < b < self@.store.states.len() implies !(
                #[trigger] self@.store.states[a].userid == #[trigger] self@.store.states[b].userid
                    && self@.store.states[a].rectype == self@.store.states[b].rectype) by {
                    if b < ss0.len() {
                        assert(!(ss0[a].userid == ss0[b].userid && ss0[a].rectype
                            == ss0[b].rectype));
                    } else {
                        assert(self@.store.states[a] == ss0[a]);
                    }
                }
                assert forall|a: int| 0 <= a < self@.store.states.len() implies 1
                    <= #[trigger] self@.store.states[a].low_modseq <= self@.store.states[a].modseq
                    <= i64::MAX by {
                    if a < ss0.len() {
                        assert(self@.store.states[a] == ss0[a]);
                        assert(1 <= ss0[a].low_modseq <= ss0[a].modseq <= i64::MAX);
                    }
                }
                assert(self@.store.records =~= Seq::<RowV>::empty());
            }
            i = i + 1;
        }
        proof {
            assert(states_raw@.take(states_raw@.len() as int) =~= states_raw@);
            assert(self@.store.states == target.states);
            assert(inv_store(self@.store));
        }
        let mut k: usize = 0;
        while k < rows.len()
            invariant
                k <= rows.len(),
                target == (StoreV {
                    records: rows_v(rows@),
                    states: raw_states_v(states_raw@),
                }),
                self@.snaps.len() == 0,
                self@.store.states == target.states,
                self@.store.records == rows_v(rows@.take(k as int)),
                inv_store(self@.store),
            decreases rows.len() - k,
        {
            proof {
                assert(target.records[k as int] == rows@[k as int]@);
                assert(forall|m: int|
                    0 <= m < k ==> #[trigger] self@.store.records[m] == target.records[m]);
            }
            let id = rows[k].id.clone();
            let uid = rows[k].userid;
            let rt = rows[k].rectype;
            let ms = rows[k].modseq;
            match self.find_rec(id.as_str(), uid) {
                Some(j) => {
                    proof {
                        lemma_rec_index_char(self@.store.records, id@, uid as int);
                        assert(self@.store.records[j as int].id == id@
                            && self@.store.records[j as int].userid == uid as int);
                        assert(self@.store.records[j as int] == target.records[j as int]);
                        assert(id@ == target.records[k as int].id);
                        assert(target.records[j as int].id == target.records[k as int].id
                            && target.records[j as int].userid
                            == target.records[k as int].userid);
                        assert(!inv_store(target));
                    }
                    return Err(
                        DbError::InternalError(String::from_str("duplicate record row")),
                    );
                },
                None => {},
            }
            let cur = match self.find_state(uid, rt) {
                Some(i2) => {
                    proof {
                        assert(self@.store.states[i2 as int] == self.states@[i2 as int]@);
                    }
                    self.states[i2].modseq
                },
                None => {
                    proof {
                        assert(!has_state(target.states, target.records[k as int].userid,
                            target.records[k as int].rectype));
                        assert(!inv_store(target));
                    }
                    return Err(
                        DbError::InternalError(
                            String::from_str("record without a modseq row"),
                        ),
                    );
                },
            };
            if !(1 <= ms && ms <= cur) {
                proof {
                    assert(cur_modseq(
                        target.states,
                        target.records[k as int].userid,
                        target.records[k as int].rectype,
                    ) == cur as int);
                    assert(!(1 <= target.records[k as int].modseq <= cur_modseq(
                        target.states,
                        target.records[k as int].userid,
                        target.records[k as int].rectype,
                    )));
                    assert(!inv_store(target));
                }
                return Err(DbError::InternalError(String::from_str("corrupt record row")));
            }
            proof {
                lemma_rec_index_char(self@.store.records, id@, uid as int);
            }
            let ghost rs0 = self@.store.records;
            let row = rows[k].clone();
            let ghost rowv = row@;
            self.records.push(row);
            proof {
                assert(self@.store.records =~= rs0.push(rowv));
                assert(self@.store.records =~= rows_v(rows@.take(k as int + 1)));
                assert forall|a: int, b: int| 0 <= a < b < self@.store.records.len() implies !(
                #[trigger] self@.store.records[a].id == #[trigger] self@.store.records[b].id
                    && self@.store.records[a].userid == self@.store.records[b].userid) by {
                    if b < rs0.len() {
                        assert(!(rs0[a].id == rs0[b].id && rs0[a].userid == rs0[b].userid));
                    }
                }
                assert forall|a: int| 0 <= a < self@.store.records.len() implies has_state(
                    self@.store.states,
                    #[trigger] self@.store.records[a].userid,
                    self@.store.records[a].rectype,
                ) && 1 <= self@.store.records[a].modseq <= cur_modseq(
                    self@.store.states,
                    self@.store.records[a].userid,
                    self@.store.records[a].rectype,
                ) by {
                    if a < rs0.len() {
                        assert(self@.store.records[a] == rs0[a]);
                        assert(has_state(self@.store.states, rs0[a].userid, rs0[a].rectype));
                    } else {
                        assert(self@.store.records[a] == rowv);
                    }
                }
            }
            k = k + 1;
        }
        proof {
            assert(rows@.take(rows@.len() as int) =~= rows@);
            assert(self@.store.records == target.records);
            assert(self@.store =~= target);
        }
        Ok(())
    }

    /// The index of the bookkeeping row for `(userid, rectype)`, if any.
    fn find_state(&self, userid: i64, rectype: i32) -> (r: Option<usize>)
        ensures
            (match r {
                Some(i) => 0 <= i < self@.store.states.len() && state_index(
                    self@.store.states,
                    userid as int,
                    rectype as int,
                ) == i,
                None => state_index(self@.store.states, userid as int, rectype as int) == -1,
            }),
    {
        let ghost ss = self@.store.states;
        let mut i: usize = 0;
        while i < self.states.len()
            invariant
                i <= self.states.len(),
                ss == self@.store.states,
                ss.len() == self.states.len(),
                forall|m: int|
                    0 <= m < i ==> !(#[trigger] ss[m].userid == userid as int && ss[m].rectype
                        == rectype as int),
            decreases self.states.len() - i,
        {
            if self.states[i].userid == userid && self.states[i].rectype == rectype {
                proof {
                    lemma_state_index_found(ss, userid as int, rectype as int, i as int);
                }
                return Some(i);
            }
            i = i + 1;
        }
        proof {
            lemma_state_index_none(ss, userid as int, rectype as int);
        }
        None
    }

    /// The current state token of the collection, from the in-memory image.
    pub(crate) fn state_token(&self, userid: i64, rectype: i32) -> (s: String)
        requires
            inv_store(self@.store),
        ensures
            s@ == dec_str(cur_modseq(self@.store.states, userid as int, rectype as int)),
    {
        match self.find_state(userid, rectype) {
            Some(i) => {
                proof {
                    assert(self@.store.states[i as int] == self.states@[i as int]@);
                    assert(1 <= self@.store.states[i as int].low_modseq);
                }
                render_state(self.states[i].modseq)
            },
            None => render_state(0),
        }
    }

    /// Returns the current state token of the collection; `"0"` if the
    /// collection has never been touched. Never fails.
    pub fn get_state<R: RecordType>(&self, userid: i64) -> (r: Result<String, DbError>)
        requires
            self.inv(),
        ensures
            r matches Ok(s) && s@ == dec_str(
                cur_modseq(self@.store.states, userid as int, R::type_id()),
            ),
    {
        Ok(self.state_token(userid, R::record_type()))
    }

    /// Checks a client-supplied state token against the current state;
    /// fails with `StateMismatch` if and only if they differ.
    pub fn check_state<R: RecordType>(&self, userid: i64, state: &String) -> (r: Result<
        (),
        DbError,
    >)
        requires
            self.inv(),
        ensures
            r is Ok <==> state@ == dec_str(
                cur_modseq(self@.store.states, userid as int, R::type_id()),
            ),
            r matches Err(e) ==> e == DbError::StateMismatch,
    {
        let s = self.state_token(userid, R::record_type());
        if s == *state {
            Ok(())
        } else {
            Err(DbError::StateMismatch)
        }
    }

    /// Opens a new transaction level: a deferred transaction at the outer
    /// level, a savepoint when one is already open. The store is unchanged;
    /// a snapshot of it is pushed.
    pub fn transaction_begin(&mut self) -> (r: Result<(), DbError>)
        ensures
            r is Ok ==> final(self)@.store == old(self)@.store
                && final(self)@.snaps == old(self)@.snaps.push(old(self)@.store),
            r matches Err(e) ==> final(self)@ == old(self)@ && e matches DbError::InternalError(_),
            old(self).inv() ==> final(self).inv(),
    {
        let sqlr = if self.snaps.len() == 0 {
            sql_batch(&self.conn, "BEGIN DEFERRED")
        } else {
            sql_batch(&self.conn, "SAVEPOINT sp")
        };
        match sqlr {
            Err(e) => Err(DbError::InternalError(e)),
            Ok(()) => {
                let snap = Snapshot {
                    records: clone_rows(&self.records),
                    states: clone_states(&self.states),
                };
                self.snaps.push(snap);
                proof {
                    assert(final(self)@.snaps =~= old(self)@.snaps.push(old(self)@.store));
                }
                Ok(())
            },
        }
    }

    /// Opens the outer transaction level in the maximally isolating
    /// (write-locking) mode, used to serialize Set operations. Fails if a
    /// transaction is already open.
    pub fn exclusive_begin(&mut self) -> (r: Result<(), DbError>)
        ensures
            r is Ok ==> old(self)@.snaps.len() == 0 && final(self)@.store == old(self)@.store
                && final(self)@.snaps == old(self)@.snaps.push(old(self)@.store),
            r matches Err(e) ==> final(self)@ == old(self)@ && e matches DbError::InternalError(_),
            old(self).inv() ==> final(self).inv(),
    {
        if self.snaps.len() > 0 {
            return Err(
                DbError::InternalError(
                    String::from_str("cannot start an exclusive transaction within a transaction"),
                ),
            );
        }
        match sql_batch(&self.conn, "BEGIN EXCLUSIVE") {
            Err(e) => Err(DbError::InternalError(e)),
            Ok(()) => {
                let snap = Snapshot {
                    records: clone_rows(&self.records),
                    states: clone_states(&self.states),
                };
                self.snaps.push(snap);
                proof {
                    assert(final(self)@.snaps =~= old(self)@.snaps.push(old(self)@.store));
                }
                Ok(())
            },
        }
    }

    /// Closes the innermost transaction level, keeping its changes: commits
    /// the outer level, releases a savepoint. Fails if none is open.
    pub fn transaction_commit(&mut self) -> (r: Result<(), DbError>)
        ensures
            r is Ok ==> old(self)@.snaps.len() > 0 && final(self)@.store == old(self)@.store
                && final(self)@.snaps == old(self)@.snaps.drop_last(),
            r matches Err(e) ==> final(self)@ == old(self)@ && e matches DbError::InternalError(_),
            old(self).inv() ==> final(self).inv(),
    {
        if self.snaps.len() == 0 {
            return Err(DbError::InternalError(String::from_str("no open transaction")));
        }
        let sqlr = if self.snaps.len() == 1 {
            sql_batch(&self.conn, "COMMIT")
        } else {
            sql_batch(&self.conn, "RELEASE sp")
        };
        match sqlr {
            Err(e) => Err(DbError::InternalError(e)),
            Ok(()) => {
                let _ = self.snaps.pop();
                proof {
                    assert(final(self)@.snaps =~= old(self)@.snaps.drop_last());
                }
                Ok(())
            },
        }
    }

    /// Atomically advances the collection's modseq — initializing it to 1,
    /// with `low_modseq` 1, on first use — and returns the new state token.
    /// Called at most once per Set invocation, before any mutation, so that
    /// every record touched by that Set shares the new modseq.
    pub fn next_state<R: RecordType>(&mut self, userid: i64) -> (r: Result<String, DbError>)
        requires
            old(self).inv(),
        ensures
            final(self).inv(),
            next_state_post(old(self)@, final(self)@, userid as int, R::type_id(), r),
    {
        self.next_state_i(userid, R::record_type())
    }

    /// `next_state`, on a plain discriminant.
    #[verifier::rlimit(50)]
    fn next_state_i(&mut self, userid: i64, rectype: i32) -> (r: Result<String, DbError>)
        requires
            old(self).inv(),
        ensures
            final(self).inv(),
            next_state_post(old(self)@, final(self)@, userid as int, rectype as int, r),
    {
        let ghost u = userid as int;
        let ghost t = rectype as int;
        let ghost ss0 = old(self)@.store.states;
        match self.transaction_begin() {
            Err(e) => {
                return Err(e);
            },
            Ok(()) => {},
        }
        let found = self.find_state(userid, rectype);
        match found {
            Some(i) => {
                proof {
                    lemma_state_index_char(ss0, u, t);
                    assert(ss0[i as int] == self.states@[i as int]@);
                }
                let c = self.states[i].modseq;
                if c == i64::MAX {
                    let _ = self.transaction_rollback();
                    proof {
                        assert(self@ =~= old(self)@);
                    }
                    return Err(DbError::InternalError(String::from_str("modseq overflow")));
                }
                match sql_exec_ut(
                    &self.conn,
                    "UPDATE modseq SET modseq = modseq + 1 WHERE userid = ? AND type = ?",
                    userid,
                    rectype,
                ) {
                    Err(e) => {
                        let _ = self.transaction_rollback();
                        proof {
                            assert(self@ =~= old(self)@);
                        }
                        return Err(DbError::InternalError(e));
                    },
                    Ok(_) => {},
                }
                let mut sr = self.states[i];
                sr.modseq = c + 1;
                self.states[i] = sr;
                proof {
                    assert(self@.store.states =~= ss0.update(
                        i as int,
                        (StateV {
                            userid: u,
                            rectype: t,
                            modseq: c as int + 1,
                            low_modseq: low_modseq(ss0, u, t),
                        }),
                    ));
                    lemma_state_index_found(self@.store.states, u, t, i as int);
                    self.lemma_mutation_inv(old(self)@, u, t);
                }
                match self.transaction_commit() {
                    Err(e) => {
                        let _ = self.transaction_rollback();
                        proof {
                            assert(self@ =~= old(self)@);
                        }
                        return Err(DbError::InternalError(String::from_str("commit failed")));
                    },
                    Ok(()) => {},
                }
                proof {
                    assert(self@.snaps =~= old(self)@.snaps);
                }
                Ok(render_state(c + 1))
            },
            None => {
                proof {
                    lemma_state_index_char(ss0, u, t);
                }
                match sql_exec_ut(
                    &self.conn,
                    "INSERT INTO modseq ( userid, type, modseq, low_modseq ) VALUES ( ?, ?, 1, 1 )",
                    userid,
                    rectype,
                ) {
                    Err(e) => {
                        let _ = self.transaction_rollback();
                        proof {
                            assert(self@ =~= old(self)@);
                        }
                        return Err(DbError::InternalError(e));
                    },
                    Ok(_) => {},
                }
                self.states.push(StateRow { userid, rectype, modseq: 1, low_modseq: 1 });
                proof {
                    assert(self@.store.states =~= ss0.push(
                        (StateV { userid: u, rectype: t, modseq: 1, low_modseq: 1 }),
                    ));
                    lemma_state_index_found(self@.store.states, u, t, ss0.len() as int);
                    self.lemma_mutation_inv(old(self)@, u, t);
                }
                match self.transaction_commit() {
                    Err(e) => {
                        let _ = self.transaction_rollback();
                        proof {
                            assert(self@ =~= old(self)@);
                        }
                        return Err(DbError::InternalError(String::from_str("commit failed")));
                    },
                    Ok(()) => {},
                }
                proof {
                    assert(self@.snaps =~= old(self)@.snaps);
                }
                Ok(render_state(1))
            },
        }
    }

    /// Whether the collection can answer an incremental query since `m`:
    /// fails with `StateTooOld` when `m` precedes the floor.
    fn check_floor(&self, userid: i64, rectype: i32, m: i64) -> (r: bool)
        ensures
            r == !state_too_old(self@.store, userid as int, rectype as int, m as int),
    {
        match self.find_state(userid, rectype) {
            None => false,
            Some(i) => {
                proof {
                    assert(self@.store.states[i as int] == self.states@[i as int]@);
                }
                self.states[i].low_modseq <= m
            },
        }
    }

    /// Returns the live records of the collection, optionally restricted to
    /// a given id set, optionally restricted to rows changed after a
    /// since-state. With a since-state older than the collection's floor,
    /// fails with `StateTooOld`; otherwise never fails.
    pub fn get_records<R: RecordType>(
        &self,
        userid: i64,
        ids: Option<&Vec<String>>,
        since_state: Option<&String>,
    ) -> (r: Result<Vec<Row>, DbError>)
        requires
            self.inv(),
        ensures
            get_records_post(
                self@,
                userid as int,
                R::type_id(),
                ids_view_opt(ids),
                since_view_opt(since_state),
                r,
            ),
    {
        self.get_records_i(userid, R::record_type(), ids, since_state)
    }

    /// `get_records`, on a plain discriminant.
    #[verifier::rlimit(50)]
    fn get_records_i(
        &self,
        userid: i64,
        rectype: i32,
        ids: Option<&Vec<String>>,
        since_state: Option<&String>,
    ) -> (r: Result<Vec<Row>, DbError>)
        requires
            self.inv(),
        ensures
            get_records_post(
                self@,
                userid as int,
                rectype as int,
                ids_view_opt(ids),
                since_view_opt(since_state),
                r,
            ),
    {
        let ghost u = userid as int;
        let ghost t = rectype as int;
        let ghost idsv = ids_view_opt(ids);
        let ghost sincev = since_view_opt(since_state);
        let mut m: i64 = 0;
        let has_since = match since_state {
            Some(s) => {
                m = parse_state_str(s.as_str());
                if !self.check_floor(userid, rectype, m) {
                    return Err(DbError::StateTooOld);
                }
                true
            },
            None => false,
        };
        let ghost recs = self@.store.records;
        let mut out: Vec<Row> = Vec::new();
        let mut i: usize = 0;
        while i < self.records.len()
            invariant
                i <= self.records.len(),
                u == userid as int,
                t == rectype as int,
                recs == self@.store.records,
                recs.len() == self.records.len(),
                has_since == (since_state is Some),
                has_since ==> sincev == Some(m as int),
                !has_since ==> sincev is None,
                idsv == ids_view_opt(ids),
                rows_v(out@) == visible_rows(recs.take(i as int), u, t, idsv, sincev),
            decreases self.records.len() - i,
        {
            let ghost pre = recs.take(i as int);
            let ghost ext = recs.take(i as int + 1);
            proof {
                assert(ext.drop_last() =~= pre);
                assert(ext.last() == recs[i as int]);
                assert(recs[i as int] == self.records@[i as int]@);
            }
            let row = &self.records[i];
            proof {
                assert(row@ == recs[i as int]);
            }
            let base = row.userid == userid && row.rectype == rectype && !row.deleted;
            let ids_ok = match ids {
                Some(idv) => key_in_list(idv, row.id.as_str()),
                None => true,
            };
            let since_ok = if has_since {
                row.modseq > m
            } else {
                true
            };
            let keep = base && ids_ok && since_ok;
            proof {
                assert(base == (recs[i as int].userid == u && recs[i as int].rectype == t
                    && !recs[i as int].deleted));
                assert(ids_ok == (match idsv {
                    Some(ks) => key_in(ks, recs[i as int].id),
                    None => true,
                }));
                assert(since_ok == (match sincev {
                    Some(sm) => recs[i as int].modseq > sm,
                    None => true,
                }));
                assert(keep == row_visible(recs[i as int], u, t, idsv, sincev));
            }
            if keep {
                out.push(self.records[i].clone());
                assert(rows_v(out@) =~= visible_rows(ext, u, t, idsv, sincev));
            } else {
                assert(rows_v(out@) =~= visible_rows(ext, u, t, idsv, sincev));
            }
            i = i + 1;
        }
        proof {
            assert(recs.take(recs.len() as int) =~= recs);
        }
        Ok(out)
    }

    /// Returns the ids of records changed and removed after a since-state:
    /// live matches as changed, tombstoned matches as removed. Fails with
    /// `StateTooOld` below the collection's floor, and with
    /// `TooManyChanges` when more rows match than `max_changes` allows.
    pub fn get_record_updates<R: RecordType>(
        &self,
        userid: i64,
        since_state: &String,
        max_changes: Option<i64>,
    ) -> (r: Result<(Vec<String>, Vec<String>), DbError>)
        requires
            self.inv(),
        ensures
            get_updates_post(
                self@,
                userid as int,
                R::type_id(),
                parse_state(since_state@),
                max_view_opt(max_changes),
                r,
            ),
    {
        self.get_record_updates_i(userid, R::record_type(), since_state, max_changes)
    }

    /// `get_record_updates`, on a plain discriminant.
    #[verifier::rlimit(50)]
    fn get_record_updates_i(
        &self,
        userid: i64,
        rectype: i32,
        since_state: &String,
        max_changes: Option<i64>,
    ) -> (r: Result<(Vec<String>, Vec<String>), DbError>)
        requires
            self.inv(),
        ensures
            get_updates_post(
                self@,
                userid as int,
                rectype as int,
                parse_state(since_state@),
                max_view_opt(max_changes),
                r,
            ),
    {
        let ghost u = userid as int;
        let ghost t = rectype as int;
        let m = parse_state_str(since_state.as_str());
        if !self.check_floor(userid, rectype, m) {
            return Err(DbError::StateTooOld);
        }
        let ghost recs = self@.store.records;
        let mut changed: Vec<String> = Vec::new();
        let mut removed: Vec<String> = Vec::new();
        let mut i: usize = 0;
        while i < self.records.len()
            invariant
                i <= self.records.len(),
                u == userid as int,
                t == rectype as int,
                recs == self@.store.records,
                recs.len() == self.records.len(),
                strs_view(changed@) == changed_ids(recs.take(i as int), u, t, m as int),
                strs_view(removed@) == removed_ids(recs.take(i as int), u, t, m as int),
            decreases self.records.len() - i,
        {
            let ghost pre = recs.take(i as int);
            let ghost ext = recs.take(i as int + 1);
            proof {
                assert(ext.drop_last() =~= pre);
                assert(ext.last() == recs[i as int]);
                assert(recs[i as int] == self.records@[i as int]@);
            }
            let row = &self.records[i];
            proof {
                assert(row@ == recs[i as int]);
            }
            if row.userid == userid && row.rectype == rectype && row.modseq > m {
                if row.deleted {
                    let id = row.id.clone();
                    removed.push(id);
                } else {
                    let id = row.id.clone();
                    changed.push(id);
                }
            }
            proof {
                assert(strs_view(changed@) =~= changed_ids(ext, u, t, m as int));
                assert(strs_view(removed@) =~= removed_ids(ext, u, t, m as int));
            }
            i = i + 1;
        }
        proof {
            assert(recs.take(recs.len() as int) =~= recs);
            lemma_changed_removed_len(recs, u, t, m as int);
        }
        if let Some(mx) = max_changes {
            if mx < 0 {
                return Err(DbError::TooManyChanges);
            }
            let total = changed.len() + removed.len();
            if (total as u64) > (mx as u64) {
                return Err(DbError::TooManyChanges);
            }
        }
        Ok((changed, removed))
    }

    /// The index of the row carrying `(id, userid)`, of any type, live or
    /// tombstoned, if any.
    fn find_rec(&self, id: &str, userid: i64) -> (r: Option<usize>)
        ensures
            (match r {
                Some(i) => 0 <= i < self@.store.records.len() && rec_index(
                    self@.store.records,
                    id@,
                    userid as int,
                ) == i,
                None => rec_index(self@.store.records, id@, userid as int) == -1,
            }),
    {
        let ghost rs = self@.store.records;
        let mut i: usize = 0;
        while i < self.records.len()
            invariant
                i <= self.records.len(),
                rs == self@.store.records,
                rs.len() == self.records.len(),
                forall|m: int|
                    0 <= m < i ==> !(#[trigger] rs[m].id == id@ && rs[m].userid == userid as int),
            decreases self.records.len() - i,
        {
            proof {
                assert(rs[i as int] == self.records@[i as int]@);
            }
            if self.records[i].userid == userid && str_eq(self.records[i].id.as_str(), id) {
                proof {
                    lemma_rec_index_found(rs, id@, userid as int, i as int);
                }
                return Some(i);
            }
            i = i + 1;
        }
        proof {
            lemma_rec_index_none(rs, id@, userid as int);
        }
        None
    }

    /// The index of the live row `id` of the collection, if any.
    fn find_live(&self, userid: i64, rectype: i32, id: &str) -> (r: Option<usize>)
        ensures
            (match r {
                Some(i) => 0 <= i < self@.store.records.len() && live_index(
                    self@.store.records,
                    userid as int,
                    rectype as int,
                    id@,
                ) == i,
                None => live_index(self@.store.records, userid as int, rectype as int, id@) == -1,
            }),
    {
        let ghost rs = self@.store.records;
        let mut i: usize = 0;
        while i < self.records.len()
            invariant
                i <= self.records.len(),
                rs == self@.store.records,
                rs.len() == self.records.len(),
                forall|m: int|
                    0 <= m < i ==> !(#[trigger] rs[m].userid == userid as int && rs[m].rectype
                        == rectype as int && !rs[m].deleted && rs[m].id == id@),
            decreases self.records.len() - i,
        {
            proof {
                assert(rs[i as int] == self.records@[i as int]@);
            }
            if self.records[i].userid == userid && self.records[i].rectype == rectype
                && !self.records[i].deleted && str_eq(self.records[i].id.as_str(), id) {
                proof {
                    lemma_live_index_found(rs, userid as int, rectype as int, id@, i as int);
                }
                return Some(i);
            }
            i = i + 1;
        }
        proof {
            lemma_live_index_none(rs, userid as int, rectype as int, id@);
        }
        None
    }

    /// A store whose rows keep their identity, collection and tombstone
    /// columns within modseq bounds stays well-formed under unchanged
    /// bookkeeping.
    proof fn lemma_rows_rewrite_inv(s0: StoreV, rs1: Seq<RowV>)
        requires
            inv_store(s0),
            rs1.len() == s0.records.len(),
            forall|k: int|
                0 <= k < rs1.len() ==> #[trigger] rs1[k].id == s0.records[k].id && rs1[k].userid
                    == s0.records[k].userid && rs1[k].rectype == s0.records[k].rectype && 1 <= rs1[k].modseq
                    <= cur_modseq(s0.states, rs1[k].userid, rs1[k].rectype),
        ensures
            inv_store((StoreV { records: rs1, states: s0.states })),
    {
        let s1 = StoreV { records: rs1, states: s0.states };
        assert forall|i: int, j: int| 0 <= i < j < rs1.len() implies !(#[trigger] rs1[i].id
            == #[trigger] rs1[j].id && rs1[i].userid == rs1[j].userid) by {
            assert(!(s0.records[i].id == s0.records[j].id && s0.records[i].userid
                == s0.records[j].userid));
        }
        assert forall|k: int| 0 <= k < rs1.len() implies has_state(
            s1.states,
            #[trigger] rs1[k].userid,
            rs1[k].rectype,
        ) && 1 <= rs1[k].modseq <= cur_modseq(s1.states, rs1[k].userid, rs1[k].rectype) by {
            assert(rs1[k].id == s0.records[k].id);
            assert(has_state(s0.states, s0.records[k].userid, s0.records[k].rectype));
        }
    }

    /// Creates one record per client-supplied partial: a fresh id is
    /// assigned, the partial is applied over the type default, and the row
    /// is stamped with the collection's current modseq. Fails without
    /// effect if the collection has no bookkeeping row yet, if a generated
    /// id collides, or if the mirror write fails; per-item failures are
    /// never reported.
    pub fn create_records<R: RecordType>(&mut self, userid: i64, create: &Vec<(String, Document)>)
        -> (r: Result<(Vec<(String, String)>, Vec<(String, SetError)>), DbError>)
        requires
            old(self).inv(),
        ensures
            final(self).inv(),
            create_post(
                old(self)@,
                final(self)@,
                userid as int,
                R::type_id(),
                R::default_doc_spec(),
                pairs_view(create@),
                r,
            ),
    {
        let base = R::default_doc();
        self.create_records_i(userid, R::record_type(), &base, create)
    }

    /// `create_records`, on a plain discriminant and default document.
    #[verifier::rlimit(50)]
    fn create_records_i(
        &mut self,
        userid: i64,
        rectype: i32,
        base: &Document,
        create: &Vec<(String, Document)>,
    ) -> (r: Result<(Vec<(String, String)>, Vec<(String, SetError)>), DbError>)
        requires
            old(self).inv(),
        ensures
            final(self).inv(),
            create_post(
                old(self)@,
                final(self)@,
                userid as int,
                rectype as int,
                base@,
                pairs_view(create@),
                r,
            ),
    {
        let ghost u = userid as int;
        let ghost t = rectype as int;
        let ghost pre = old(self)@;
        let ghost crs = pairs_view(create@);
        match self.transaction_begin() {
            Err(e) => {
                return Err(e);
            },
            Ok(()) => {},
        }
        let cur = match self.find_state(userid, rectype) {
            Some(i) => {
                proof {
                    assert(self@.store.states[i as int] == self.states@[i as int]@);
                    assert(1 <= self@.store.states[i as int].low_modseq);
                }
                self.states[i].modseq
            },
            None => {
                let _ = self.transaction_rollback();
                proof {
                    assert(self@ =~= old(self)@);
                }
                return Err(
                    DbError::InternalError(String::from_str("collection has no modseq row")),
                );
            },
        };
        let ghost mq = cur_modseq(pre.store.states, u, t);
        proof {
            assert(1 <= cur as int && cur as int == mq);
        }
        let mut created: Vec<(String, String)> = Vec::new();
        let mut k: usize = 0;
        while k < create.len()
            invariant
                k <= create.len(),
                u == userid as int,
                t == rectype as int,
                cur as int == mq,
                1 <= mq,
                mq == cur_modseq(pre.store.states, u, t),
                has_state(pre.store.states, u, t),
                crs == pairs_view(create@),
                crs.len() == create.len(),
                pre == old(self)@,
                inv_db(self@),
                self@.snaps == pre.snaps.push(pre.store),
                self@.store.states == pre.store.states,
                created@.len() == k,
                self@.store.records.len() == pre.store.records.len() + k,
                self@.store.records.take(pre.store.records.len() as int) == pre.store.records,
                forall|j: int|
                    0 <= j < k ==> {
                        let row = self@.store.records[pre.store.records.len() + j];
                        &&& (#[trigger] created@[j]).0@ == crs[j].0
                        &&& created@[j].1@ == row.id
                        &&& row == created_row(u, t, mq, row.id, base@, crs[j].1)
                        &&& rec_index(pre.store.records, row.id, u) == -1
                    },
            decreases create.len() - k,
        {
            let id = fresh_id();
            match self.find_rec(id.as_str(), userid) {
                Some(_) => {
                    let _ = self.transaction_rollback();
                    proof {
                        assert(self@ =~= old(self)@);
                    }
                    return Err(
                        DbError::InternalError(String::from_str("generated id already in use")),
                    );
                },
                None => {},
            }
            proof {
                lemma_rec_index_char(self@.store.records, id@, u);
            }
            let doc = base.merged_with(&create[k].1);
            let json = doc.encode();
            match sql_exec_insert(
                &self.conn,
                "INSERT INTO records ( id, userid, type, modseq, deleted, json ) VALUES ( ?, ?, ?, ?, 0, ? )",
                id.as_str(),
                userid,
                rectype,
                cur,
                json.as_str(),
            ) {
                Err(e) => {
                    let _ = self.transaction_rollback();
                    proof {
                        assert(self@ =~= old(self)@);
                    }
                    return Err(DbError::InternalError(e));
                },
                Ok(_) => {},
            }
            let ghost rs_before = self@.store.records;
            let row = Row {
                id: id.clone(),
                userid,
                rectype,
                modseq: cur,
                deleted: false,
                doc,
            };
            let ghost rowv = row@;
            self.records.push(row);
            created.push((create[k].0.clone(), id));
            proof {
                assert(self@.store.records =~= rs_before.push(rowv));
                assert(self@.store.records.take(pre.store.records.len() as int)
                    =~= rs_before.take(pre.store.records.len() as int));
                assert forall|m: int| 0 <= m < rs_before.len() implies !(
                #[trigger] rs_before[m].id == rowv.id && rs_before[m].userid == u) by {}
                assert forall|a: int, b: int| 0 <= a < b < self@.store.records.len() implies !(
                #[trigger] self@.store.records[a].id == #[trigger] self@.store.records[b].id
                    && self@.store.records[a].userid == self@.store.records[b].userid) by {
                    if b < rs_before.len() {
                        assert(!(rs_before[a].id == rs_before[b].id && rs_before[a].userid
                            == rs_before[b].userid));
                    }
                }
                assert forall|a: int| 0 <= a < self@.store.records.len() implies has_state(
                    self@.store.states,
                    #[trigger] self@.store.records[a].userid,
                    self@.store.records[a].rectype,
                ) && 1 <= self@.store.records[a].modseq <= cur_modseq(
                    self@.store.states,
                    self@.store.records[a].userid,
                    self@.store.records[a].rectype,
                ) by {
                    if a < rs_before.len() {
                        assert(self@.store.records[a] == rs_before[a]);
                        assert(has_state(self@.store.states, rs_before[a].userid,
                            rs_before[a].rectype));
                    } else {
                        assert(self@.store.records[a] == rowv);
                    }
                }
                lemma_rec_index_char(pre.store.records, rowv.id, u);
                assert forall|m: int| 0 <= m < pre.store.records.len() implies !(
                #[trigger] pre.store.records[m].id == rowv.id && pre.store.records[m].userid
                    == u) by {
                    assert(pre.store.records[m] == rs_before[m]);
                }
                lemma_rec_index_none(pre.store.records, rowv.id, u);
            }
            k = k + 1;
        }
        match self.transaction_commit() {
            Err(e) => {
                let _ = self.transaction_rollback();
                proof {
                    assert(self@ =~= old(self)@);
                }
                return Err(DbError::InternalError(String::from_str("commit failed")));
            },
            Ok(()) => {},
        }
        proof {
            assert(self@.snaps =~= pre.snaps);
        }
        let not_created: Vec<(String, SetError)> = Vec::new();
        Ok((created, not_created))
    }

    /// Updates one record per `(id, partial)` pair: the partial is merged
    /// into the named live record, which is re-stamped with the collection's
    /// current modseq. An id naming no live record is reported as not found.
    /// Fails without effect if the mirror write fails.
    pub fn update_records<R: RecordType>(&mut self, userid: i64, update: &Vec<(String, Document)>)
        -> (r: Result<(Vec<String>, Vec<(String, SetError)>), DbError>)
        requires
            old(self).inv(),
        ensures
            final(self).inv(),
            update_post(
                old(self)@,
                final(self)@,
                userid as int,
                R::type_id(),
                pairs_view(update@),
                r,
            ),
    {
        self.update_records_i(userid, R::record_type(), update)
    }

    /// `update_records`, on a plain discriminant.
    #[verifier::rlimit(50)]
    fn update_records_i(
        &mut self,
        userid: i64,
        rectype: i32,
        update: &Vec<(String, Document)>,
    ) -> (r: Result<(Vec<String>, Vec<(String, SetError)>), DbError>)
        requires
            old(self).inv(),
        ensures
            final(self).inv(),
            update_post(
                old(self)@,
                final(self)@,
                userid as int,
                rectype as int,
                pairs_view(update@),
                r,
            ),
    {
        let ghost u = userid as int;
        let ghost t = rectype as int;
        let ghost pre = old(self)@;
        let ghost ups = pairs_view(update@);
        let ghost mq = cur_modseq(pre.store.states, u, t);
        match self.transaction_begin() {
            Err(e) => {
                return Err(e);
            },
            Ok(()) => {},
        }
        let cur = match self.find_state(userid, rectype) {
            Some(i) => {
                proof {
                    assert(self@.store.states[i as int] == self.states@[i as int]@);
                    assert(1 <= self@.store.states[i as int].low_modseq);
                }
                self.states[i].modseq
            },
            None => 0,
        };
        proof {
            assert(cur as int == mq);
        }
        let mut updated: Vec<String> = Vec::new();
        let mut not_updated: Vec<(String, SetError)> = Vec::new();
        let mut k: usize = 0;
        while k < update.len()
            invariant
                k <= update.len(),
                u == userid as int,
                t == rectype as int,
                cur as int == mq,
                mq == cur_modseq(pre.store.states, u, t),
                ups == pairs_view(update@),
                ups.len() == update.len(),
                pre == old(self)@,
                inv_db(self@),
                self@.snaps == pre.snaps.push(pre.store),
                self@.store.states == pre.store.states,
                self@.store.records == apply_updates(pre.store.records, u, t, ups.take(k as int), mq),
                strs_view(updated@) == updated_ids(pre.store.records, u, t, ups.take(k as int), mq),
                not_updated@.len() == missing_ids(
                    pre.store.records,
                    u,
                    t,
                    ups.take(k as int),
                    mq,
                ).len(),
                forall|j: int|
                    0 <= j < not_updated@.len() ==> (#[trigger] not_updated@[j]).0@ == missing_ids(
                        pre.store.records,
                        u,
                        t,
                        ups.take(k as int),
                        mq,
                    )[j] && not_updated@[j].1 == SetError::NotFound,
            decreases update.len() - k,
        {
            proof {
                assert(ups.take(k as int).push(ups[k as int]) =~= ups.take(k as int + 1));
                lemma_updates_push(pre.store.records, u, t, ups.take(k as int), ups[k as int], mq);
            }
            let id = &update[k].0;
            proof {
                assert(ups[k as int] == (update@[k as int].0@, update@[k as int].1@));
            }
            match self.find_live(userid, rectype, id.as_str()) {
                Some(j) => {
                    let ghost rs_before = self@.store.records;
                    proof {
                        assert(rs_before[j as int] == self.records@[j as int]@);
                        assert(1 <= rs_before[j as int].modseq <= cur_modseq(
                            self@.store.states,
                            rs_before[j as int].userid,
                            rs_before[j as int].rectype,
                        ));
                        lemma_live_index_char(rs_before, u, t, update@[k as int].0@);
                        lemma_state_index_char(pre.store.states, u, t);
                    }
                    let nd = self.records[j].doc.merged_with(&update[k].1);
                    let json = nd.encode();
                    match sql_exec_rewrite(
                        &self.conn,
                        "UPDATE records SET modseq = ?, json = ? WHERE userid = ? AND type = ? AND id = ?",
                        cur,
                        json.as_str(),
                        userid,
                        rectype,
                        id.as_str(),
                    ) {
                        Err(e) => {
                            let _ = self.transaction_rollback();
                            proof {
                                assert(self@ =~= old(self)@);
                            }
                            return Err(DbError::InternalError(e));
                        },
                        Ok(_) => {},
                    }
                    let mut row = self.records[j].clone();
                    row.doc = nd;
                    row.modseq = cur;
                    let ghost rowv = row@;
                    self.records[j] = row;
                    updated.push(id.clone());
                    proof {
                        assert(self@.store.records =~= upd_one(
                            rs_before,
                            u,
                            t,
                            ups[k as int].0,
                            ups[k as int].1,
                            mq,
                        ));
                        assert(strs_view(updated@) =~= updated_ids(
                            pre.store.records,
                            u,
                            t,
                            ups.take(k as int + 1),
                            mq,
                        ));
                        assert forall|a: int| 0 <= a < self@.store.records.len() implies
                        #[trigger] self@.store.records[a].id == rs_before[a].id
                            && self@.store.records[a].userid == rs_before[a].userid
                            && self@.store.records[a].rectype == rs_before[a].rectype && 1
                            <= self@.store.records[a].modseq <= cur_modseq(
                            pre.store.states,
                            self@.store.records[a].userid,
                            self@.store.records[a].rectype,
                        ) by {
                            assert(has_state(pre.store.states, rs_before[a].userid,
                                rs_before[a].rectype));
                        }
                        Self::lemma_rows_rewrite_inv(
                            (StoreV { records: rs_before, states: pre.store.states }),
                            self@.store.records,
                        );
                    }
                },
                None => {
                    not_updated.push((id.clone(), SetError::NotFound));
                    proof {
                        assert(self@.store.records == apply_updates(
                            pre.store.records,
                            u,
                            t,
                            ups.take(k as int + 1),
                            mq,
                        ));
                        assert(strs_view(updated@) =~= updated_ids(
                            pre.store.records,
                            u,
                            t,
                            ups.take(k as int + 1),
                            mq,
                        ));
                        assert(missing_ids(pre.store.records, u, t, ups.take(k as int + 1), mq)
                            =~= missing_ids(pre.store.records, u, t, ups.take(k as int), mq).push(
                            ups[k as int].0,
                        ));
                    }
                },
            }
            k = k + 1;
        }
        proof {
            assert(ups.take(ups.len() as int) =~= ups);
        }
        match self.transaction_commit() {
            Err(e) => {
                let _ = self.transaction_rollback();
                proof {
                    assert(self@ =~= old(self)@);
                }
                return Err(DbError::InternalError(String::from_str("commit failed")));
            },
            Ok(()) => {},
        }
        proof {
            assert(self@.snaps =~= pre.snaps);
        }
        Ok((updated, not_updated))
    }

    /// Tombstones one record per given id, re-stamping it with the
    /// collection's current modseq, and reports exactly the ids that had a
    /// live record; destroying an id without one is a silent no-op. Fails
    /// without effect if the mirror write fails.
    pub fn destroy_records<R: RecordType>(&mut self, userid: i64, destroy: &Vec<String>) -> (r:
        Result<(Vec<String>, Vec<(String, SetError)>), DbError>)
        requires
            old(self).inv(),
        ensures
            final(self).inv(),
            destroy_post(
                old(self)@,
                final(self)@,
                userid as int,
                R::type_id(),
                strs_view(destroy@),
                r,
            ),
    {
        self.destroy_records_i(userid, R::record_type(), destroy)
    }

    /// `destroy_records`, on a plain discriminant.
    #[verifier::rlimit(50)]
    fn destroy_records_i(&mut self, userid: i64, rectype: i32, destroy: &Vec<String>) -> (r:
        Result<(Vec<String>, Vec<(String, SetError)>), DbError>)
        requires
            old(self).inv(),
        ensures
            final(self).inv(),
            destroy_post(
                old(self)@,
                final(self)@,
                userid as int,
                rectype as int,
                strs_view(destroy@),
                r,
            ),
    {
        let ghost u = userid as int;
        let ghost t = rectype as int;
        let ghost pre = old(self)@;
        let ghost dst = strs_view(destroy@);
        let ghost mq = cur_modseq(pre.store.states, u, t);
        match self.transaction_begin() {
            Err(e) => {
                return Err(e);
            },
            Ok(()) => {},
        }
        let cur = match self.find_state(userid, rectype) {
            Some(i) => {
                proof {
                    assert(self@.store.states[i as int] == self.states@[i as int]@);
                    assert(1 <= self@.store.states[i as int].low_modseq);
                }
                self.states[i].modseq
            },
            None => 0,
        };
        proof {
            assert(cur as int == mq);
        }
        let mut destroyed: Vec<String> = Vec::new();
        let mut k: usize = 0;
        while k < destroy.len()
            invariant
                k <= destroy.len(),
                u == userid as int,
                t == rectype as int,
                cur as int == mq,
                mq == cur_modseq(pre.store.states, u, t),
                dst == strs_view(destroy@),
                dst.len() == destroy.len(),
                pre == old(self)@,
                inv_db(self@),
                self@.snaps == pre.snaps.push(pre.store),
                self@.store.states == pre.store.states,
                self@.store.records == apply_destroys(
                    pre.store.records,
                    u,
                    t,
                    dst.take(k as int),
                    mq,
                ),
                strs_view(destroyed@) == destroyed_ids(
                    pre.store.records,
                    u,
                    t,
                    dst.take(k as int),
                    mq,
                ),
            decreases destroy.len() - k,
        {
            proof {
                assert(dst.take(k as int).push(dst[k as int]) =~= dst.take(k as int + 1));
                lemma_destroys_push(pre.store.records, u, t, dst.take(k as int), dst[k as int], mq);
                assert(dst[k as int] == destroy@[k as int]@);
            }
            let id = &destroy[k];
            match self.find_live(userid, rectype, id.as_str()) {
                Some(j) => {
                    let ghost rs_before = self@.store.records;
                    proof {
                        assert(rs_before[j as int] == self.records@[j as int]@);
                        assert(1 <= rs_before[j as int].modseq <= cur_modseq(
                            self@.store.states,
                            rs_before[j as int].userid,
                            rs_before[j as int].rectype,
                        ));
                        lemma_live_index_char(rs_before, u, t, destroy@[k as int]@);
                        lemma_state_index_char(pre.store.states, u, t);
                    }
                    match sql_exec_stamp(
                        &self.conn,
                        "UPDATE records SET deleted = 1, modseq = ? WHERE userid = ? AND type = ? AND id = ? AND deleted = 0",
                        cur,
                        userid,
                        rectype,
                        id.as_str(),
                    ) {
                        Err(e) => {
                            let _ = self.transaction_rollback();
                            proof {
                                assert(self@ =~= old(self)@);
                            }
                            return Err(DbError::InternalError(e));
                        },
                        Ok(_) => {},
                    }
                    let mut row = self.records[j].clone();
                    row.deleted = true;
                    row.modseq = cur;
                    self.records[j] = row;
                    destroyed.push(id.clone());
                    proof {
                        assert(self@.store.records =~= del_one(
                            rs_before,
                            u,
                            t,
                            dst[k as int],
                            mq,
                        ));
                        assert(strs_view(destroyed@) =~= destroyed_ids(
                            pre.store.records,
                            u,
                            t,
                            dst.take(k as int + 1),
                            mq,
                        ));
                        assert forall|a: int| 0 <= a < self@.store.records.len() implies
                        #[trigger] self@.store.records[a].id == rs_before[a].id
                            && self@.store.records[a].userid == rs_before[a].userid
                            && self@.store.records[a].rectype == rs_before[a].rectype && 1
                            <= self@.store.records[a].modseq <= cur_modseq(
                            pre.store.states,
                            self@.store.records[a].userid,
                            self@.store.records[a].rectype,
                        ) by {
                            assert(has_state(pre.store.states, rs_before[a].userid,
                                rs_before[a].rectype));
                        }
                        Self::lemma_rows_rewrite_inv(
                            (StoreV { records: rs_before, states: pre.store.states }),
                            self@.store.records,
                        );
                    }
                },
                None => {
                    proof {
                        assert(self@.store.records == apply_destroys(
                            pre.store.records,
                            u,
                            t,
                            dst.take(k as int + 1),
                            mq,
                        ));
                        assert(strs_view(destroyed@) =~= destroyed_ids(
                            pre.store.records,
                            u,
                            t,
                            dst.take(k as int + 1),
                            mq,
                        ));
                    }
                },
            }
            k = k + 1;
        }
        proof {
            assert(dst.take(dst.len() as int) =~= dst);
        }
        match self.transaction_commit() {
            Err(e) => {
                let _ = self.transaction_rollback();
                proof {
                    assert(self@ =~= old(self)@);
                }
                return Err(DbError::InternalError(String::from_str("commit failed")));
            },
            Ok(()) => {},
        }
        proof {
            assert(self@.snaps =~= pre.snaps);
        }
        let not_destroyed: Vec<(String, SetError)> = Vec::new();
        Ok((destroyed, not_destroyed))
    }

    /// Replacing (or adding) the `(u, t)` bookkeeping row leaves every other
    /// collection's bookkeeping untouched.
    proof fn lemma_untouched_collection(
        ss0: Seq<StateV>,
        ss1: Seq<StateV>,
        nv: StateV,
        u: int,
        t: int,
        u2: int,
        t2: int,
    )
        requires
            nv.userid == u,
            nv.rectype == t,
            ss1 == (if state_index(ss0, u, t) >= 0 {
                ss0.update(state_index(ss0, u, t), nv)
            } else {
                ss0.push(nv)
            }),
            !(u2 == u && t2 == t),
        ensures
            state_index(ss1, u2, t2) == state_index(ss0, u2, t2),
            cur_modseq(ss1, u2, t2) == cur_modseq(ss0, u2, t2),
            low_modseq(ss1, u2, t2) == low_modseq(ss0, u2, t2),
    {
        lemma_state_index_char(ss0, u, t);
        lemma_state_index_bounds(ss0, u, t);
        let idx = state_index(ss0, u, t);
        assert forall|m: int| 0 <= m < ss0.len() implies #[trigger] ss1[m].userid == ss0[m].userid
            && ss1[m].rectype == ss0[m].rectype && (m != idx ==> ss1[m] == ss0[m]) by {}
        lemma_state_index_char(ss0, u2, t2);
        lemma_state_index_bounds(ss0, u2, t2);
        let i2 = state_index(ss0, u2, t2);
        if i2 >= 0 {
            assert(i2 != idx);
            assert(ss1[i2] == ss0[i2]);
            assert forall|m: int| 0 <= m < i2 implies !(#[trigger] ss1[m].userid == u2
                && ss1[m].rectype == t2) by {
                assert(ss1[m].userid == ss0[m].userid && ss1[m].rectype == ss0[m].rectype);
            }
            lemma_state_index_found(ss1, u2, t2, i2);
        } else {
            assert forall|m: int| 0 <= m < ss1.len() implies !(#[trigger] ss1[m].userid == u2
                && ss1[m].rectype == t2) by {
                if m < ss0.len() {
                    assert(ss1[m].userid == ss0[m].userid && ss1[m].rectype == ss0[m].rectype);
                } else {
                    assert(ss1[m] == nv);
                }
            }
            lemma_state_index_none(ss1, u2, t2);
        }
    }

    /// After a state bump the whole store is still well-formed: only the
    /// `(u, t)` bookkeeping row moved, upward, and every other collection
    /// reads exactly as before.
    proof fn lemma_mutation_inv(&self, pre: DbV, u: int, t: int)
        requires
            inv_db(pre),
            self@.snaps.len() > 0,
            self@.snaps == pre.snaps.push(pre.store),
            self@.store.records == pre.store.records,
            (if has_state(pre.store.states, u, t) {
                self@.store.states == pre.store.states.update(
                    state_index(pre.store.states, u, t),
                    (StateV {
                        userid: u,
                        rectype: t,
                        modseq: cur_modseq(pre.store.states, u, t) + 1,
                        low_modseq: low_modseq(pre.store.states, u, t),
                    }),
                )
            } else {
                self@.store.states == pre.store.states.push(
                    (StateV { userid: u, rectype: t, modseq: 1, low_modseq: 1 }),
                )
            }),
            cur_modseq(pre.store.states, u, t) < i64::MAX,
        ensures
            inv_db(self@),
            forall|u2: int, t2: int|
                !(u2 == u && t2 == t) ==> #[trigger] cur_modseq(self@.store.states, u2, t2)
                    == cur_modseq(pre.store.states, u2, t2),
            forall|u2: int, t2: int|
                !(u2 == u && t2 == t) ==> #[trigger] low_modseq(self@.store.states, u2, t2)
                    == low_modseq(pre.store.states, u2, t2),
    {
        let ss0 = pre.store.states;
        let ss1 = self@.store.states;
        lemma_state_index_char(ss0, u, t);
        lemma_state_index_bounds(ss0, u, t);
        let idx = state_index(ss0, u, t);
        // Every slot keeps its keys; every slot but the touched one keeps
        // its whole row.
        assert(ss1.len() == if idx >= 0 { ss0.len() } else { ss0.len() + 1 });
        assert forall|m: int| 0 <= m < ss0.len() implies #[trigger] ss1[m].userid == ss0[m].userid
            && ss1[m].rectype == ss0[m].rectype && (m != idx ==> ss1[m] == ss0[m]) by {}
        let nv = if idx >= 0 {
            StateV {
                userid: u,
                rectype: t,
                modseq: cur_modseq(ss0, u, t) + 1,
                low_modseq: low_modseq(ss0, u, t),
            }
        } else {
            StateV { userid: u, rectype: t, modseq: 1, low_modseq: 1 }
        };
        assert forall|u2: int, t2: int| !(u2 == u && t2 == t) implies #[trigger] cur_modseq(
            ss1,
            u2,
            t2,
        ) == cur_modseq(ss0, u2, t2) by {
            Self::lemma_untouched_collection(ss0, ss1, nv, u, t, u2, t2);
        }
        assert forall|u2: int, t2: int| !(u2 == u && t2 == t) implies #[trigger] low_modseq(
            ss1,
            u2,
            t2,
        ) == low_modseq(ss0, u2, t2) by {
            Self::lemma_untouched_collection(ss0, ss1, nv, u, t, u2, t2);
        }
        // One bookkeeping row per collection, still.
        assert forall|a: int, b: int| 0 <= a < b < ss1.len() implies !(#[trigger] ss1[a].userid
            == #[trigger] ss1[b].userid && ss1[a].rectype == ss1[b].rectype) by {
            if b < ss0.len() {
                assert(!(ss0[a].userid == ss0[b].userid && ss0[a].rectype == ss0[b].rectype));
            } else {
                assert(ss1[b].userid == u && ss1[b].rectype == t);
                assert(idx == -1);
                assert(ss1[a].userid == ss0[a].userid && ss1[a].rectype == ss0[a].rectype);
                assert(!(ss0[a].userid == u && ss0[a].rectype == t));
            }
        }
        assert forall|k: int| 0 <= k < ss1.len() implies 1 <= #[trigger] ss1[k].low_modseq
            <= ss1[k].modseq <= i64::MAX by {
            if k < ss0.len() && k != idx {
                assert(1 <= ss0[k].low_modseq <= ss0[k].modseq <= i64::MAX);
            }
        }
        assert forall|k: int| 0 <= k < self@.store.records.len() implies has_state(
            ss1,
            #[trigger] self@.store.records[k].userid,
            self@.store.records[k].rectype,
        ) && 1 <= self@.store.records[k].modseq <= cur_modseq(
            ss1,
            self@.store.records[k].userid,
            self@.store.records[k].rectype,
        ) by {
            let r = pre.store.records[k];
            assert(has_state(ss0, r.userid, r.rectype));
            assert(1 <= r.modseq <= cur_modseq(ss0, r.userid, r.rectype));
            if r.userid == u && r.rectype == t {
                let i1 = if idx >= 0 {
                    idx
                } else {
                    ss0.len() as int
                };
                assert forall|m: int| 0 <= m < i1 implies !(#[trigger] ss1[m].userid == u
                    && ss1[m].rectype == t) by {
                    assert(ss1[m].userid == ss0[m].userid && ss1[m].rectype == ss0[m].rectype);
                }
                lemma_state_index_found(ss1, u, t, i1);
            } else {
                Self::lemma_untouched_collection(ss0, ss1, nv, u, t, r.userid, r.rectype);
            }
        }
        assert forall|i: int| 0 <= i < self@.snaps.len() implies inv_store(
            #[trigger] self@.snaps[i],
        ) by {
            if i < pre.snaps.len() {
                assert(inv_store(pre.snaps[i]));
            }
        }
    }

    /// Closes the innermost transaction level, discarding its changes: the
    /// store is restored from the snapshot whether or not the underlying
    /// rollback succeeds. Fails if no transaction is open.
    pub fn transaction_rollback(&mut self) -> (r: Result<(), DbError>)
        ensures
            old(self)@.snaps.len() == 0 ==> r is Err && final(self)@ == old(self)@,
            old(self)@.snaps.len() > 0 ==> final(self)@.store == old(self)@.snaps.last()
                && final(self)@.snaps == old(self)@.snaps.drop_last(),
            r matches Err(e) ==> e matches DbError::InternalError(_),
            old(self).inv() ==> final(self).inv(),
    {
        if self.snaps.len() == 0 {
            return Err(DbError::InternalError(String::from_str("no open transaction")));
        }
        let nested = self.snaps.len() > 1;
        let snap = match self.snaps.pop() {
            Some(s) => s,
            None => {
                return Err(DbError::InternalError(String::from_str("no open transaction")));
            },
        };
        self.records = snap.records;
        self.states = snap.states;
        proof {
            assert(self@.snaps =~= old(self)@.snaps.drop_last());
            if inv_db(old(self)@) {
                assert(inv_store(old(self)@.snaps[old(self)@.snaps.len() - 1]));
                assert forall|i: int| 0 <= i < self@.snaps.len() implies inv_store(
                    self@.snaps[i],
                ) by {
                    assert(self@.snaps[i] == old(self)@.snaps[i]);
                }
            }
        }
        let sqlr = if nested {
            sql_batch(&self.conn, "ROLLBACK TO sp")
        } else {
            sql_batch(&self.conn, "ROLLBACK")
        };
        match sqlr {
            Err(e) => Err(DbError::InternalError(e)),
            Ok(()) => Ok(()),
        }
    }
}

} // verus!
