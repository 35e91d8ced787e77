//! The logical content of the record store, and its mathematical model.
//!
//! One physical relation holds every record of every type, keyed uniquely by
//! `(id, userid)` and partitioned logically by `(userid, type)`; a second
//! relation holds one modseq bookkeeping row per `(userid, type)`. The specs
//! here define lookups, the visible-row filters behind the read operations,
//! and the row transformations behind the write operations.

use vstd::prelude::*;
use crate::document::{doc_merge, key_in, Document, DocV};

verus! {

/// One stored record row.
pub struct Row {
    pub id: String,
    pub userid: i64,
    pub rectype: i32,
    pub modseq: i64,
    pub deleted: bool,
    pub doc: Document,
}

/// One modseq bookkeeping row: the current version of a collection and the
/// floor below which incremental change queries cannot be served.
#[derive(Clone, Copy)]
pub struct StateRow {
    pub userid: i64,
    pub rectype: i32,
    pub modseq: i64,
    pub low_modseq: i64,
}

/// The mathematical value of a record row.
#[verifier::ext_equal]
pub ghost struct RowV {
    pub id: Seq<char>,
    pub userid: int,
    pub rectype: int,
    pub modseq: int,
    pub deleted: bool,
    pub doc: DocV,
}

/// The mathematical value of a modseq bookkeeping row.
#[verifier::ext_equal]
pub ghost struct StateV {
    pub userid: int,
    pub rectype: int,
    pub modseq: int,
    pub low_modseq: int,
}

/// The mathematical value of the whole store.
#[verifier::ext_equal]
pub ghost struct StoreV {
    pub records: Seq<RowV>,
    pub states: Seq<StateV>,
}

impl View for Row {
    type V = RowV;

    open spec fn view(&self) -> RowV {
        RowV {
            id: self.id@,
            userid: self.userid as int,
            rectype: self.rectype as int,
            modseq: self.modseq as int,
            deleted: self.deleted,
            doc: self.doc@,
        }
    }
}

impl View for StateRow {
    type V = StateV;

    open spec fn view(&self) -> StateV {
        StateV {
            userid: self.userid as int,
            rectype: self.rectype as int,
            modseq: self.modseq as int,
            low_modseq: self.low_modseq as int,
        }
    }
}

impl Clone for Row {
    /// Clones the row; the copy has the same mathematical value.
    fn clone(&self) -> (r: Row)
        ensures
            r@ == self@,
    {
        Row {
            id: self.id.clone(),
            userid: self.userid,
            rectype: self.rectype,
            modseq: self.modseq,
            deleted: self.deleted,
            doc: self.doc.clone(),
        }
    }
}

/// The views of a list of record rows.
pub open spec fn rows_v(rs: Seq<Row>) -> Seq<RowV> {
    rs.map_values(|r: Row| r@)
}

/// The views of a list of bookkeeping rows.
pub open spec fn states_v(ss: Seq<StateRow>) -> Seq<StateV> {
    ss.map_values(|s: StateRow| s@)
}

/// The index of the bookkeeping row for `(u, t)`, or -1 if there is none.
pub open spec fn state_index(ss: Seq<StateV>, u: int, t: int) -> int
    decreases ss.len(),
{
    if ss.len() == 0 {
        -1
    } else if ss[0].userid == u && ss[0].rectype == t {
        0
    } else {
        let rest = state_index(ss.drop_first(), u, t);
        if rest == -1 {
            -1
        } else {
            rest + 1
        }
    }
}

/// Whether the collection `(u, t)` has ever been touched.
pub open spec fn has_state(ss: Seq<StateV>, u: int, t: int) -> bool {
    state_index(ss, u, t) >= 0
}

/// The current modseq of the collection `(u, t)`; 0 if never touched.
pub open spec fn cur_modseq(ss: Seq<StateV>, u: int, t: int) -> int {
    if has_state(ss, u, t) {
        ss[state_index(ss, u, t)].modseq
    } else {
        0
    }
}

/// The change-tracking floor of the collection `(u, t)`; 0 if never touched.
pub open spec fn low_modseq(ss: Seq<StateV>, u: int, t: int) -> int {
    if has_state(ss, u, t) {
        ss[state_index(ss, u, t)].low_modseq
    } else {
        0
    }
}

/// The index of the row with `(id, u)`, tombstoned or not, of any type;
/// -1 if there is none.
pub open spec fn rec_index(rs: Seq<RowV>, id: Seq<char>, u: int) -> int
    decreases rs.len(),
{
    if rs.len() == 0 {
        -1
    } else if rs[0].id == id && rs[0].userid == u {
        0
    } else {
        let rest = rec_index(rs.drop_first(), id, u);
        if rest == -1 {
            -1
        } else {
            rest + 1
        }
    }
}

/// The index of the live (non-tombstoned) row `id` of the collection `(u, t)`;
/// -1 if there is none.
pub open spec fn live_index(rs: Seq<RowV>, u: int, t: int, id: Seq<char>) -> int
    decreases rs.len(),
{
    if rs.len() == 0 {
        -1
    } else if rs[0].userid == u && rs[0].rectype == t && !rs[0].deleted && rs[0].id == id {
        0
    } else {
        let rest = live_index(rs.drop_first(), u, t, id);
        if rest == -1 {
            -1
        } else {
            rest + 1
        }
    }
}

/// Whether a row is returned by a read of the collection `(u, t)` with the
/// given optional id filter and optional since-state filter.
pub open spec fn row_visible(
    r: RowV,
    u: int,
    t: int,
    ids: Option<Seq<Seq<char>>>,
    since: Option<int>,
) -> bool {
    &&& r.userid == u
    &&& r.rectype == t
    &&& !r.deleted
    &&& (match ids {
        Some(ks) => key_in(ks, r.id),
        None => true,
    })
    &&& (match since {
        Some(m) => r.modseq > m,
        None => true,
    })
}

/// The rows a read of the collection `(u, t)` returns, in storage order.
pub open spec fn visible_rows(
    rs: Seq<RowV>,
    u: int,
    t: int,
    ids: Option<Seq<Seq<char>>>,
    since: Option<int>,
) -> Seq<RowV>
    decreases rs.len(),
{
    if rs.len() == 0 {
        Seq::empty()
    } else {
        let rest = visible_rows(rs.drop_last(), u, t, ids, since);
        if row_visible(rs.last(), u, t, ids, since) {
            rest.push(rs.last())
        } else {
            rest
        }
    }
}

/// The ids of live rows of `(u, t)` changed after `m`, in storage order.
pub open spec fn changed_ids(rs: Seq<RowV>, u: int, t: int, m: int) -> Seq<Seq<char>>
    decreases rs.len(),
{
    if rs.len() == 0 {
        Seq::empty()
    } else {
        let rest = changed_ids(rs.drop_last(), u, t, m);
        let r = rs.last();
        if r.userid == u && r.rectype == t && !r.deleted && r.modseq > m {
            rest.push(r.id)
        } else {
            rest
        }
    }
}

/// The ids of tombstoned rows of `(u, t)` changed after `m`, in storage order.
pub open spec fn removed_ids(rs: Seq<RowV>, u: int, t: int, m: int) -> Seq<Seq<char>>
    decreases rs.len(),
{
    if rs.len() == 0 {
        Seq::empty()
    } else {
        let rest = removed_ids(rs.drop_last(), u, t, m);
        let r = rs.last();
        if r.userid == u && r.rectype == t && r.deleted && r.modseq > m {
            rest.push(r.id)
        } else {
            rest
        }
    }
}

/// The row a create appends: the partial merged over the type default,
/// stamped with the collection's current modseq, live.
pub open spec fn created_row(
    u: int,
    t: int,
    m: int,
    id: Seq<char>,
    base: DocV,
    props: DocV,
) -> RowV {
    RowV { id: id, userid: u, rectype: t, modseq: m, deleted: false, doc: doc_merge(base, props) }
}

/// One update step: merge the partial into the live row named `id` and
/// re-stamp it with `m`; no live row, no change.
pub open spec fn upd_one(rs: Seq<RowV>, u: int, t: int, id: Seq<char>, props: DocV, m: int) -> Seq<
    RowV,
> {
    let i = live_index(rs, u, t, id);
    if i >= 0 {
        rs.update(
            i,
            RowV {
                id: rs[i].id,
                userid: rs[i].userid,
                rectype: rs[i].rectype,
                modseq: m,
                deleted: rs[i].deleted,
                doc: doc_merge(rs[i].doc, props),
            },
        )
    } else {
        rs
    }
}

/// The rows after applying a whole update list in order.
pub open spec fn apply_updates(
    rs: Seq<RowV>,
    u: int,
    t: int,
    ups: Seq<(Seq<char>, DocV)>,
    m: int,
) -> Seq<RowV>
    decreases ups.len(),
{
    if ups.len() == 0 {
        rs
    } else {
        apply_updates(upd_one(rs, u, t, ups[0].0, ups[0].1, m), u, t, ups.drop_first(), m)
    }
}

/// The ids an update list reports as updated: those with a live row, in order.
pub open spec fn updated_ids(
    rs: Seq<RowV>,
    u: int,
    t: int,
    ups: Seq<(Seq<char>, DocV)>,
    m: int,
) -> Seq<Seq<char>>
    decreases ups.len(),
{
    if ups.len() == 0 {
        Seq::empty()
    } else {
        let rest = updated_ids(upd_one(rs, u, t, ups[0].0, ups[0].1, m), u, t, ups.drop_first(), m);
        if live_index(rs, u, t, ups[0].0) >= 0 {
            seq![ups[0].0] + rest
        } else {
            rest
        }
    }
}

/// The ids an update list reports as not found: those without a live row.
pub open spec fn missing_ids(
    rs: Seq<RowV>,
    u: int,
    t: int,
    ups: Seq<(Seq<char>, DocV)>,
    m: int,
) -> Seq<Seq<char>>
    decreases ups.len(),
{
    if ups.len() == 0 {
        Seq::empty()
    } else {
        let rest = missing_ids(upd_one(rs, u, t, ups[0].0, ups[0].1, m), u, t, ups.drop_first(), m);
        if live_index(rs, u, t, ups[0].0) >= 0 {
            rest
        } else {
            seq![ups[0].0] + rest
        }
    }
}

/// One destroy step: tombstone the live row named `id` and re-stamp it with
/// `m`; no live row, no change.
pub open spec fn del_one(rs: Seq<RowV>, u: int, t: int, id: Seq<char>, m: int) -> Seq<RowV> {
    let i = live_index(rs, u, t, id);
    if i >= 0 {
        rs.update(
            i,
            RowV {
                id: rs[i].id,
                userid: rs[i].userid,
                rectype: rs[i].rectype,
                modseq: m,
                deleted: true,
                doc: rs[i].doc,
            },
        )
    } else {
        rs
    }
}

/// The rows after applying a whole destroy list in order.
pub open spec fn apply_destroys(rs: Seq<RowV>, u: int, t: int, ids: Seq<Seq<char>>, m: int) -> Seq<
    RowV,
>
    decreases ids.len(),
{
    if ids.len() == 0 {
        rs
    } else {
        apply_destroys(del_one(rs, u, t, ids[0], m), u, t, ids.drop_first(), m)
    }
}

/// The ids a destroy list reports as destroyed: those that had a live row at
/// their turn, in order. Destroying an id without a live row is a silent
/// no-op.
pub open spec fn destroyed_ids(rs: Seq<RowV>, u: int, t: int, ids: Seq<Seq<char>>, m: int) -> Seq<
    Seq<char>,
>
    decreases ids.len(),
{
    if ids.len() == 0 {
        Seq::empty()
    } else {
        let rest = destroyed_ids(del_one(rs, u, t, ids[0], m), u, t, ids.drop_first(), m);
        if live_index(rs, u, t, ids[0]) >= 0 {
            seq![ids[0]] + rest
        } else {
            rest
        }
    }
}

/// Well-formedness of the store:
/// `(id, userid)` is unique across every row of every type, live or
/// tombstoned; one bookkeeping row per `(userid, type)`; each collection's
/// floor lies between 1 and its current modseq; and every record carries a
/// modseq between 1 and its collection's current modseq (so its collection's
/// bookkeeping row exists).
pub open spec fn inv_store(s: StoreV) -> bool {
    &&& (forall|i: int, j: int|
        0 <= i < j < s.records.len() ==> !(#[trigger] s.records[i].id == #[trigger] s.records[j].id
            && s.records[i].userid == s.records[j].userid))
    &&& (forall|i: int, j: int|
        0 <= i < j < s.states.len() ==> !(#[trigger] s.states[i].userid == #[trigger] s.states[j].userid
            && s.states[i].rectype == s.states[j].rectype))
    &&& (forall|i: int|
        0 <= i < s.states.len() ==> 1 <= #[trigger] s.states[i].low_modseq <= s.states[i].modseq
            <= i64::MAX)
    &&& (forall|i: int|
        0 <= i < s.records.len() ==> has_state(s.states, #[trigger] s.records[i].userid,
            s.records[i].rectype) && 1 <= s.records[i].modseq <= cur_modseq(
            s.states,
            s.records[i].userid,
            s.records[i].rectype,
        ))
}

/// `state_index` is -1 or a valid index.
pub proof fn lemma_state_index_bounds(ss: Seq<StateV>, u: int, t: int)
    ensures
        -1 <= state_index(ss, u, t) < ss.len(),
    decreases ss.len(),
{
    if ss.len() > 0 && !(ss[0].userid == u && ss[0].rectype == t) {
        lemma_state_index_bounds(ss.drop_first(), u, t);
    }
}

/// `rec_index` is -1 or a valid index.
pub proof fn lemma_rec_index_bounds(rs: Seq<RowV>, id: Seq<char>, u: int)
    ensures
        -1 <= rec_index(rs, id, u) < rs.len(),
    decreases rs.len(),
{
    if rs.len() > 0 && !(rs[0].id == id && rs[0].userid == u) {
        lemma_rec_index_bounds(rs.drop_first(), id, u);
    }
}

/// `live_index` is -1 or a valid index.
pub proof fn lemma_live_index_bounds(rs: Seq<RowV>, u: int, t: int, id: Seq<char>)
    ensures
        -1 <= live_index(rs, u, t, id) < rs.len(),
    decreases rs.len(),
{
    if rs.len() > 0 && !(rs[0].userid == u && rs[0].rectype == t && !rs[0].deleted && rs[0].id
        == id) {
        lemma_live_index_bounds(rs.drop_first(), u, t, id);
    }
}

/// What `state_index` reports: -1 means no match anywhere, a nonnegative
/// index is the first match.
pub proof fn lemma_state_index_char(ss: Seq<StateV>, u: int, t: int)
    ensures
        state_index(ss, u, t) == -1 ==> forall|m: int|
            0 <= m < ss.len() ==> !(#[trigger] ss[m].userid == u && ss[m].rectype == t),
        state_index(ss, u, t) >= 0 ==> state_index(ss, u, t) < ss.len() && ss[state_index(
            ss,
            u,
            t,
        )].userid == u && ss[state_index(ss, u, t)].rectype == t && forall|m: int|
            0 <= m < state_index(ss, u, t) ==> !(#[trigger] ss[m].userid == u && ss[m].rectype
                == t),
    decreases ss.len(),
{
    if ss.len() > 0 {
        let rest = ss.drop_first();
        lemma_state_index_bounds(rest, u, t);
        lemma_state_index_char(rest, u, t);
        if !(ss[0].userid == u && ss[0].rectype == t) {
            let r = state_index(rest, u, t);
            if r == -1 {
                assert forall|m: int| 0 <= m < ss.len() implies !(#[trigger] ss[m].userid == u
                    && ss[m].rectype == t) by {
                    if m > 0 {
                        assert(ss[m] == rest[m - 1]);
                    }
                }
            } else {
                assert(ss[r + 1] == rest[r]);
                assert forall|m: int| 0 <= m < r + 1 implies !(#[trigger] ss[m].userid == u
                    && ss[m].rectype == t) by {
                    if m > 0 {
                        assert(ss[m] == rest[m - 1]);
                    }
                }
            }
        }
    }
}

/// What `rec_index` reports: -1 means no match anywhere, a nonnegative index
/// is the first match.
pub proof fn lemma_rec_index_char(rs: Seq<RowV>, id: Seq<char>, u: int)
    ensures
        rec_index(rs, id, u) == -1 ==> forall|m: int|
            0 <= m < rs.len() ==> !(#[trigger] rs[m].id == id && rs[m].userid == u),
        rec_index(rs, id, u) >= 0 ==> rec_index(rs, id, u) < rs.len() && rs[rec_index(
            rs,
            id,
            u,
        )].id == id && rs[rec_index(rs, id, u)].userid == u,
    decreases rs.len(),
{
    if rs.len() > 0 {
        let rest = rs.drop_first();
        lemma_rec_index_bounds(rest, id, u);
        lemma_rec_index_char(rest, id, u);
        if !(rs[0].id == id && rs[0].userid == u) {
            let r = rec_index(rest, id, u);
            if r == -1 {
                assert forall|m: int| 0 <= m < rs.len() implies !(#[trigger] rs[m].id == id
                    && rs[m].userid == u) by {
                    if m > 0 {
                        assert(rs[m] == rest[m - 1]);
                    }
                }
            } else {
                assert(rs[r + 1] == rest[r]);
            }
        }
    }
}

/// What `live_index` reports: -1 means no live match anywhere, a nonnegative
/// index is the first live match.
pub proof fn lemma_live_index_char(rs: Seq<RowV>, u: int, t: int, id: Seq<char>)
    ensures
        live_index(rs, u, t, id) == -1 ==> forall|m: int|
            0 <= m < rs.len() ==> !(#[trigger] rs[m].userid == u && rs[m].rectype == t
                && !rs[m].deleted && rs[m].id == id),
        live_index(rs, u, t, id) >= 0 ==> live_index(rs, u, t, id) < rs.len() && rs[live_index(
            rs,
            u,
            t,
            id,
        )].userid == u && rs[live_index(rs, u, t, id)].rectype == t && !rs[live_index(
            rs,
            u,
            t,
            id,
        )].deleted && rs[live_index(rs, u, t, id)].id == id,
    decreases rs.len(),
{
    if rs.len() > 0 {
        let rest = rs.drop_first();
        lemma_live_index_bounds(rest, u, t, id);
        lemma_live_index_char(rest, u, t, id);
        if !(rs[0].userid == u && rs[0].rectype == t && !rs[0].deleted && rs[0].id == id) {
            let r = live_index(rest, u, t, id);
            if r == -1 {
                assert forall|m: int| 0 <= m < rs.len() implies !(#[trigger] rs[m].userid == u
                    && rs[m].rectype == t && !rs[m].deleted && rs[m].id == id) by {
                    if m > 0 {
                        assert(rs[m] == rest[m - 1]);
                    }
                }
            } else {
                assert(rs[r + 1] == rest[r]);
            }
        }
    }
}

/// Changed and removed ids come from distinct rows, so together they never
/// outnumber the rows.
pub proof fn lemma_changed_removed_len(rs: Seq<RowV>, u: int, t: int, m: int)
    ensures
        changed_ids(rs, u, t, m).len() + removed_ids(rs, u, t, m).len() <= rs.len(),
    decreases rs.len(),
{
    if rs.len() > 0 {
        lemma_changed_removed_len(rs.drop_last(), u, t, m);
    }
}

/// Processing one more update at the back of the list is one more
/// `upd_one` step on the rows already reached.
pub proof fn lemma_updates_push(
    rs: Seq<RowV>,
    u: int,
    t: int,
    s: Seq<(Seq<char>, DocV)>,
    x: (Seq<char>, DocV),
    m: int,
)
    ensures
        apply_updates(rs, u, t, s.push(x), m) == upd_one(
            apply_updates(rs, u, t, s, m),
            u,
            t,
            x.0,
            x.1,
            m,
        ),
        updated_ids(rs, u, t, s.push(x), m) == updated_ids(rs, u, t, s, m) + (if live_index(
            apply_updates(rs, u, t, s, m),
            u,
            t,
            x.0,
        ) >= 0 {
            seq![x.0]
        } else {
            Seq::<Seq<char>>::empty()
        }),
        missing_ids(rs, u, t, s.push(x), m) == missing_ids(rs, u, t, s, m) + (if live_index(
            apply_updates(rs, u, t, s, m),
            u,
            t,
            x.0,
        ) >= 0 {
            Seq::<Seq<char>>::empty()
        } else {
            seq![x.0]
        }),
    decreases s.len(),
{
    let sp = s.push(x);
    if s.len() == 0 {
        assert(sp[0] == x);
        assert(sp.drop_first() =~= Seq::<(Seq<char>, DocV)>::empty());
        let rs1 = upd_one(rs, u, t, x.0, x.1, m);
        assert(apply_updates(rs1, u, t, Seq::empty(), m) == rs1);
        assert(updated_ids(rs1, u, t, Seq::empty(), m) =~= Seq::<Seq<char>>::empty());
        assert(missing_ids(rs1, u, t, Seq::empty(), m) =~= Seq::<Seq<char>>::empty());
        assert(updated_ids(rs, u, t, sp, m) =~= (if live_index(rs, u, t, x.0) >= 0 {
            seq![x.0]
        } else {
            Seq::<Seq<char>>::empty()
        }));
        assert(missing_ids(rs, u, t, sp, m) =~= (if live_index(rs, u, t, x.0) >= 0 {
            Seq::<Seq<char>>::empty()
        } else {
            seq![x.0]
        }));
        assert(updated_ids(rs, u, t, s, m) =~= Seq::<Seq<char>>::empty());
        assert(missing_ids(rs, u, t, s, m) =~= Seq::<Seq<char>>::empty());
    } else {
        assert(sp[0] == s[0]);
        assert(sp.drop_first() =~= s.drop_first().push(x));
        let rs1 = upd_one(rs, u, t, s[0].0, s[0].1, m);
        lemma_updates_push(rs1, u, t, s.drop_first(), x, m);
        assert(updated_ids(rs, u, t, sp, m) =~= updated_ids(rs, u, t, s, m) + (if live_index(
            apply_updates(rs, u, t, s, m),
            u,
            t,
            x.0,
        ) >= 0 {
            seq![x.0]
        } else {
            Seq::<Seq<char>>::empty()
        }));
        assert(missing_ids(rs, u, t, sp, m) =~= missing_ids(rs, u, t, s, m) + (if live_index(
            apply_updates(rs, u, t, s, m),
            u,
            t,
            x.0,
        ) >= 0 {
            Seq::<Seq<char>>::empty()
        } else {
            seq![x.0]
        }));
    }
}

/// Processing one more destroy at the back of the list is one more
/// `del_one` step on the rows already reached.
pub proof fn lemma_destroys_push(rs: Seq<RowV>, u: int, t: int, s: Seq<Seq<char>>, x: Seq<char>, m: int)
    ensures
        apply_destroys(rs, u, t, s.push(x), m) == del_one(
            apply_destroys(rs, u, t, s, m),
            u,
            t,
            x,
            m,
        ),
        destroyed_ids(rs, u, t, s.push(x), m) == destroyed_ids(rs, u, t, s, m) + (if live_index(
            apply_destroys(rs, u, t, s, m),
            u,
            t,
            x,
        ) >= 0 {
            seq![x]
        } else {
            Seq::<Seq<char>>::empty()
        }),
    decreases s.len(),
{
    let sp = s.push(x);
    if s.len() == 0 {
        assert(sp[0] == x);
        assert(sp.drop_first() =~= Seq::<Seq<char>>::empty());
        let rs1 = del_one(rs, u, t, x, m);
        assert(apply_destroys(rs1, u, t, Seq::empty(), m) == rs1);
        assert(destroyed_ids(rs1, u, t, Seq::empty(), m) =~= Seq::<Seq<char>>::empty());
        assert(destroyed_ids(rs, u, t, sp, m) =~= (if live_index(rs, u, t, x) >= 0 {
            seq![x]
        } else {
            Seq::<Seq<char>>::empty()
        }));
        assert(destroyed_ids(rs, u, t, s, m) =~= Seq::<Seq<char>>::empty());
    } else {
        assert(sp[0] == s[0]);
        assert(sp.drop_first() =~= s.drop_first().push(x));
        let rs1 = del_one(rs, u, t, s[0], m);
        lemma_destroys_push(rs1, u, t, s.drop_first(), x, m);
        assert(destroyed_ids(rs, u, t, sp, m) =~= destroyed_ids(rs, u, t, s, m) + (if live_index(
            apply_destroys(rs, u, t, s, m),
            u,
            t,
            x,
        ) >= 0 {
            seq![x]
        } else {
            Seq::<Seq<char>>::empty()
        }));
    }
}

/// A found index and no earlier match pin down `state_index`.
pub proof fn lemma_state_index_found(ss: Seq<StateV>, u: int, t: int, i: int)
    requires
        0 <= i < ss.len(),
        ss[i].userid == u && ss[i].rectype == t,
        forall|m: int| 0 <= m < i ==> !(#[trigger] ss[m].userid == u && ss[m].rectype == t),
    ensures
        state_index(ss, u, t) == i,
    decreases ss.len(),
{
    if i > 0 {
        let rest = ss.drop_first();
        assert(forall|m: int| 0 <= m < rest.len() ==> rest[m] == ss[m + 1]);
        lemma_state_index_found(rest, u, t, i - 1);
    }
}

/// If no bookkeeping row matches, `state_index` reports -1.
pub proof fn lemma_state_index_none(ss: Seq<StateV>, u: int, t: int)
    requires
        forall|m: int| 0 <= m < ss.len() ==> !(#[trigger] ss[m].userid == u && ss[m].rectype == t),
    ensures
        state_index(ss, u, t) == -1,
    decreases ss.len(),
{
    if ss.len() > 0 {
        let rest = ss.drop_first();
        assert(forall|m: int| 0 <= m < rest.len() ==> rest[m] == ss[m + 1]);
        lemma_state_index_none(rest, u, t);
    }
}

/// A found index and no earlier match pin down `rec_index`.
pub proof fn lemma_rec_index_found(rs: Seq<RowV>, id: Seq<char>, u: int, i: int)
    requires
        0 <= i < rs.len(),
        rs[i].id == id && rs[i].userid == u,
        forall|m: int| 0 <= m < i ==> !(#[trigger] rs[m].id == id && rs[m].userid == u),
    ensures
        rec_index(rs, id, u) == i,
    decreases rs.len(),
{
    if i > 0 {
        let rest = rs.drop_first();
        assert(forall|m: int| 0 <= m < rest.len() ==> rest[m] == rs[m + 1]);
        lemma_rec_index_found(rest, id, u, i - 1);
    }
}

/// If no row carries `(id, u)`, `rec_index` reports -1.
pub proof fn lemma_rec_index_none(rs: Seq<RowV>, id: Seq<char>, u: int)
    requires
        forall|m: int| 0 <= m < rs.len() ==> !(#[trigger] rs[m].id == id && rs[m].userid == u),
    ensures
        rec_index(rs, id, u) == -1,
    decreases rs.len(),
{
    if rs.len() > 0 {
        let rest = rs.drop_first();
        assert(forall|m: int| 0 <= m < rest.len() ==> rest[m] == rs[m + 1]);
        lemma_rec_index_none(rest, id, u);
    }
}

/// A found index and no earlier match pin down `live_index`.
pub proof fn lemma_live_index_found(rs: Seq<RowV>, u: int, t: int, id: Seq<char>, i: int)
    requires
        0 <= i < rs.len(),
        rs[i].userid == u && rs[i].rectype == t && !rs[i].deleted && rs[i].id == id,
        forall|m: int|
            0 <= m < i ==> !(#[trigger] rs[m].userid == u && rs[m].rectype == t && !rs[m].deleted
                && rs[m].id == id),
    ensures
        live_index(rs, u, t, id) == i,
    decreases rs.len(),
{
    if i > 0 {
        let rest = rs.drop_first();
        assert(forall|m: int| 0 <= m < rest.len() ==> rest[m] == rs[m + 1]);
        lemma_live_index_found(rest, u, t, id, i - 1);
    }
}

/// If no live row of `(u, t)` carries `id`, `live_index` reports -1.
pub proof fn lemma_live_index_none(rs: Seq<RowV>, u: int, t: int, id: Seq<char>)
    requires
        forall|m: int|
            0 <= m < rs.len() ==> !(#[trigger] rs[m].userid == u && rs[m].rectype == t
                && !rs[m].deleted && rs[m].id == id),
    ensures
        live_index(rs, u, t, id) == -1,
    decreases rs.len(),
{
    if rs.len() > 0 {
        let rest = rs.drop_first();
        assert(forall|m: int| 0 <= m < rest.len() ==> rest[m] == rs[m + 1]);
        lemma_live_index_none(rest, u, t, id);
    }
}

} // verus!
