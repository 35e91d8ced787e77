//! The library's laws: properties that hold across operations, stated over
//! the same spec functions the operations' own contracts use, and proved
//! from them.

use vstd::prelude::*;
use crate::db::{create_post, destroy_post, get_updates_post, DbError, DbV, SetError};
use crate::document::{doc_merge, key_in, DocV};
use crate::method::{MethodError, SetRequestArgs, SetResponseArgs};
use crate::record::{set_noop, set_post};
use crate::store::{
    changed_ids, cur_modseq, del_one, destroyed_ids, has_state, inv_store, lemma_live_index_char,
    live_index, low_modseq, removed_ids, row_visible, visible_rows, RowV, StoreV,
};
use crate::token::dec_str;

verus! {

/// A Set call that performs a non-empty mutation advances the collection's
/// modseq by exactly one; a no-op Set call and a failed Set call leave it
/// unchanged. (The per-call contract states this; this law restates it on
/// its own.)
pub proof fn lemma_set_advances_state_by_one(
    pre: DbV,
    post: DbV,
    u: int,
    t: int,
    base: DocV,
    args: &SetRequestArgs,
    r: Result<SetResponseArgs, MethodError>,
)
    requires
        set_post(pre, post, u, t, base, args, r),
    ensures
        r is Ok && !set_noop(args) ==> cur_modseq(post.store.states, u, t) == cur_modseq(
            pre.store.states,
            u,
            t,
        ) + 1,
        r is Err || set_noop(args) ==> post == pre && cur_modseq(post.store.states, u, t)
            == cur_modseq(pre.store.states, u, t),
{
}

/// Two state reads with no intervening mutation return the same token: the
/// token is a function of the store alone.
pub proof fn lemma_get_state_idempotent(v: DbV, u: int, t: int, s1: Seq<char>, s2: Seq<char>)
    requires
        s1 == dec_str(cur_modseq(v.store.states, u, t)),
        s2 == dec_str(cur_modseq(v.store.states, u, t)),
    ensures
        s1 == s2,
{
}

/// Membership in the removed-id list: an id is reported removed since `m`
/// exactly when some tombstoned row of the collection carries it with a
/// modseq above `m`.
proof fn lemma_removed_ids_member(rs: Seq<RowV>, u: int, t: int, m: int, id: Seq<char>)
    ensures
        key_in(removed_ids(rs, u, t, m), id) <==> exists|j: int|
            0 <= j < rs.len() && #[trigger] rs[j].userid == u && rs[j].rectype == t
                && rs[j].deleted && rs[j].modseq > m && rs[j].id == id,
    decreases rs.len(),
{
    if rs.len() > 0 {
        let prev = rs.drop_last();
        lemma_removed_ids_member(prev, u, t, m, id);
        let rest = removed_ids(prev, u, t, m);
        let full = removed_ids(rs, u, t, m);
        let r = rs.last();
        let hit = r.userid == u && r.rectype == t && r.deleted && r.modseq > m;
        if key_in(full, id) {
            let w = choose|i: int| 0 <= i < full.len() && full[i] == id;
            if w < rest.len() {
                assert(rest[w] == id);
                assert(key_in(rest, id));
                let j = choose|j: int|
                    0 <= j < prev.len() && #[trigger] prev[j].userid == u && prev[j].rectype == t
                        && prev[j].deleted && prev[j].modseq > m && prev[j].id == id;
                assert(rs[j].userid == u && rs[j].rectype == t && rs[j].deleted && rs[j].modseq
                    > m && rs[j].id == id);
            } else {
                assert(hit && r.id == id);
                let j = rs.len() - 1;
                assert(rs[j].userid == u && rs[j].rectype == t && rs[j].deleted && rs[j].modseq
                    > m && rs[j].id == id);
            }
        }
        if exists|j: int|
            0 <= j < rs.len() && #[trigger] rs[j].userid == u && rs[j].rectype == t
                && rs[j].deleted && rs[j].modseq > m && rs[j].id == id {
            let j = choose|j: int|
                0 <= j < rs.len() && #[trigger] rs[j].userid == u && rs[j].rectype == t
                    && rs[j].deleted && rs[j].modseq > m && rs[j].id == id;
            if j < rs.len() - 1 {
                assert(prev[j].userid == u && prev[j].rectype == t && prev[j].deleted
                    && prev[j].modseq > m && prev[j].id == id);
                assert(key_in(rest, id));
                let w = choose|i: int| 0 <= i < rest.len() && rest[i] == id;
                assert(full[w] == id);
                assert(key_in(full, id));
            } else {
                assert(full[rest.len() as int] == id);
                assert(key_in(full, id));
            }
        }
    }
}

/// Membership in the visible rows: some visible row carries `id` exactly
/// when some row passing the whole filter carries it.
proof fn lemma_visible_member(
    rs: Seq<RowV>,
    u: int,
    t: int,
    ids: Option<Seq<Seq<char>>>,
    since: Option<int>,
    id: Seq<char>,
)
    ensures
        crate::record::vis_has_id(visible_rows(rs, u, t, ids, since), id) <==> exists|j: int|
            0 <= j < rs.len() && row_visible(#[trigger] rs[j], u, t, ids, since) && rs[j].id == id,
    decreases rs.len(),
{
    if rs.len() > 0 {
        let prev = rs.drop_last();
        lemma_visible_member(prev, u, t, ids, since, id);
        let rest = visible_rows(prev, u, t, ids, since);
        let vis = visible_rows(rs, u, t, ids, since);
        let r = rs.last();
        if crate::record::vis_has_id(vis, id) {
            let w = choose|i: int| 0 <= i < vis.len() && vis[i].id == id;
            if w < rest.len() {
                assert(rest[w].id == id);
                assert(crate::record::vis_has_id(rest, id));
                let j = choose|j: int|
                    0 <= j < prev.len() && row_visible(#[trigger] prev[j], u, t, ids, since)
                        && prev[j].id == id;
                assert(row_visible(rs[j], u, t, ids, since) && rs[j].id == id);
            } else {
                assert(row_visible(r, u, t, ids, since) && r.id == id);
                let j = rs.len() - 1;
                assert(row_visible(rs[j], u, t, ids, since) && rs[j].id == id);
            }
        }
        if exists|j: int|
            0 <= j < rs.len() && row_visible(#[trigger] rs[j], u, t, ids, since) && rs[j].id
                == id {
            let j = choose|j: int|
                0 <= j < rs.len() && row_visible(#[trigger] rs[j], u, t, ids, since) && rs[j].id
                    == id;
            if j < rs.len() - 1 {
                assert(row_visible(prev[j], u, t, ids, since) && prev[j].id == id);
                assert(crate::record::vis_has_id(rest, id));
                let w = choose|i: int| 0 <= i < rest.len() && rest[i].id == id;
                assert(vis[w].id == id);
                assert(crate::record::vis_has_id(vis, id));
            } else {
                assert(vis[rest.len() as int].id == id);
                assert(crate::record::vis_has_id(vis, id));
            }
        }
    }
}

/// Once a record is tombstoned, no read of the collection returns it, while
/// the change feed reports it as removed exactly until the requester's
/// since-state reaches its tombstoning modseq.
pub proof fn lemma_tombstone_reporting(
    s: StoreV,
    u: int,
    t: int,
    i: int,
    m: int,
    ids: Option<Seq<Seq<char>>>,
    since: Option<int>,
)
    requires
        inv_store(s),
        0 <= i < s.records.len(),
        s.records[i].deleted,
        s.records[i].userid == u,
        s.records[i].rectype == t,
    ensures
        !crate::record::vis_has_id(visible_rows(s.records, u, t, ids, since), s.records[i].id),
        m < s.records[i].modseq ==> key_in(removed_ids(s.records, u, t, m), s.records[i].id),
        m >= s.records[i].modseq ==> !key_in(removed_ids(s.records, u, t, m), s.records[i].id),
{
    let id = s.records[i].id;
    lemma_visible_member(s.records, u, t, ids, since, id);
    if crate::record::vis_has_id(visible_rows(s.records, u, t, ids, since), id) {
        let j = choose|j: int|
            0 <= j < s.records.len() && row_visible(#[trigger] s.records[j], u, t, ids, since)
                && s.records[j].id == id;
        assert(!(s.records[i].id == s.records[j].id && s.records[i].userid
            == s.records[j].userid) || i == j);
    }
    lemma_removed_ids_member(s.records, u, t, m, id);
    if m >= s.records[i].modseq {
        if key_in(removed_ids(s.records, u, t, m), id) {
            let j = choose|j: int|
                0 <= j < s.records.len() && #[trigger] s.records[j].userid == u
                    && s.records[j].rectype == t && s.records[j].deleted && s.records[j].modseq
                    > m && s.records[j].id == id;
            assert(!(s.records[i].id == s.records[j].id && s.records[i].userid
                == s.records[j].userid) || i == j);
        }
    }
}

/// No row of a well-formed collection lies above the collection's current
/// modseq, so a change query from the current state returns empty lists —
/// and it is answered, not refused, whenever the collection exists.
pub proof fn lemma_no_changes_at_current_state(s: StoreV, u: int, t: int)
    requires
        inv_store(s),
        has_state(s.states, u, t),
    ensures
        changed_ids(s.records, u, t, cur_modseq(s.states, u, t)).len() == 0,
        removed_ids(s.records, u, t, cur_modseq(s.states, u, t)).len() == 0,
        !crate::db::state_too_old(s, u, t, cur_modseq(s.states, u, t)),
{
    let m = cur_modseq(s.states, u, t);
    assert forall|j: int|
        0 <= j < s.records.len() && (#[trigger] s.records[j]).userid == u
            && s.records[j].rectype == t implies s.records[j].modseq <= m by {
        assert(1 <= s.records[j].modseq <= cur_modseq(
            s.states,
            s.records[j].userid,
            s.records[j].rectype,
        ));
    }
    lemma_changed_removed_empty(s.records, u, t, m);
    crate::store::lemma_state_index_char(s.states, u, t);
}

/// Rows at or below `m` contribute nothing to either change list.
proof fn lemma_changed_removed_empty(rs: Seq<RowV>, u: int, t: int, m: int)
    requires
        forall|j: int|
            0 <= j < rs.len() && (#[trigger] rs[j]).userid == u && rs[j].rectype == t
                ==> rs[j].modseq <= m,
    ensures
        changed_ids(rs, u, t, m).len() == 0,
        removed_ids(rs, u, t, m).len() == 0,
    decreases rs.len(),
{
    if rs.len() > 0 {
        assert(forall|j: int|
            0 <= j < rs.len() - 1 ==> #[trigger] rs.drop_last()[j] == rs[j]);
        lemma_changed_removed_empty(rs.drop_last(), u, t, m);
    }
}

/// If no row passes the filter, the read returns nothing.
proof fn lemma_visible_none(
    rs: Seq<RowV>,
    u: int,
    t: int,
    ids: Option<Seq<Seq<char>>>,
    since: Option<int>,
)
    requires
        forall|j: int| 0 <= j < rs.len() ==> !row_visible(#[trigger] rs[j], u, t, ids, since),
    ensures
        visible_rows(rs, u, t, ids, since).len() == 0,
    decreases rs.len(),
{
    if rs.len() > 0 {
        assert(forall|j: int|
            0 <= j < rs.len() - 1 ==> #[trigger] rs.drop_last()[j] == rs[j]);
        lemma_visible_none(rs.drop_last(), u, t, ids, since);
    }
}

/// If exactly one row passes the filter, the read returns exactly that row.
proof fn lemma_visible_only(
    rs: Seq<RowV>,
    u: int,
    t: int,
    ids: Option<Seq<Seq<char>>>,
    since: Option<int>,
    i: int,
)
    requires
        0 <= i < rs.len(),
        row_visible(rs[i], u, t, ids, since),
        forall|j: int|
            0 <= j < rs.len() && j != i ==> !row_visible(#[trigger] rs[j], u, t, ids, since),
    ensures
        visible_rows(rs, u, t, ids, since) =~= seq![rs[i]],
    decreases rs.len(),
{
    assert(forall|j: int|
        0 <= j < rs.len() - 1 ==> #[trigger] rs.drop_last()[j] == rs[j]);
    if i == rs.len() - 1 {
        lemma_visible_none(rs.drop_last(), u, t, ids, since);
    } else {
        lemma_visible_only(rs.drop_last(), u, t, ids, since, i);
    }
}

/// The round trip: creating a record from a partial and then fetching it by
/// the id the server assigned yields exactly one record, whose properties
/// are the partial merged over the type default.
pub proof fn lemma_create_round_trip(
    pre: DbV,
    post: DbV,
    u: int,
    t: int,
    base: DocV,
    creates: Seq<(Seq<char>, DocV)>,
    created: Vec<(String, String)>,
    nc: Vec<(String, SetError)>,
    k: int,
)
    requires
        inv_store(post.store),
        create_post(pre, post, u, t, base, creates, Ok((created, nc))),
        0 <= k < creates.len(),
    ensures
        ({
            let id = created@[k].1@;
            let vis = visible_rows(post.store.records, u, t, Some(seq![id]), None);
            vis.len() == 1 && vis[0].id == id && vis[0].doc == doc_merge(base, creates[k].1)
        }),
{
    let id = created@[k].1@;
    let rs = post.store.records;
    let n = pre.store.records.len() as int;
    let row = rs[n + k];
    assert(created@[k].1@ == row.id);
    assert(key_in(seq![id], row.id)) by {
        assert(seq![id][0] == row.id);
    }
    assert(row_visible(row, u, t, Some(seq![id]), None));
    assert forall|j: int| 0 <= j < rs.len() && j != n + k implies !row_visible(
        #[trigger] rs[j],
        u,
        t,
        Some(seq![id]),
        None,
    ) by {
        if row_visible(rs[j], u, t, Some(seq![id]), None) {
            let w = choose|w: int| 0 <= w < seq![id].len() && seq![id][w] == rs[j].id;
            assert(rs[j].id == id);
            assert(!(rs[j].id == rs[n + k].id && rs[j].userid == rs[n + k].userid));
        }
    }
    lemma_visible_only(rs, u, t, Some(seq![id]), None, n + k);
}

/// A since-state below the collection's floor is refused with
/// `StateTooOld`, never served partially.
pub proof fn lemma_floor_refusal(
    v: DbV,
    u: int,
    t: int,
    m: int,
    max: Option<int>,
    r: Result<(Vec<String>, Vec<String>), DbError>,
)
    requires
        get_updates_post(v, u, t, m, max, r),
        has_state(v.store.states, u, t),
        m < low_modseq(v.store.states, u, t),
    ensures
        r == Err::<(Vec<String>, Vec<String>), DbError>(DbError::StateTooOld),
{
}

/// Destroying an id that names no row at all is a silent no-op: it is
/// neither reported as destroyed nor reported as a failure.
pub proof fn lemma_destroy_nonexistent(
    pre: DbV,
    post: DbV,
    u: int,
    t: int,
    ids: Seq<Seq<char>>,
    des: Vec<String>,
    nd: Vec<(String, SetError)>,
    id: Seq<char>,
)
    requires
        destroy_post(pre, post, u, t, ids, Ok((des, nd))),
        forall|j: int| 0 <= j < pre.store.records.len() ==> (#[trigger] pre.store.records[j]).id != id,
    ensures
        !key_in(crate::document::strs_view(des@), id),
        nd@.len() == 0,
{
    lemma_destroyed_ids_skip(
        pre.store.records,
        u,
        t,
        ids,
        cur_modseq(pre.store.states, u, t),
        id,
    );
}

/// An id carried by no row is never reported destroyed, however long the
/// destroy list.
proof fn lemma_destroyed_ids_skip(
    rs: Seq<RowV>,
    u: int,
    t: int,
    ids: Seq<Seq<char>>,
    m: int,
    id: Seq<char>,
)
    requires
        forall|j: int| 0 <= j < rs.len() ==> (#[trigger] rs[j]).id != id,
    ensures
        !key_in(destroyed_ids(rs, u, t, ids, m), id),
    decreases ids.len(),
{
    if ids.len() > 0 {
        crate::store::lemma_live_index_bounds(rs, u, t, ids[0]);
        let rs1 = del_one(rs, u, t, ids[0], m);
        assert(forall|j: int| 0 <= j < rs1.len() ==> (#[trigger] rs1[j]).id == rs[j].id);
        lemma_destroyed_ids_skip(rs1, u, t, ids.drop_first(), m, id);
        if ids[0] == id {
            lemma_live_index_char(rs, u, t, id);
            if live_index(rs, u, t, id) >= 0 {
                assert(rs[live_index(rs, u, t, id)].id == id);
            }
        }
        let d = destroyed_ids(rs, u, t, ids, m);
        let rest = destroyed_ids(rs1, u, t, ids.drop_first(), m);
        if key_in(d, id) {
            let w = choose|i: int| 0 <= i < d.len() && d[i] == id;
            if live_index(rs, u, t, ids[0]) >= 0 {
                if w > 0 {
                    assert(rest[w - 1] == id);
                    assert(key_in(rest, id));
                } else {
                    assert(d[0] == ids[0]);
                }
            } else {
                assert(key_in(rest, id));
            }
        }
    }
}

} // verus!
