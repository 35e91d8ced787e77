//! The generic record handler: the three protocol operations (Get,
//! GetUpdates, Set), written once, against the storage engine and the
//! record-type registry, independent of which record type is involved.

use vstd::prelude::*;
use crate::db::{
    ids_view_opt, max_view_opt, pairs_view, since_view_opt, state_too_old, DbV, RecordType,
    SetError,
};
use crate::store::{cur_modseq, has_state};
use crate::document::{key_in, key_in_list, str_eq, strs_view, Document, DocV};
use crate::method::{
    method_error_of, GetRequestArgs, GetResponseArgs, GetUpdatesRequestArgs,
    GetUpdatesResponseArgs, MethodError, PartialRecord, SetRequestArgs, SetResponseArgs,
};
use crate::store::{
    apply_destroys, apply_updates, changed_ids, created_row, destroyed_ids, live_index,
    low_modseq, missing_ids, rec_index, removed_ids, rows_v, state_index, updated_ids,
    visible_rows, Row, RowV, StateV,
};
use crate::token::{dec_str, parse_state};
use crate::util::RequestContext;

verus! {

/// The views of an optional string list.
pub open spec fn opt_strs_view(o: Option<Vec<String>>) -> Option<Seq<Seq<char>>> {
    match o {
        Some(v) => Some(strs_view(v@)),
        None => None,
    }
}

/// The parsed value of an optional since-state.
pub open spec fn opt_since_view(o: Option<String>) -> Option<int> {
    match o {
        Some(s) => Some(parse_state(s@)),
        None => None,
    }
}

/// Whether some returned row carries `id`.
pub open spec fn vis_has_id(vis: Seq<RowV>, id: Seq<char>) -> bool {
    exists|i: int| 0 <= i < vis.len() && vis[i].id == id
}

/// The requested ids that no returned row carries, in request order.
pub open spec fn missing_from(req: Seq<Seq<char>>, vis: Seq<RowV>) -> Seq<Seq<char>>
    decreases req.len(),
{
    if req.len() == 0 {
        Seq::empty()
    } else {
        let rest = missing_from(req.drop_last(), vis);
        if vis_has_id(vis, req.last()) {
            rest
        } else {
            rest.push(req.last())
        }
    }
}

/// How one returned partial relates to the stored row it projects: without
/// a property filter it carries the id and the whole document; with one it
/// carries exactly the requested properties, and the id only if `"id"` was
/// requested.
pub open spec fn partial_matches(p: PartialRecord, row: RowV, props: Option<Seq<Seq<char>>>) -> bool {
    match props {
        None => {
            &&& (p.id matches Some(s) && s@ == row.id)
            &&& p.props@ == row.doc
        },
        Some(ks) => {
            &&& (if key_in(ks, "id"@) {
                p.id matches Some(s) && s@ == row.id
            } else {
                p.id is None
            })
            &&& p.props@ == crate::document::doc_filter(row.doc, ks)
        },
    }
}

/// How a Get response relates to the store it was served from.
pub open spec fn resp_matches_get(
    v: DbV,
    u: int,
    t: int,
    ids: Option<Seq<Seq<char>>>,
    props: Option<Seq<Seq<char>>>,
    since: Option<int>,
    resp: GetResponseArgs,
) -> bool {
    let vis = visible_rows(v.store.records, u, t, ids, since);
    &&& resp.state@ == dec_str(cur_modseq(v.store.states, u, t))
    &&& resp.list@.len() == vis.len()
    &&& (forall|i: int|
        0 <= i < vis.len() ==> partial_matches(#[trigger] resp.list@[i], vis[i], props))
    &&& (match ids {
        None => resp.not_found is None,
        Some(req) => {
            let nf = missing_from(req, vis);
            if nf.len() == 0 {
                resp.not_found is None
            } else {
                resp.not_found matches Some(l) && strs_view(l@) == nf
            }
        },
    })
}

/// What a Get invocation returns: `CannotCalculateChanges` exactly when the
/// since-state precedes the collection's floor, otherwise a response whose
/// state and record list are mutually consistent, with `not_found` computed
/// only when ids were explicitly requested.
pub open spec fn get_post(
    v: DbV,
    u: int,
    t: int,
    args: &GetRequestArgs,
    r: Result<GetResponseArgs, MethodError>,
) -> bool {
    let bad = match opt_since_view(args.since_state) {
        Some(m) => state_too_old(v.store, u, t, m),
        None => false,
    };
    &&& (r is Err <==> bad)
    &&& (r matches Err(e) ==> e == MethodError::CannotCalculateChanges)
    &&& (r matches Ok(resp) ==> resp_matches_get(
        v,
        u,
        t,
        opt_strs_view(args.ids),
        opt_strs_view(args.properties),
        opt_since_view(args.since_state),
        resp,
    ))
}

/// What a GetUpdates invocation returns: the changed and removed id lists
/// with the old state echoed and the new state read in the same snapshot,
/// plus, when the request asked for the changed records themselves, a
/// nested Get response scoped to the changed ids.
pub open spec fn get_updates_handler_post(
    v: DbV,
    u: int,
    t: int,
    args: &GetUpdatesRequestArgs,
    r: Result<(GetUpdatesResponseArgs, Option<GetResponseArgs>), MethodError>,
) -> bool {
    let m = parse_state(args.since_state@);
    let bad = state_too_old(v.store, u, t, m);
    let ch = changed_ids(v.store.records, u, t, m);
    let rm = removed_ids(v.store.records, u, t, m);
    let over = match max_view_opt(args.max_changes) {
        Some(mx) => ch.len() + rm.len() > mx,
        None => false,
    };
    &&& (r is Err <==> bad || over)
    &&& (r matches Err(e) ==> (e == MethodError::CannotCalculateChanges && bad) || (e
        == MethodError::TooManyChanges && !bad && over))
    &&& (r matches Ok(p) ==> {
        &&& p.0.old_state@ == args.since_state@
        &&& p.0.new_state@ == dec_str(cur_modseq(v.store.states, u, t))
        &&& strs_view(p.0.changed@) == ch
        &&& strs_view(p.0.removed@) == rm
        &&& (if (args.fetch_records matches Some(b) && b) {
            p.1 matches Some(g) && resp_matches_get(
                v,
                u,
                t,
                Some(ch),
                opt_strs_view(args.fetch_record_properties),
                None,
                g,
            )
        } else {
            p.1 is None
        })
    })
}

/// The create list of a Set invocation, absent and empty alike.
pub open spec fn creates_of(args: &SetRequestArgs) -> Seq<(Seq<char>, DocV)> {
    match args.create {
        Some(cv) => pairs_view(cv@),
        None => Seq::empty(),
    }
}

/// The update list of a Set invocation, absent and empty alike.
pub open spec fn ups_of(args: &SetRequestArgs) -> Seq<(Seq<char>, DocV)> {
    match args.update {
        Some(cv) => pairs_view(cv@),
        None => Seq::empty(),
    }
}

/// The destroy list of a Set invocation, absent and empty alike.
pub open spec fn dst_of(args: &SetRequestArgs) -> Seq<Seq<char>> {
    match args.destroy {
        Some(d) => strs_view(d@),
        None => Seq::empty(),
    }
}

/// Whether a Set invocation carries no mutation at all.
pub open spec fn set_noop(args: &SetRequestArgs) -> bool {
    creates_of(args).len() == 0 && ups_of(args).len() == 0 && dst_of(args).len() == 0
}

/// Whether the invocation's precondition state disagrees with the current
/// state.
pub open spec fn precheck_fails(v: DbV, u: int, t: int, args: &SetRequestArgs) -> bool {
    match args.if_in_state {
        Some(s) => s@ != dec_str(cur_modseq(v.store.states, u, t)),
        None => false,
    }
}

/// The id a returned creation partial carries.
pub open spec fn partial_id_of(p: PartialRecord) -> Seq<char> {
    match p.id {
        Some(s) => s@,
        None => Seq::empty(),
    }
}

/// The rows a Set's create list appended, reconstructed from the response:
/// each partial merged over the type default under the id the server
/// assigned, stamped with the new modseq.
pub open spec fn new_rows_of(
    created: Seq<(String, PartialRecord)>,
    u: int,
    t: int,
    m: int,
    base: DocV,
    creates: Seq<(Seq<char>, DocV)>,
) -> Seq<RowV> {
    Seq::new(creates.len(), |k: int| created_row(u, t, m, partial_id_of(created[k].1), base, creates[k].1))
}

/// What a Set invocation does, atomically: if the precondition state
/// disagrees it fails with `StateMismatch` and changes nothing; a no-op
/// request returns the unchanged state twice and changes nothing; otherwise
/// the collection's modseq advances by exactly one and the create, update
/// and destroy lists apply in that order, all stamped with the new modseq.
/// Any internal failure rolls everything back.
pub open spec fn set_post(
    pre: DbV,
    post: DbV,
    u: int,
    t: int,
    base: DocV,
    args: &SetRequestArgs,
    r: Result<SetResponseArgs, MethodError>,
) -> bool {
    let c = cur_modseq(pre.store.states, u, t);
    let creates = creates_of(args);
    let ups = ups_of(args);
    let dst = dst_of(args);
    match r {
        Err(e) => {
            &&& post == pre
            &&& (e == MethodError::StateMismatch ==> precheck_fails(pre, u, t, args))
            &&& (precheck_fails(pre, u, t, args) ==> e == MethodError::StateMismatch || (
            e matches MethodError::InternalError(_)))
            &&& (!precheck_fails(pre, u, t, args) ==> (e matches MethodError::InternalError(_)))
        },
        Ok(resp) => {
            &&& !precheck_fails(pre, u, t, args)
            &&& resp.old_state@ == dec_str(c)
            &&& resp.not_created@.len() == 0
            &&& resp.not_destroyed@.len() == 0
            &&& (if set_noop(args) {
                &&& post == pre
                &&& resp.new_state@ == dec_str(c)
                &&& resp.created@.len() == 0
                &&& resp.updated@.len() == 0
                &&& resp.destroyed@.len() == 0
                &&& resp.not_updated@.len() == 0
            } else {
                let m = c + 1;
                let news = new_rows_of(resp.created@, u, t, m, base, creates);
                let mid = pre.store.records + news;
                let after_up = apply_updates(mid, u, t, ups, m);
                &&& c < i64::MAX
                &&& resp.new_state@ == dec_str(m)
                &&& post.snaps == pre.snaps
                &&& (if has_state(pre.store.states, u, t) {
                    post.store.states == pre.store.states.update(
                        state_index(pre.store.states, u, t),
                        (StateV {
                            userid: u,
                            rectype: t,
                            modseq: m,
                            low_modseq: low_modseq(pre.store.states, u, t),
                        }),
                    )
                } else {
                    post.store.states == pre.store.states.push(
                        (StateV { userid: u, rectype: t, modseq: 1, low_modseq: 1 }),
                    )
                })
                &&& cur_modseq(post.store.states, u, t) == m
                &&& resp.created@.len() == creates.len()
                &&& (forall|k: int|
                    0 <= k < creates.len() ==> {
                        let p = #[trigger] resp.created@[k];
                        &&& p.0@ == creates[k].0
                        &&& p.1.id is Some
                        &&& p.1.props@.len() == 0
                        &&& rec_index(pre.store.records, partial_id_of(p.1), u) == -1
                    })
                &&& post.store.records == apply_destroys(after_up, u, t, dst, m)
                &&& strs_view(resp.updated@) == updated_ids(mid, u, t, ups, m)
                &&& resp.not_updated@.len() == missing_ids(mid, u, t, ups, m).len()
                &&& (forall|k: int|
                    0 <= k < resp.not_updated@.len() ==> (#[trigger] resp.not_updated@[k]).0@
                        == missing_ids(mid, u, t, ups, m)[k] && resp.not_updated@[k].1
                        == SetError::NotFound)
                &&& strs_view(resp.destroyed@) == destroyed_ids(after_up, u, t, dst, m)
            })
        },
    }
}

/// Copies a list of strings.
pub fn clone_strings(v: &Vec<String>) -> (r: Vec<String>)
    ensures
        r@ == v@,
{
    let mut out: Vec<String> = Vec::new();
    let mut i: usize = 0;
    while i < v.len()
        invariant
            i <= v.len(),
            out@.len() == i,
            forall|m: int| 0 <= m < i ==> #[trigger] out@[m] == v@[m],
        decreases v.len() - i,
    {
        out.push(v[i].clone());
        i = i + 1;
    }
    assert(out@ =~= v@);
    out
}

/// Whether any of the returned rows carries `id`.
fn rows_have_id(rows: &Vec<Row>, id: &str) -> (r: bool)
    ensures
        r == vis_has_id(rows_v(rows@), id@),
{
    let mut i: usize = 0;
    while i < rows.len()
        invariant
            i <= rows.len(),
            forall|m: int| 0 <= m < i ==> #[trigger] rows@[m]@.id != id@,
        decreases rows.len() - i,
    {
        proof {
            assert(rows_v(rows@)[i as int] == rows@[i as int]@);
        }
        if str_eq(rows[i].id.as_str(), id) {
            assert(rows_v(rows@)[i as int].id == id@);
            return true;
        }
        i = i + 1;
    }
    proof {
        assert(forall|m: int|
            0 <= m < rows@.len() ==> #[trigger] rows_v(rows@)[m] == rows@[m]@);
    }
    false
}

/// The three protocol operations every record type supports, implemented
/// once against the storage engine held by the request context.
pub trait RecordHandler<R: RecordType> {
    /// The engine state the handler operates on.
    spec fn handler_db(&self) -> DbV;

    /// The user the handler operates for.
    spec fn handler_user(&self) -> int;

    /// Well-formedness of the handler's engine.
    spec fn handler_inv(&self) -> bool;

    /// Serves a snapshot read of matching records together with the state
    /// they are consistent with.
    fn get_records(&self, args: &GetRequestArgs) -> (r: Result<GetResponseArgs, MethodError>)
        requires
            self.handler_inv(),
        ensures
            get_post(self.handler_db(), self.handler_user(), R::type_id(), args, r),
    ;

    /// Serves the changed and removed id lists since a client state, with
    /// the records themselves fetched on request.
    fn get_record_updates(&self, args: &GetUpdatesRequestArgs) -> (r: Result<
        (GetUpdatesResponseArgs, Option<GetResponseArgs>),
        MethodError,
    >)
        requires
            self.handler_inv(),
        ensures
            get_updates_handler_post(self.handler_db(), self.handler_user(), R::type_id(), args, r),
    ;

    /// Applies an atomic create/update/destroy batch under an exclusive
    /// transaction.
    fn set_records(&mut self, args: &SetRequestArgs) -> (r: Result<SetResponseArgs, MethodError>)
        requires
            old(self).handler_inv(),
        ensures
            final(self).handler_inv(),
            final(self).handler_user() == old(self).handler_user(),
            set_post(
                old(self).handler_db(),
                final(self).handler_db(),
                old(self).handler_user(),
                R::type_id(),
                R::default_doc_spec(),
                args,
                r,
            ),
    ;
}

impl<R: RecordType> RecordHandler<R> for RequestContext {
    open spec fn handler_db(&self) -> DbV {
        self.db@
    }

    open spec fn handler_user(&self) -> int {
        self.userid as int
    }

    open spec fn handler_inv(&self) -> bool {
        self.db.inv()
    }

    #[verifier::rlimit(50)]
    fn get_records(&self, args: &GetRequestArgs) -> (r: Result<GetResponseArgs, MethodError>) {
        let ghost v = self.db@;
        let ghost u = self.userid as int;
        let ghost t = R::type_id();
        let ghost idsv = opt_strs_view(args.ids);
        let ghost propsv = opt_strs_view(args.properties);
        let ghost sincev = opt_since_view(args.since_state);
        let idsref: Option<&Vec<String>> = match &args.ids {
            Some(l) => Some(l),
            None => None,
        };
        let sinceref: Option<&String> = match &args.since_state {
            Some(s) => Some(s),
            None => None,
        };
        proof {
            assert(crate::db::ids_view_opt(idsref) == idsv);
            assert(since_view_opt(sinceref) == sincev);
        }
        let rows = match self.db.get_records::<R>(self.userid, idsref, sinceref) {
            Ok(rs) => rs,
            Err(e) => {
                return Err(MethodError::from(e));
            },
        };
        let state = self.db.state_token(self.userid, R::record_type());
        let ghost vis = rows_v(rows@);
        let mut list: Vec<PartialRecord> = Vec::new();
        let mut i: usize = 0;
        while i < rows.len()
            invariant
                i <= rows.len(),
                vis == rows_v(rows@),
                vis.len() == rows.len(),
                propsv == opt_strs_view(args.properties),
                list@.len() == i,
                forall|j: int|
                    0 <= j < i ==> partial_matches(#[trigger] list@[j], vis[j], propsv),
            decreases rows.len() - i,
        {
            proof {
                assert(vis[i as int] == rows@[i as int]@);
            }
            let p = match &args.properties {
                None => PartialRecord {
                    id: Some(rows[i].id.clone()),
                    props: rows[i].doc.clone(),
                },
                Some(ps) => {
                    let keep_id = key_in_list(ps, "id");
                    PartialRecord {
                        id: if keep_id {
                            Some(rows[i].id.clone())
                        } else {
                            None
                        },
                        props: rows[i].doc.filtered(ps),
                    }
                },
            };
            list.push(p);
            i = i + 1;
        }
        let not_found: Option<Vec<String>> = match &args.ids {
            None => None,
            Some(req) => {
                let ghost reqv = strs_view(req@);
                let mut nf: Vec<String> = Vec::new();
                let mut k: usize = 0;
                while k < req.len()
                    invariant
                        k <= req.len(),
                        reqv == strs_view(req@),
                        reqv.len() == req.len(),
                        vis == rows_v(rows@),
                        strs_view(nf@) == missing_from(reqv.take(k as int), vis),
                    decreases req.len() - k,
                {
                    let ghost pre = reqv.take(k as int);
                    let ghost ext = reqv.take(k as int + 1);
                    proof {
                        assert(ext.drop_last() =~= pre);
                        assert(ext.last() == reqv[k as int]);
                        assert(reqv[k as int] == req@[k as int]@);
                    }
                    if !rows_have_id(&rows, req[k].as_str()) {
                        nf.push(req[k].clone());
                        assert(strs_view(nf@) =~= missing_from(ext, vis));
                    } else {
                        assert(strs_view(nf@) =~= missing_from(ext, vis));
                    }
                    k = k + 1;
                }
                proof {
                    assert(reqv.take(reqv.len() as int) =~= reqv);
                }
                if nf.len() == 0 {
                    None
                } else {
                    Some(nf)
                }
            },
        };
        Ok(GetResponseArgs { state, list, not_found })
    }

    fn get_record_updates(&self, args: &GetUpdatesRequestArgs) -> (r: Result<
        (GetUpdatesResponseArgs, Option<GetResponseArgs>),
        MethodError,
    >) {
        let (changed, removed) = match self.db.get_record_updates::<R>(
            self.userid,
            &args.since_state,
            args.max_changes,
        ) {
            Ok(p) => p,
            Err(e) => {
                return Err(MethodError::from(e));
            },
        };
        let state = self.db.state_token(self.userid, R::record_type());
        let fetch = match args.fetch_records {
            Some(b) => b,
            None => false,
        };
        let records_response: Option<GetResponseArgs> = if fetch {
            let get_args = GetRequestArgs {
                ids: Some(clone_strings(&changed)),
                properties: match &args.fetch_record_properties {
                    Some(ps) => Some(clone_strings(ps)),
                    None => None,
                },
                since_state: None,
            };
            match <Self as RecordHandler<R>>::get_records(self, &get_args) {
                Ok(g) => Some(g),
                Err(_) => None,
            }
        } else {
            None
        };
        let old_state = args.since_state.clone();
        Ok(
            (
                GetUpdatesResponseArgs { old_state, new_state: state, changed, removed },
                records_response,
            ),
        )
    }

    #[verifier::rlimit(50)]
    fn set_records(&mut self, args: &SetRequestArgs) -> (r: Result<SetResponseArgs, MethodError>) {
        let ghost pre = self.db@;
        let ghost u = self.userid as int;
        let ghost t = R::type_id();
        let ghost c = cur_modseq(pre.store.states, u, t);
        match self.db.exclusive_begin() {
            Err(e) => {
                return Err(MethodError::from(e));
            },
            Ok(()) => {},
        }
        match &args.if_in_state {
            Some(s) => {
                match self.db.check_state::<R>(self.userid, s) {
                    Ok(()) => {},
                    Err(e) => {
                        let _ = self.db.transaction_rollback();
                        proof {
                            assert(self.db@ =~= pre);
                        }
                        return Err(MethodError::from(e));
                    },
                }
            },
            None => {},
        }
        let old_state = self.db.state_token(self.userid, R::record_type());
        let n_create = match &args.create {
            Some(cv) => cv.len(),
            None => 0,
        };
        let n_update = match &args.update {
            Some(uv) => uv.len(),
            None => 0,
        };
        let n_destroy = match &args.destroy {
            Some(dv) => dv.len(),
            None => 0,
        };
        if n_create == 0 && n_update == 0 && n_destroy == 0 {
            match self.db.transaction_commit() {
                Err(e) => {
                    let _ = self.db.transaction_rollback();
                    proof {
                        assert(self.db@ =~= pre);
                    }
                    return Err(MethodError::from(e));
                },
                Ok(()) => {},
            }
            proof {
                assert(self.db@ =~= pre);
            }
            let new_state = old_state.clone();
            return Ok(
                SetResponseArgs {
                    old_state,
                    new_state,
                    created: Vec::new(),
                    updated: Vec::new(),
                    destroyed: Vec::new(),
                    not_created: Vec::new(),
                    not_updated: Vec::new(),
                    not_destroyed: Vec::new(),
                },
            );
        }
        let new_state = match self.db.next_state::<R>(self.userid) {
            Ok(s) => s,
            Err(e) => {
                let _ = self.db.transaction_rollback();
                proof {
                    assert(self.db@ =~= pre);
                }
                return Err(MethodError::from(e));
            },
        };
        let ghost d1 = self.db@;
        let ghost m = c + 1;
        let (created_ids, _nc) = match &args.create {
            Some(cv) => {
                if cv.len() > 0 {
                    match self.db.create_records::<R>(self.userid, cv) {
                        Ok(p) => p,
                        Err(e) => {
                            let _ = self.db.transaction_rollback();
                            proof {
                                assert(self.db@ =~= pre);
                            }
                            return Err(MethodError::from(e));
                        },
                    }
                } else {
                    (Vec::new(), Vec::new())
                }
            },
            None => (Vec::new(), Vec::new()),
        };
        let ghost d2 = self.db@;
        let (updated, not_updated_raw) = match &args.update {
            Some(uv) => {
                if uv.len() > 0 {
                    match self.db.update_records::<R>(self.userid, uv) {
                        Ok(p) => p,
                        Err(e) => {
                            let _ = self.db.transaction_rollback();
                            proof {
                                assert(self.db@ =~= pre);
                            }
                            return Err(MethodError::from(e));
                        },
                    }
                } else {
                    (Vec::new(), Vec::new())
                }
            },
            None => (Vec::new(), Vec::new()),
        };
        let ghost d3 = self.db@;
        let (destroyed, _nd) = match &args.destroy {
            Some(dv) => {
                if dv.len() > 0 {
                    match self.db.destroy_records::<R>(self.userid, dv) {
                        Ok(p) => p,
                        Err(e) => {
                            let _ = self.db.transaction_rollback();
                            proof {
                                assert(self.db@ =~= pre);
                            }
                            return Err(MethodError::from(e));
                        },
                    }
                } else {
                    (Vec::new(), Vec::new())
                }
            },
            None => (Vec::new(), Vec::new()),
        };
        match self.db.transaction_commit() {
            Err(e) => {
                let _ = self.db.transaction_rollback();
                proof {
                    assert(self.db@ =~= pre);
                }
                return Err(MethodError::from(e));
            },
            Ok(()) => {},
        }
        proof {
            assert(self.db@.snaps =~= pre.snaps);
        }
        let mut created: Vec<(String, PartialRecord)> = Vec::new();
        let mut k: usize = 0;
        while k < created_ids.len()
            invariant
                k <= created_ids.len(),
                created@.len() == k,
                forall|j: int|
                    0 <= j < k ==> {
                        let p = #[trigger] created@[j];
                        &&& p.0@ == created_ids@[j].0@
                        &&& p.1.id is Some
                        &&& partial_id_of(p.1) == created_ids@[j].1@
                        &&& p.1.props@.len() == 0
                    },
            decreases created_ids.len() - k,
        {
            let cid = created_ids[k].0.clone();
            let rid = created_ids[k].1.clone();
            created.push((cid, PartialRecord { id: Some(rid), props: Document::new() }));
            k = k + 1;
        }
        let mut not_updated: Vec<(String, SetError)> = Vec::new();
        let mut k2: usize = 0;
        while k2 < not_updated_raw.len()
            invariant
                k2 <= not_updated_raw.len(),
                not_updated@.len() == k2,
                forall|j: int|
                    0 <= j < k2 ==> (#[trigger] not_updated@[j]).0@ == not_updated_raw@[j].0@
                        && not_updated@[j].1 == not_updated_raw@[j].1,
            decreases not_updated_raw.len() - k2,
        {
            let idc = not_updated_raw[k2].0.clone();
            let se = match not_updated_raw[k2].1 {
                SetError::NotFound => SetError::NotFound,
            };
            not_updated.push((idc, se));
            k2 = k2 + 1;
        }
        proof {
            let creates = creates_of(args);
            let news = new_rows_of(created@, u, t, m, R::default_doc_spec(), creates);
            let mid = pre.store.records + news;
            assert(d1.store.records == pre.store.records);
            if creates.len() == 0 {
                assert(d2 == d1);
                assert(mid =~= pre.store.records);
            } else {
                assert(d2.store.records =~= mid);
            }
            let ups = ups_of(args);
            if ups.len() == 0 {
                assert(d3 == d2);
                assert(apply_updates(mid, u, t, ups, m) == mid);
                assert(strs_view(updated@) =~= Seq::<Seq<char>>::empty());
                assert(updated_ids(mid, u, t, ups, m) =~= Seq::<Seq<char>>::empty());
            } else {
                assert(d3.store.records == apply_updates(d2.store.records, u, t, ups, m));
                assert(strs_view(updated@) == updated_ids(d2.store.records, u, t, ups, m));
                assert(mid == d2.store.records);
            }
            let dst = dst_of(args);
            let after_up = apply_updates(mid, u, t, ups, m);
            if dst.len() == 0 {
                assert(self.db@.store.records == d3.store.records);
                assert(apply_destroys(after_up, u, t, dst, m) == after_up);
                assert(strs_view(destroyed@) =~= Seq::<Seq<char>>::empty());
                assert(destroyed_ids(after_up, u, t, dst, m) =~= Seq::<Seq<char>>::empty());
            } else {
                assert(strs_view(destroyed@) == destroyed_ids(d3.store.records, u, t, dst, m));
                assert(after_up == d3.store.records);
            }
        }
        Ok(
            SetResponseArgs {
                old_state,
                new_state,
                created,
                updated,
                destroyed,
                not_created: Vec::new(),
                not_updated,
                not_destroyed: Vec::new(),
            },
        )
    }
}

} // verus!
