//! The core's behavioural laws, stated and proved against the transition
//! relations of the dispatcher and the responder.

use vstd::prelude::*;
use vstd::multiset::Multiset;
use crate::hsm::{
    dispatch_outcome, dispatch_rel, execute_rel, is_keystore_op, lemma_wf_after_dispatch,
    respond_rel, shim_response, workers_same_except, Core, Error,
};
use crate::jobs::{RequestType, Response};

verus! {

broadcast use vstd::seq_lib::group_to_multiset_ensures, vstd::multiset::group_multiset_axioms;

/// A dispatch step moves the winning client's head and nothing else: the
/// client queue loses exactly its oldest request; either the resolved
/// worker's sink gains exactly that request, or exactly one response
/// echoing its `client_id` and `request_id` is synthesized for the client —
/// never both, never neither.
pub proof fn lemma_request_conservation(pre: Core, post: Core, i: int)
    requires
        pre.wf(),
        dispatch_rel(pre, post, i),
    ensures
        pre.creq(i) =~= seq![pre.creq(i)[0]] + post.creq(i),
        forall|j: int| 0 <= j < pre.n_clients() && j != i ==> post.creq(j) == pre.creq(j),
        ({
            let req = pre.creq(i)[0];
            let t = req.typ();
            if is_keystore_op(t) {
                &&& post.cresp(i) == pre.cresp(i).push(shim_response(pre.key_store, req))
                &&& shim_response(pre.key_store, req).client_id() == req.client_id()
                &&& shim_response(pre.key_store, req).request_id() == req.request_id()
                &&& forall|w: int| 0 <= w < pre.n_workers() ==> post.wreq(w) == pre.wreq(w)
            } else {
                match pre.resolved_worker(t) {
                    Some(w) => {
                        &&& post.wreq(w) == pre.wreq(w).push(req)
                        &&& post.cresp(i) == pre.cresp(i)
                        &&& forall|v: int|
                            0 <= v < pre.n_workers() && v != w ==> post.wreq(v) == pre.wreq(v)
                    },
                    None => {
                        &&& post.cresp(i).len() == pre.cresp(i).len() + 1
                        &&& post.cresp(i).last().client_id() == req.client_id()
                        &&& post.cresp(i).last().request_id() == req.request_id()
                        &&& forall|w: int| 0 <= w < pre.n_workers() ==> post.wreq(w) == pre.wreq(w)
                    },
                }
            }
        }),
{
    let req = pre.creq(i)[0];
    let t = req.typ();
    assert forall|j: int| 0 <= j < pre.n_clients() && j != i implies #[trigger] post.creq(j)
        == pre.creq(j) by {
        assert(post.clients@[j] == pre.clients@[j]);
    }
    if is_keystore_op(t) {
        assert forall|w: int| 0 <= w < pre.n_workers() implies #[trigger] post.wreq(w)
            == pre.wreq(w) by {
            assert(post.workers@[w] == pre.workers@[w]);
        }
    } else {
        match pre.resolved_worker(t) {
            Some(w) => {
                assert forall|v: int| 0 <= v < pre.n_workers() && v != w implies #[trigger] post.wreq(
                    v,
                ) == pre.wreq(v) by {
                    assert(post.workers@[v] == pre.workers@[v]);
                }
            },
            None => {
                assert forall|w: int| 0 <= w < pre.n_workers() implies #[trigger] post.wreq(w)
                    == pre.wreq(w) by {
                    assert(post.workers@[w] == pre.workers@[w]);
                }
            },
        }
    }
}

/// All responses pending at worker sources from rotation-independent index
/// `k` on, as a multiset.
pub open spec fn wresp_total_from(s: Core, k: int) -> Multiset<Response>
    decreases s.n_workers() - k
        when 0 <= k <= s.n_workers()
{
    if k >= s.n_workers() {
        Multiset::<Response>::empty()
    } else {
        s.wresp(k).to_multiset().add(wresp_total_from(s, k + 1))
    }
}

/// All responses delivered to client sinks from index `k` on, as a multiset.
pub open spec fn cresp_total_from(s: Core, k: int) -> Multiset<Response>
    decreases s.n_clients() - k
        when 0 <= k <= s.n_clients()
{
    if k >= s.n_clients() {
        Multiset::<Response>::empty()
    } else {
        s.cresp(k).to_multiset().add(cresp_total_from(s, k + 1))
    }
}

/// Every response in the system: still at a worker source, or already at a
/// client sink.
pub open spec fn response_total(s: Core) -> Multiset<Response> {
    wresp_total_from(s, 0).add(cresp_total_from(s, 0))
}

proof fn lemma_wresp_total_update(pre: Core, post: Core, w: int, k: int)
    requires
        post.n_workers() == pre.n_workers(),
        0 <= w < pre.n_workers(),
        0 <= k <= pre.n_workers(),
        forall|v: int| 0 <= v < pre.n_workers() && v != w ==> #[trigger] post.wresp(v) == pre.wresp(
            v,
        ),
    ensures
        k <= w ==> wresp_total_from(post, k).add(pre.wresp(w).to_multiset()) == wresp_total_from(
            pre,
            k,
        ).add(post.wresp(w).to_multiset()),
        k > w ==> wresp_total_from(post, k) == wresp_total_from(pre, k),
    decreases pre.n_workers() - k,
{
    if k < pre.n_workers() {
        lemma_wresp_total_update(pre, post, w, k + 1);
        if k <= w {
            assert forall|x: Response|
                wresp_total_from(post, k).add(pre.wresp(w).to_multiset()).count(x)
                    == wresp_total_from(pre, k).add(post.wresp(w).to_multiset()).count(x) by {
                if k < w {
                    assert(post.wresp(k) == pre.wresp(k));
                    assert(wresp_total_from(post, k + 1).add(
                        pre.wresp(w).to_multiset(),
                    ).count(x) == wresp_total_from(pre, k + 1).add(
                        post.wresp(w).to_multiset(),
                    ).count(x));
                } else {
                    assert(wresp_total_from(post, k + 1) == wresp_total_from(pre, k + 1));
                }
            }
            assert(wresp_total_from(post, k).add(pre.wresp(w).to_multiset()) =~= wresp_total_from(
                pre,
                k,
            ).add(post.wresp(w).to_multiset()));
        }
    }
}

proof fn lemma_cresp_total_update(pre: Core, post: Core, i: int, k: int)
    requires
        post.n_clients() == pre.n_clients(),
        0 <= i < pre.n_clients(),
        0 <= k <= pre.n_clients(),
        forall|j: int| 0 <= j < pre.n_clients() && j != i ==> #[trigger] post.cresp(j) == pre.cresp(
            j,
        ),
    ensures
        k <= i ==> cresp_total_from(post, k).add(pre.cresp(i).to_multiset()) == cresp_total_from(
            pre,
            k,
        ).add(post.cresp(i).to_multiset()),
        k > i ==> cresp_total_from(post, k) == cresp_total_from(pre, k),
    decreases pre.n_clients() - k,
{
    if k < pre.n_clients() {
        lemma_cresp_total_update(pre, post, i, k + 1);
        if k <= i {
            assert forall|x: Response|
                cresp_total_from(post, k).add(pre.cresp(i).to_multiset()).count(x)
                    == cresp_total_from(pre, k).add(post.cresp(i).to_multiset()).count(x) by {
                if k < i {
                    assert(post.cresp(k) == pre.cresp(k));
                    assert(cresp_total_from(post, k + 1).add(
                        pre.cresp(i).to_multiset(),
                    ).count(x) == cresp_total_from(pre, k + 1).add(
                        post.cresp(i).to_multiset(),
                    ).count(x));
                } else {
                    assert(cresp_total_from(post, k + 1) == cresp_total_from(pre, k + 1));
                }
            }
            assert(cresp_total_from(post, k).add(pre.cresp(i).to_multiset()) =~= cresp_total_from(
                pre,
                k,
            ).add(post.cresp(i).to_multiset()));
        }
    }
}

/// The multiset of responses delivered to clients equals the multiset of
/// responses produced by workers: a responder step moves one response from
/// a worker source to a client sink and the system-wide multiset of
/// responses is unchanged — no loss, no duplication.
pub proof fn lemma_response_conservation(pre: Core, post: Core, w: int)
    requires
        pre.wf(),
        respond_rel(pre, post, w),
    ensures
        response_total(post) == response_total(pre),
        post.cresp(pre.wresp(w)[0].client_id() as int).last() == pre.wresp(w)[0],
{
    let resp = pre.wresp(w)[0];
    let cid = resp.client_id() as int;
    assert forall|v: int| 0 <= v < pre.n_workers() && v != w implies #[trigger] post.wresp(v)
        == pre.wresp(v) by {
        assert(post.workers@[v] == pre.workers@[v]);
    }
    assert forall|j: int| 0 <= j < pre.n_clients() && j != cid implies #[trigger] post.cresp(j)
        == pre.cresp(j) by {
        assert(post.clients@[j] == pre.clients@[j]);
    }
    lemma_wresp_total_update(pre, post, w, 0);
    lemma_cresp_total_update(pre, post, cid, 0);
    // The moved element relates the two per-queue multisets.
    assert(post.wresp(w).to_multiset() =~= pre.wresp(w).to_multiset().remove(resp));
    assert(pre.wresp(w).to_multiset().count(resp) > 0);
    assert(pre.wresp(w).to_multiset() =~= post.wresp(w).to_multiset().insert(resp));
    assert(post.cresp(cid).to_multiset() =~= pre.cresp(cid).to_multiset().insert(resp));
    let wt_pre = wresp_total_from(pre, 0);
    let wt_post = wresp_total_from(post, 0);
    let ct_pre = cresp_total_from(pre, 0);
    let ct_post = cresp_total_from(post, 0);
    // Cancel the common summand on each side.
    assert(wt_post.add(pre.wresp(w).to_multiset()) == wt_pre.add(post.wresp(w).to_multiset()));
    assert forall|x: Response| wt_post.insert(resp).count(x) == wt_pre.count(x) by {
        assert(wt_post.add(pre.wresp(w).to_multiset()).count(x) == wt_pre.add(
            post.wresp(w).to_multiset(),
        ).count(x));
        assert(pre.wresp(w).to_multiset().count(x) == post.wresp(w).to_multiset().insert(
            resp,
        ).count(x));
    }
    assert(wt_post.insert(resp) =~= wt_pre);
    assert(ct_post.add(pre.cresp(cid).to_multiset()) == ct_pre.add(post.cresp(cid).to_multiset()));
    assert forall|x: Response| ct_post.count(x) == ct_pre.insert(resp).count(x) by {
        assert(ct_post.add(pre.cresp(cid).to_multiset()).count(x) == ct_pre.add(
            post.cresp(cid).to_multiset(),
        ).count(x));
        assert(post.cresp(cid).to_multiset().count(x) == pre.cresp(cid).to_multiset().insert(
            resp,
        ).count(x));
    }
    assert(ct_post =~= ct_pre.insert(resp));
    assert forall|x: Response| wt_post.add(ct_post).count(x) == wt_pre.add(ct_pre).count(x) by {
        assert(wt_pre.count(x) == wt_post.insert(resp).count(x));
        assert(ct_post.count(x) == ct_pre.insert(resp).count(x));
    }
    assert(wt_post.add(ct_post) =~= wt_pre.add(ct_pre));
}

/// Per-client FIFO at the worker sink: when two successive dispatch steps
/// both serve client `i` and forward to worker `w`, the worker receives the
/// client's first two requests, in submission order, appended in order.
pub proof fn lemma_per_client_order(s0: Core, s1: Core, s2: Core, i: int, w: int)
    requires
        s0.wf(),
        dispatch_rel(s0, s1, i),
        dispatch_rel(s1, s2, i),
        !is_keystore_op(s0.creq(i)[0].typ()),
        s0.resolved_worker(s0.creq(i)[0].typ()) == Some(w),
        !is_keystore_op(s1.creq(i)[0].typ()),
        s1.resolved_worker(s1.creq(i)[0].typ()) == Some(w),
    ensures
        s1.creq(i)[0] == s0.creq(i)[1],
        s2.wreq(w) =~= s0.wreq(w) + seq![s0.creq(i)[0], s0.creq(i)[1]],
{
    assert(s1.creq(i) == s0.creq(i).remove(0));
    assert(s1.creq(i)[0] == s0.creq(i)[1]);
    assert(s1.wreq(w) == s0.wreq(w).push(s0.creq(i)[0]));
    assert(s2.wreq(w) == s1.wreq(w).push(s1.creq(i)[0]));
}

/// Per-worker FIFO at the client sink: when two successive responder steps
/// both serve worker `w` and both head responses name client `cid`, the
/// client receives the worker's first two responses in production order.
pub proof fn lemma_per_worker_order(s0: Core, s1: Core, s2: Core, w: int, cid: int)
    requires
        s0.wf(),
        respond_rel(s0, s1, w),
        respond_rel(s1, s2, w),
        0 <= cid < s0.n_clients(),
        s0.wresp(w)[0].client_id() == cid as u32,
        s1.wresp(w)[0].client_id() == cid as u32,
    ensures
        s1.wresp(w)[0] == s0.wresp(w)[1],
        s2.cresp(cid) =~= s0.cresp(cid) + seq![s0.wresp(w)[0], s0.wresp(w)[1]],
{
    assert(s1.wresp(w) == s0.wresp(w).remove(0));
    assert(s1.wresp(w)[0] == s0.wresp(w)[1]);
    assert(s0.wresp(w)[0].client_id() as int == cid);
    assert(s1.wresp(w)[0].client_id() as int == cid);
    assert(s1.cresp(cid) == s0.cresp(cid).push(s0.wresp(w)[0]));
    assert(s2.cresp(cid) == s1.cresp(cid).push(s1.wresp(w)[0]));
}

/// No worker ever holds a request whose type is outside its advertised set,
/// and every such request names a registered client. This is an invariant
/// of every well-formed core, and every public operation preserves `wf`.
pub proof fn lemma_worker_type_safety(s: Core)
    requires
        s.wf(),
    ensures
        forall|w: int, j: int|
            0 <= w < s.n_workers() && 0 <= j < s.wreq(w).len() ==> s.wtypes(w).contains(
                (#[trigger] s.wreq(w)[j]).typ(),
            ) && s.wreq(w)[j].client_id() < s.n_clients(),
{
}

/// The scan's result is always a genuinely ready client (or there is none
/// at any rotation position).
pub proof fn lemma_scan_finds_ready(s: Core, k: int)
    requires
        0 <= k <= s.n_clients(),
    ensures
        match s.first_ready_client_from(k) {
            Some(i) => s.client_head_ready(i),
            None => forall|j: int|
                k <= j < s.n_clients() ==> !s.client_head_ready(#[trigger] s.rot_client(j)),
        },
    decreases s.n_clients() - k,
{
    if k < s.n_clients() && !s.client_head_ready(s.rot_client(k)) {
        lemma_scan_finds_ready(s, k + 1);
    }
}

/// Every client index appears somewhere in the rotation scan.
pub proof fn lemma_every_client_scanned(s: Core, j: int)
    requires
        s.wf(),
        0 <= j < s.n_clients(),
    ensures
        exists|k: int| 0 <= k < s.n_clients() && s.rot_client(k) == j,
{
    let n = s.n_clients();
    let base = s.last_client_id + 1;
    let k = (j - base) % n;
    assert(0 <= k < n) by {
        vstd::arithmetic::div_mod::lemma_mod_bound((j - base) as int, n);
    }
    assert(s.rot_client(k) == j) by {
        vstd::arithmetic::div_mod::lemma_add_mod_noop_right(base, (j - base) as int, n);
        vstd::arithmetic::div_mod::lemma_small_mod(j as nat, n as nat);
    }
}

/// Head-of-line blocking stays local: a client whose head is not jointly
/// ready (for instance because its resolved worker's sink is saturated) is
/// never dequeued by a dispatch pass, while any ready client still
/// guarantees the pass makes progress.
pub proof fn lemma_no_hol_blocking(pre: Core, post: Core, progress: bool, j: int)
    requires
        pre.wf(),
        dispatch_outcome(pre, post, progress),
        0 <= j < pre.n_clients(),
        !pre.client_head_ready(j),
    ensures
        post.creq(j) == pre.creq(j),
        (exists|k: int|
            0 <= k < pre.n_clients() && pre.client_head_ready(
                #[trigger] pre.rot_client(k),
            )) ==> progress,
{
    match pre.dispatch_winner() {
        Some(i) => {
            lemma_scan_finds_ready(pre, 0);
            assert(pre.client_head_ready(i));
            assert(i != j);
            assert(post.clients@[j] == pre.clients@[j]);
        },
        None => {
            lemma_scan_finds_ready(pre, 0);
        },
    }
}

/// Strict round-robin: when every client is ready, the dispatcher serves
/// exactly the client one slot past the most recent winner, and records it
/// as the new cursor.
pub proof fn lemma_fairness_next_slot(pre: Core, post: Core, progress: bool)
    requires
        pre.wf(),
        pre.n_clients() > 0,
        dispatch_outcome(pre, post, progress),
        forall|i: int| 0 <= i < pre.n_clients() ==> pre.client_head_ready(i),
    ensures
        progress,
        pre.dispatch_winner() == Some(pre.rot_client(0)),
        post.last_client_id == pre.rot_client(0),
{
    assert(0 <= pre.rot_client(0) < pre.n_clients()) by {
        vstd::arithmetic::div_mod::lemma_mod_bound(pre.last_client_id + 1, pre.n_clients());
    }
    assert(pre.client_head_ready(pre.rot_client(0)));
    assert(pre.first_ready_client_from(0) == Some(pre.rot_client(0)));
}

/// Explicit value of the rotation: with `d` the reduced cursor successor,
/// position `j` maps to `d + j`, wrapped around once.
proof fn lemma_rot_client_formula(s: Core, j: int)
    requires
        s.n_clients() > 0,
        0 <= j < s.n_clients(),
    ensures
        ({
            let n = s.n_clients();
            let d = (s.last_client_id + 1) % n;
            s.rot_client(j) == if d + j < n {
                d + j
            } else {
                d + j - n
            }
        }),
{
    let n = s.n_clients();
    let c = s.last_client_id + 1;
    let d = c % n;
    vstd::arithmetic::div_mod::lemma_mod_bound(c, n);
    vstd::arithmetic::div_mod::lemma_add_mod_noop(c, j, n);
    vstd::arithmetic::div_mod::lemma_small_mod(j as nat, n as nat);
    if d + j < n {
        vstd::arithmetic::div_mod::lemma_small_mod((d + j) as nat, n as nat);
    } else {
        vstd::arithmetic::div_mod::lemma_mod_sub_multiples_vanish(d + j, n);
        vstd::arithmetic::div_mod::lemma_small_mod((d + j - n) as nat, n as nat);
    }
}

/// Distinct rotation positions name distinct clients.
proof fn lemma_rot_client_injective(s: Core, j1: int, j2: int)
    requires
        s.n_clients() > 0,
        0 <= j1 < s.n_clients(),
        0 <= j2 < s.n_clients(),
        j1 != j2,
    ensures
        s.rot_client(j1) != s.rot_client(j2),
{
    lemma_rot_client_formula(s, j1);
    lemma_rot_client_formula(s, j2);
}

/// The resolved worker only depends on the advertised-type tables, and is
/// pinned by their disjointness.
proof fn lemma_resolved_worker_stable(a: Core, b: Core, t: RequestType, w: int)
    requires
        a.types_disjoint(),
        a.resolved_worker(t) == Some(w),
        b.n_workers() == a.n_workers(),
        forall|v: int| 0 <= v < a.n_workers() ==> #[trigger] b.wtypes(v) == a.wtypes(v),
    ensures
        b.resolved_worker(t) == Some(w),
{
    assert(a.claims(w, t));
    assert(b.claims(w, t));
    let v2 = choose|v: int| b.claims(v, t);
    assert(b.claims(v2, t));
    assert(a.claims(v2, t));
    assert(v2 == w);
}

/// The premises of the fairness law: a trace of `K + 1` states linked by
/// `K` successful dispatcher passes, starting from a well-formed core whose
/// `K` clients all have a head request routed to the same worker `w`, whose
/// sink has room for `K` more messages.
pub open spec fn fair_trace_premises(trace: Seq<Core>, w: int) -> bool {
    let s0 = trace[0];
    let n = s0.n_clients();
    &&& trace.len() == n + 1
    &&& n >= 1
    &&& s0.wf()
    &&& 0 <= w < s0.n_workers()
    &&& forall|s: int| 0 <= s < n ==> dispatch_outcome(trace[s], #[trigger] trace[s + 1], true)
    &&& forall|i: int| 0 <= i < n ==> (#[trigger] s0.creq(i)).len() > 0
    &&& forall|i: int| 0 <= i < n ==> !is_keystore_op((#[trigger] s0.creq(i))[0].typ())
    &&& forall|i: int|
        0 <= i < n ==> s0.resolved_worker((#[trigger] s0.creq(i))[0].typ()) == Some(w)
    &&& s0.wreq(w).len() + n <= s0.workers@[w].requests.cap()
}

/// What holds after `s` of those passes: the cursor has walked the rotation,
/// the first `s` rotation positions have been served exactly once, the rest
/// are untouched, and the worker has received exactly their head requests
/// in rotation order.
pub open spec fn fair_trace_inv(trace: Seq<Core>, w: int, s: int) -> bool {
    let s0 = trace[0];
    let n = s0.n_clients();
    let cur = trace[s];
    &&& cur.wf()
    &&& cur.n_clients() == n
    &&& cur.n_workers() == s0.n_workers()
    &&& (s > 0 ==> cur.last_client_id == s0.rot_client(s - 1))
    &&& (s == 0 ==> cur == s0)
    &&& forall|j: int|
        0 <= j < s ==> cur.creq(#[trigger] s0.rot_client(j)) == s0.creq(
            s0.rot_client(j),
        ).remove(0)
    &&& forall|j: int|
        s <= j < n ==> cur.creq(#[trigger] s0.rot_client(j)) == s0.creq(s0.rot_client(j))
    &&& cur.wreq(w) == s0.wreq(w) + Seq::new(s as nat, |j: int| s0.creq(s0.rot_client(j))[0])
    &&& cur.workers@[w].requests.cap() == s0.workers@[w].requests.cap()
    &&& forall|v: int| 0 <= v < s0.n_workers() ==> #[trigger] cur.wtypes(v) == s0.wtypes(v)
}

proof fn lemma_fair_trace_inv(trace: Seq<Core>, w: int, s: int)
    requires
        fair_trace_premises(trace, w),
        0 <= s <= trace[0].n_clients(),
    ensures
        fair_trace_inv(trace, w, s),
    decreases s,
{
    let s0 = trace[0];
    let n = s0.n_clients();
    if s == 0 {
        assert(s0.wreq(w) =~= s0.wreq(w) + Seq::new(0, |j: int| s0.creq(s0.rot_client(j))[0]));
    } else {
        lemma_fair_trace_inv(trace, w, s - 1);
        let cur = trace[s - 1];
        let nxt = trace[s];
        let istar = s0.rot_client(s - 1);
        assert(0 <= istar < n) by {
            vstd::arithmetic::div_mod::lemma_mod_bound(s0.last_client_id + 1 + (s - 1), n);
        }
        // The scan at `cur` starts exactly at this step's rotation position.
        assert(cur.rot_client(0) == istar) by {
            if s - 1 == 0 {
                assert(cur == s0);
            } else {
                let x = s0.last_client_id + 1 + (s - 2);
                assert(cur.last_client_id == x % n);
                vstd::arithmetic::div_mod::lemma_mod_bound(x, n);
                vstd::arithmetic::div_mod::lemma_add_mod_noop(x, 1, n);
                if n == 1 {
                    vstd::arithmetic::div_mod::lemma_mod_bound(x % n + 1, n);
                    vstd::arithmetic::div_mod::lemma_mod_bound(x + 1, n);
                } else {
                    vstd::arithmetic::div_mod::lemma_small_mod(1nat, n as nat);
                }
            }
        }
        // That client is genuinely ready: untouched head, routed to `w`,
        // and `w` still has room.
        assert(cur.creq(istar) == s0.creq(istar));
        let t = s0.creq(istar)[0].typ();
        lemma_resolved_worker_stable(s0, cur, t, w);
        assert(cur.wreq(w).len() == s0.wreq(w).len() + (s - 1));
        assert(cur.workers@[w].requests.has_space());
        assert(cur.client_head_ready(istar));
        // So the pass serves exactly this client.
        assert(cur.first_ready_client_from(0) == Some(istar));
        assert(cur.dispatch_winner() == Some(istar));
        assert(dispatch_outcome(trace[s - 1], trace[s - 1 + 1], true));
        assert(dispatch_outcome(cur, nxt, true));
        assert(dispatch_rel(cur, nxt, istar));
        lemma_wf_after_dispatch(cur, nxt, istar);
        // Carry the invariant across the step.
        assert(nxt.wreq(w) == cur.wreq(w).push(cur.creq(istar)[0]));
        assert(nxt.wreq(w) =~= s0.wreq(w) + Seq::new(
            s as nat,
            |j: int| s0.creq(s0.rot_client(j))[0],
        ));
        assert forall|j: int| 0 <= j < s implies nxt.creq(#[trigger] s0.rot_client(j)) == s0.creq(
            s0.rot_client(j),
        ).remove(0) by {
            if j < s - 1 {
                lemma_rot_client_injective(s0, j, s - 1);
                assert(nxt.clients@[s0.rot_client(j)] == cur.clients@[s0.rot_client(j)]);
            }
        }
        assert forall|j: int| s <= j < n implies nxt.creq(#[trigger] s0.rot_client(j)) == s0.creq(
            s0.rot_client(j),
        ) by {
            lemma_rot_client_injective(s0, j, s - 1);
            assert(nxt.clients@[s0.rot_client(j)] == cur.clients@[s0.rot_client(j)]);
        }
        assert forall|v: int| 0 <= v < s0.n_workers() implies #[trigger] nxt.wtypes(v)
            == s0.wtypes(v) by {
            if v != w {
                assert(nxt.workers@[v] == cur.workers@[v]);
            } else {
                assert(nxt.workers@[w].req_types == cur.workers@[w].req_types);
            }
            assert(cur.wtypes(v) == s0.wtypes(v));
        }
    }
}

/// Round-robin fairness: with `K` clients all continuously ready and
/// feeding the same worker whose sink has capacity for `K` more messages,
/// the first `K` successive dispatcher passes serve all `K` clients exactly
/// once, in rotation order starting one slot past the cursor, and the
/// worker receives their head requests in exactly that order.
pub proof fn lemma_round_robin_fairness(trace: Seq<Core>, w: int)
    requires
        fair_trace_premises(trace, w),
    ensures
        forall|s: int|
            0 <= s < trace[0].n_clients() ==> (#[trigger] trace[s + 1]).last_client_id
                == trace[0].rot_client(s),
        trace[trace[0].n_clients() as int].wreq(w) == trace[0].wreq(w) + Seq::new(
            trace[0].n_clients() as nat,
            |j: int| trace[0].creq(trace[0].rot_client(j))[0],
        ),
        forall|j: int|
            0 <= j < trace[0].n_clients() ==> trace[trace[0].n_clients() as int].creq(
                #[trigger] trace[0].rot_client(j),
            ) == trace[0].creq(trace[0].rot_client(j)).remove(0),
{
    let n = trace[0].n_clients();
    assert forall|s: int| 0 <= s < n implies (#[trigger] trace[s + 1]).last_client_id
        == trace[0].rot_client(s) by {
        lemma_fair_trace_inv(trace, w, s + 1);
    }
    lemma_fair_trace_inv(trace, w, n);
}

/// The worker contract, as one step of the surrounding system: the worker
/// behind channel `w` consumes its oldest pending request and enqueues one
/// response echoing `client_id` and `request_id` verbatim; nothing else
/// moves. `worker_pop_request` followed by `worker_push_response`
/// realizes exactly this.
pub open spec fn worker_echo_rel(pre: Core, post: Core, w: int, resp: Response) -> bool {
    &&& 0 <= w < pre.n_workers()
    &&& pre.wreq(w).len() > 0
    &&& post.n_clients() == pre.n_clients()
    &&& post.n_workers() == pre.n_workers()
    &&& post.clients@ == pre.clients@
    &&& post.key_store == pre.key_store
    &&& post.last_client_id == pre.last_client_id
    &&& post.last_worker_id == pre.last_worker_id
    &&& workers_same_except(pre, post, w)
    &&& post.wreq(w) == pre.wreq(w).remove(0)
    &&& post.wresp(w) == pre.wresp(w).push(resp)
    &&& post.workers@[w].req_types == pre.workers@[w].req_types
    &&& resp.client_id() == pre.wreq(w)[0].client_id()
    &&& resp.request_id() == pre.wreq(w)[0].request_id()
}

/// A single request's full journey, the backbone of "N requests in, N
/// responses out": client `i`'s head request is dispatched to the worker
/// claiming its type, answered by a worker honouring the echo contract, and
/// delivered back to exactly client `i` with the request's own id.
pub proof fn lemma_end_to_end_round_trip(
    s0: Core,
    s1: Core,
    s2: Core,
    s3: Core,
    i: int,
    w: int,
    resp: Response,
)
    requires
        s0.wf(),
        dispatch_rel(s0, s1, i),
        !is_keystore_op(s0.creq(i)[0].typ()),
        s0.resolved_worker(s0.creq(i)[0].typ()) == Some(w),
        s0.wreq(w).len() == 0,
        s0.wresp(w).len() == 0,
        worker_echo_rel(s1, s2, w, resp),
        respond_rel(s2, s3, w),
    ensures
        resp.client_id() == i as u32,
        resp.request_id() == s0.creq(i)[0].request_id(),
        s3.cresp(i) == s2.cresp(i).push(resp),
{
    let head = s0.creq(i)[0];
    assert(head.client_id() == i as u32);
    assert(s1.wreq(w) == s0.wreq(w).push(head));
    assert(s1.wreq(w)[0] == head);
    assert(s1.wresp(w) == s0.wresp(w));
    assert(s2.wresp(w)[0] == resp);
    assert(s3.cresp(i) == s2.cresp(i).push(resp));
}

/// `execute` with no queue activity is a no-op: nothing moves and the
/// cursors are untouched.
pub proof fn lemma_execute_idle_noop(pre: Core, post: Core, r: Result<(), Error>)
    requires
        pre.wf(),
        execute_rel(pre, post, r),
        pre.dispatch_winner() is None,
        pre.responder_pick() is None,
    ensures
        post == pre,
        r is Ok,
{
    let mid = choose|mid: Core|
        #![trigger mid.responder_pick()]
        {
            &&& dispatch_outcome(pre, mid, pre.dispatch_winner() is Some)
            &&& match mid.responder_pick() {
                Some(w) => {
                    if mid.wresp(w)[0].client_id() >= mid.n_clients() {
                        r == Err::<(), Error>(Error::InvalidClientId) && post == mid
                    } else {
                        r == Ok::<(), Error>(()) && respond_rel(mid, post, w)
                    }
                },
                None => r == Ok::<(), Error>(()) && post == mid,
            }
        };
    assert(mid == pre);
}

/// Round-trip law: an `ImportKey` request from client `i` against a key
/// store that accepts its key id is answered, in the same dispatch step, by
/// exactly `Response::ImportKey` with that client's id and the request's id
/// appended to that client's sink.
pub proof fn lemma_import_round_trip(pre: Core, post: Core, i: int)
    requires
        pre.wf(),
        dispatch_rel(pre, post, i),
        pre.creq(i)[0].typ() == RequestType::ImportKey,
        match pre.key_store {
            Some(ks) => ks.accepts(pre.creq(i)[0].key_id()),
            None => false,
        },
    ensures
        post.cresp(i) == pre.cresp(i).push(
            (Response::ImportKey {
                client_id: i as u32,
                request_id: pre.creq(i)[0].request_id(),
            }),
        ),
{
    let req = pre.creq(i)[0];
    assert(req.client_id() == i as u32);
    assert(is_keystore_op(req.typ()));
    assert(shim_response(pre.key_store, req) == (Response::ImportKey {
        client_id: i as u32,
        request_id: req.request_id(),
    }));
}

} // verus!
