//! The dispatch core: topology, builder, dispatcher and responder.
//!
//! The core owns one channel pair per client and one per worker. One call of
//! [`Core::execute`] forwards at most one message per direction: the
//! dispatcher moves the first ready client's head request to the worker that
//! advertises its type (or through the key-store shim), the responder moves
//! the first ready worker's head response to the client it names. Selection
//! is strict round-robin starting one slot past the most recent winner, and
//! a head is only dequeued once the downstream sink has space, so no message
//! is ever lost or duplicated.

use vstd::prelude::*;
use crate::jobs;
use crate::jobs::{Request, RequestType, Response};
use crate::keystore::MemoryKeyStore;
use crate::queue::Queue;
use crate::typelist::{TypeList, model, type_list_contains, type_list_new, type_list_push};

verus! {

/// Static bound on the number of request types one worker may advertise.
pub const MAX_REQUEST_TYPES: usize = 8;

/// Static bound on the client table.
pub const MAX_CLIENTS: usize = 8;

/// Static bound on the worker table.
pub const MAX_WORKERS: usize = 8;

/// Errors surfaced by the core itself.
#[derive(Clone, Copy, PartialEq, Eq, Structural, Debug)]
pub enum Error {
    /// Queue specific error.
    Send,
    /// Job specific error.
    Job(jobs::Error),
    /// The static client-table bound was exceeded while building.
    TooManyClients,
    /// The static worker-table bound was exceeded while building.
    TooManyWorkers,
    /// A worker advertised more types than fit its type list.
    TooManyRequestTypes,
    /// A worker advertised a request type another worker already claims.
    DuplicateRequestType,
    /// A worker advertised no request types at all.
    NoRequestTypes,
    /// A response carried a client id outside the client table: fatal, it
    /// signals a corrupted worker.
    InvalidClientId,
}

/// A registered client: the source of its requests and the sink of its
/// responses, owned exclusively by the core.
pub struct ClientChannel {
    pub requests: Queue<Request>,
    pub responses: Queue<Response>,
}

/// A registered worker: its advertised request types, the sink of its
/// requests and the source of its responses.
pub struct WorkerChannel {
    pub req_types: TypeList,
    pub requests: Queue<Request>,
    pub responses: Queue<Response>,
}

/// The frozen topology plus the two round-robin cursors.
pub struct Core {
    pub key_store: Option<MemoryKeyStore>,
    pub clients: Vec<ClientChannel>,
    pub workers: Vec<WorkerChannel>,
    pub last_client_id: usize,
    pub last_worker_id: usize,
}

/// Assembles a [`Core`], enforcing the topology invariants at registration
/// time so that the dispatcher never meets an unclaimed request type.
pub struct Builder {
    pub key_store: Option<MemoryKeyStore>,
    pub clients: Vec<ClientChannel>,
    pub workers: Vec<WorkerChannel>,
}

/// Request types the key-store shim handles locally instead of forwarding.
pub open spec fn is_keystore_op(t: RequestType) -> bool {
    t == RequestType::ImportKey
}

/// The response the key-store shim synthesizes for `req` (an import) against
/// the optional store `ks`.
pub open spec fn shim_response(ks: Option<MemoryKeyStore>, req: Request) -> Response {
    match ks {
        None => (Response::Error {
            client_id: req.client_id(),
            request_id: req.request_id(),
            error: jobs::Error::NoKeyStore,
        }),
        Some(store) => if store.accepts(req.key_id()) {
            (Response::ImportKey { client_id: req.client_id(), request_id: req.request_id() })
        } else {
            (Response::Error {
                client_id: req.client_id(),
                request_id: req.request_id(),
                error: jobs::Error::KeyStore(crate::keystore::Error::InvalidKeyId),
            })
        },
    }
}

/// How the key store changes when the shim handles `req`.
pub open spec fn shim_store_rel(
    pre: Option<MemoryKeyStore>,
    post: Option<MemoryKeyStore>,
    req: Request,
) -> bool {
    match pre {
        None => post is None,
        Some(s0) => match post {
            Some(s1) => {
                &&& s1.wf()
                &&& s1.ids() == s0.ids()
                &&& if s0.accepts(req.key_id()) {
                    &&& s1.stored(req.key_id()) == Some(req.import_data())
                    &&& forall|k: u32| k != req.key_id() ==> s1.stored(k) == s0.stored(k)
                } else {
                    s1 == s0
                }
            },
            None => false,
        },
    }
}

/// All clients other than `i` are exactly as they were.
pub open spec fn clients_same_except(pre: Core, post: Core, i: int) -> bool {
    &&& post.clients@.len() == pre.clients@.len()
    &&& forall|j: int|
        0 <= j < pre.clients@.len() && j != i ==> post.clients@[j] == pre.clients@[j]
}

/// All workers other than `w` are exactly as they were.
pub open spec fn workers_same_except(pre: Core, post: Core, w: int) -> bool {
    &&& post.workers@.len() == pre.workers@.len()
    &&& forall|v: int|
        0 <= v < pre.workers@.len() && v != w ==> post.workers@[v] == pre.workers@[v]
}

impl Core {
    pub open spec fn n_clients(self) -> int {
        self.clients@.len() as int
    }

    pub open spec fn n_workers(self) -> int {
        self.workers@.len() as int
    }

    /// Pending requests of client `i`, oldest first.
    pub open spec fn creq(self, i: int) -> Seq<Request> {
        self.clients@[i].requests@
    }

    /// Pending responses to client `i`, oldest first.
    pub open spec fn cresp(self, i: int) -> Seq<Response> {
        self.clients@[i].responses@
    }

    /// Pending requests at worker `w`, oldest first.
    pub open spec fn wreq(self, w: int) -> Seq<Request> {
        self.workers@[w].requests@
    }

    /// Pending responses from worker `w`, oldest first.
    pub open spec fn wresp(self, w: int) -> Seq<Response> {
        self.workers@[w].responses@
    }

    /// The request types worker `w` advertises.
    pub open spec fn wtypes(self, w: int) -> Seq<RequestType> {
        model(self.workers@[w].req_types)
    }

    /// Worker `w` advertises request type `t`.
    pub open spec fn claims(self, w: int, t: RequestType) -> bool {
        0 <= w < self.n_workers() && self.wtypes(w).contains(t)
    }

    /// Invariant: every request type is claimed by at most one worker.
    pub open spec fn types_disjoint(self) -> bool {
        forall|w1: int, w2: int, t: RequestType|
            self.claims(w1, t) && self.claims(w2, t) ==> w1 == w2
    }

    /// The single worker that claims `t`, if any.
    pub open spec fn resolved_worker(self, t: RequestType) -> Option<int> {
        if exists|w: int| self.claims(w, t) {
            Some(choose|w: int| self.claims(w, t))
        } else {
            None
        }
    }

    pub open spec fn queues_wf(self) -> bool {
        &&& forall|i: int|
            0 <= i < self.n_clients() ==> (#[trigger] self.clients@[i]).requests.wf()
                && self.clients@[i].responses.wf()
        &&& forall|w: int|
            0 <= w < self.n_workers() ==> (#[trigger] self.workers@[w]).requests.wf()
                && self.workers@[w].responses.wf()
    }

    /// Invariant: the core stamps client ids on admission, so every pending
    /// request of client `i` carries client id `i`.
    pub open spec fn client_ids_stamped(self) -> bool {
        forall|i: int, j: int|
            0 <= i < self.n_clients() && 0 <= j < self.creq(i).len() ==> (#[trigger] self.creq(
                i,
            )[j]).client_id() == i as u32
    }

    /// Invariant: every response pending at client `i`'s sink names client
    /// `i` (the responder resolves destinations by that id).
    pub open spec fn cresp_addressed(self) -> bool {
        forall|i: int, j: int|
            0 <= i < self.n_clients() && 0 <= j < self.cresp(i).len() ==> (#[trigger] self.cresp(
                i,
            )[j]).client_id() == i as u32
    }

    /// Invariant: a worker only ever holds requests whose type it advertises
    /// and whose client id is a real client.
    pub open spec fn wreq_routed(self) -> bool {
        forall|w: int, j: int|
            0 <= w < self.n_workers() && 0 <= j < self.wreq(w).len() ==> self.wtypes(w).contains(
                (#[trigger] self.wreq(w)[j]).typ(),
            ) && self.wreq(w)[j].client_id() < self.n_clients()
    }

    pub open spec fn key_store_wf(self) -> bool {
        match self.key_store {
            Some(ks) => ks.wf(),
            None => true,
        }
    }

    pub open spec fn wf(self) -> bool {
        &&& self.n_clients() <= MAX_CLIENTS
        &&& self.n_workers() <= MAX_WORKERS
        &&& (self.n_clients() > 0 ==> self.last_client_id < self.n_clients())
        &&& (self.n_workers() > 0 ==> self.last_worker_id < self.n_workers())
        &&& self.types_disjoint()
        &&& self.queues_wf()
        &&& self.client_ids_stamped()
        &&& self.cresp_addressed()
        &&& self.wreq_routed()
        &&& self.key_store_wf()
    }

    /// Rotated client permutation: position `k` of the round-robin scan that
    /// starts one slot past the most recent winner.
    pub open spec fn rot_client(self, k: int) -> int {
        (self.last_client_id + 1 + k) % self.n_clients()
    }

    /// Rotated worker permutation for the responder.
    pub open spec fn rot_worker(self, k: int) -> int {
        (self.last_worker_id + 1 + k) % self.n_workers()
    }

    /// Client `i` is jointly ready: a request is peekable at its head and
    /// the resolved downstream sink has space for one message.
    pub open spec fn client_head_ready(self, i: int) -> bool {
        &&& 0 <= i < self.n_clients()
        &&& self.creq(i).len() > 0
        &&& {
            let t = self.creq(i)[0].typ();
            if is_keystore_op(t) {
                self.clients@[i].responses.has_space()
            } else {
                match self.resolved_worker(t) {
                    Some(w) => self.workers@[w].requests.has_space(),
                    None => self.clients@[i].responses.has_space(),
                }
            }
        }
    }

    /// The first fully ready client at or after rotation position `k`.
    pub open spec fn first_ready_client_from(self, k: int) -> Option<int>
        decreases self.n_clients() - k
            when 0 <= k <= self.n_clients()
    {
        if k >= self.n_clients() {
            None
        } else if self.client_head_ready(self.rot_client(k)) {
            Some(self.rot_client(k))
        } else {
            self.first_ready_client_from(k + 1)
        }
    }

    /// The client the dispatcher serves next, if any is ready.
    pub open spec fn dispatch_winner(self) -> Option<int> {
        if self.n_clients() == 0 {
            None
        } else {
            self.first_ready_client_from(0)
        }
    }

    /// Worker `w` can be acted on by the responder: a response is peekable
    /// at its head, and either its destination sink has space or its client
    /// id is out of range (the fatal case, which also stops the scan).
    pub open spec fn worker_head_actionable(self, w: int) -> bool {
        &&& 0 <= w < self.n_workers()
        &&& self.wresp(w).len() > 0
        &&& {
            let cid = self.wresp(w)[0].client_id();
            cid >= self.n_clients() || self.clients@[cid as int].responses.has_space()
        }
    }

    /// The first actionable worker at or after rotation position `k`.
    pub open spec fn first_actionable_worker_from(self, k: int) -> Option<int>
        decreases self.n_workers() - k
            when 0 <= k <= self.n_workers()
    {
        if k >= self.n_workers() {
            None
        } else if self.worker_head_actionable(self.rot_worker(k)) {
            Some(self.rot_worker(k))
        } else {
            self.first_actionable_worker_from(k + 1)
        }
    }

    /// The worker the responder acts on next, if any.
    pub open spec fn responder_pick(self) -> Option<int> {
        if self.n_workers() == 0 {
            None
        } else {
            self.first_actionable_worker_from(0)
        }
    }
}

/// The dispatcher's state change when client `i` wins: `i`'s head request is
/// dequeued and, in one atomic step, either forwarded to the worker that
/// claims its type, answered by the key-store shim, or answered with an
/// `UnknownRequestType` error — never more than one of these, never none.
pub open spec fn dispatch_rel(pre: Core, post: Core, i: int) -> bool {
    &&& 0 <= i < pre.n_clients()
    &&& pre.creq(i).len() > 0
    &&& post.n_clients() == pre.n_clients()
    &&& post.n_workers() == pre.n_workers()
    &&& post.last_client_id == i
    &&& post.last_worker_id == pre.last_worker_id
    &&& post.creq(i) == pre.creq(i).remove(0)
    &&& post.clients@[i].requests.cap() == pre.clients@[i].requests.cap()
    &&& post.clients@[i].responses.cap() == pre.clients@[i].responses.cap()
    &&& clients_same_except(pre, post, i)
    &&& {
        let req = pre.creq(i)[0];
        let t = req.typ();
        if is_keystore_op(t) {
            &&& post.workers@ == pre.workers@
            &&& post.cresp(i) == pre.cresp(i).push(shim_response(pre.key_store, req))
            &&& shim_store_rel(pre.key_store, post.key_store, req)
        } else {
            match pre.resolved_worker(t) {
                Some(w) => {
                    &&& post.key_store == pre.key_store
                    &&& post.cresp(i) == pre.cresp(i)
                    &&& workers_same_except(pre, post, w)
                    &&& post.wreq(w) == pre.wreq(w).push(req)
                    &&& post.workers@[w].responses == pre.workers@[w].responses
                    &&& post.workers@[w].req_types == pre.workers@[w].req_types
                    &&& post.workers@[w].requests.cap() == pre.workers@[w].requests.cap()
                },
                None => {
                    &&& post.key_store == pre.key_store
                    &&& post.workers@ == pre.workers@
                    &&& post.cresp(i) == pre.cresp(i).push(
                        (Response::Error {
                            client_id: req.client_id(),
                            request_id: req.request_id(),
                            error: jobs::Error::UnknownRequestType,
                        }),
                    )
                },
            }
        }
    }
}

/// The responder's state change when worker `w` wins with a deliverable
/// head: the response is dequeued and appended to the sink of the client it
/// names, and nothing else moves.
pub open spec fn respond_rel(pre: Core, post: Core, w: int) -> bool {
    &&& 0 <= w < pre.n_workers()
    &&& pre.wresp(w).len() > 0
    &&& {
        let resp = pre.wresp(w)[0];
        let cid = resp.client_id() as int;
        &&& 0 <= cid < pre.n_clients()
        &&& post.n_clients() == pre.n_clients()
        &&& post.n_workers() == pre.n_workers()
        &&& post.last_worker_id == w
        &&& post.last_client_id == pre.last_client_id
        &&& post.key_store == pre.key_store
        &&& workers_same_except(pre, post, w)
        &&& post.wresp(w) == pre.wresp(w).remove(0)
        &&& post.workers@[w].requests == pre.workers@[w].requests
        &&& post.workers@[w].req_types == pre.workers@[w].req_types
        &&& post.workers@[w].responses.cap() == pre.workers@[w].responses.cap()
        &&& clients_same_except(pre, post, cid)
        &&& post.cresp(cid) == pre.cresp(cid).push(resp)
        &&& post.clients@[cid].requests == pre.clients@[cid].requests
        &&& post.clients@[cid].responses.cap() == pre.clients@[cid].responses.cap()
    }
}

/// Everything one dispatcher pass can do: serve the round-robin winner, or
/// change nothing when no client is ready.
pub open spec fn dispatch_outcome(pre: Core, post: Core, progress: bool) -> bool {
    match pre.dispatch_winner() {
        Some(i) => progress && dispatch_rel(pre, post, i),
        None => !progress && post == pre,
    }
}

/// Everything one responder pass can do: deliver the round-robin winner's
/// head, halt on an out-of-range client id, or change nothing.
pub open spec fn respond_outcome(pre: Core, post: Core, r: Result<bool, Error>) -> bool {
    match pre.responder_pick() {
        Some(w) => {
            if pre.wresp(w)[0].client_id() >= pre.n_clients() {
                r == Err::<bool, Error>(Error::InvalidClientId) && post == pre
            } else {
                r == Ok::<bool, Error>(true) && respond_rel(pre, post, w)
            }
        },
        None => r == Ok::<bool, Error>(false) && post == pre,
    }
}

/// The round-robin scan is insensitive to a prefix of unready clients.
pub proof fn lemma_first_ready_prefix(s: Core, k: int)
    requires
        0 <= k <= s.n_clients(),
        forall|j: int| 0 <= j < k ==> !s.client_head_ready(#[trigger] s.rot_client(j)),
    ensures
        s.first_ready_client_from(0) == s.first_ready_client_from(k),
    decreases k,
{
    if k > 0 {
        lemma_first_ready_prefix(s, k - 1);
    }
}

/// The responder's scan is insensitive to a prefix of unactionable workers.
pub proof fn lemma_first_actionable_prefix(s: Core, k: int)
    requires
        0 <= k <= s.n_workers(),
        forall|j: int| 0 <= j < k ==> !s.worker_head_actionable(#[trigger] s.rot_worker(j)),
    ensures
        s.first_actionable_worker_from(0) == s.first_actionable_worker_from(k),
    decreases k,
{
    if k > 0 {
        lemma_first_actionable_prefix(s, k - 1);
    }
}

/// A dispatch step from a ready client preserves the core's invariants.
pub proof fn lemma_wf_after_dispatch(pre: Core, post: Core, i: int)
    requires
        pre.wf(),
        pre.client_head_ready(i),
        dispatch_rel(pre, post, i),
    ensures
        post.wf(),
{
    let req = pre.creq(i)[0];
    let t = req.typ();
    assert(req.client_id() == i as u32);
    assert forall|w: int| 0 <= w < post.n_workers() implies #[trigger] post.wtypes(w)
        == pre.wtypes(w) by {
        if !is_keystore_op(t) {
            match pre.resolved_worker(t) {
                Some(wr) => {
                    if w != wr {
                        assert(post.workers@[w] == pre.workers@[w]);
                    } else {
                        assert(post.workers@[wr].req_types == pre.workers@[wr].req_types);
                    }
                },
                None => {},
            }
        }
    }
    assert forall|w1: int, w2: int, t2: RequestType|
        post.claims(w1, t2) && post.claims(w2, t2) implies w1 == w2 by {
        assert(post.wtypes(w1) == pre.wtypes(w1));
        assert(post.wtypes(w2) == pre.wtypes(w2));
        assert(pre.claims(w1, t2) && pre.claims(w2, t2));
    }
    assert forall|j: int|
        0 <= j < post.n_clients() implies (#[trigger] post.clients@[j]).requests.wf()
        && post.clients@[j].responses.wf() by {
        if j != i {
            assert(post.clients@[j] == pre.clients@[j]);
        } else {
            assert(post.creq(i).len() == pre.creq(i).len() - 1);
            if is_keystore_op(t) {
                assert(pre.clients@[i].responses.has_space());
            } else {
                match pre.resolved_worker(t) {
                    Some(wr) => {
                        assert(post.cresp(i) == pre.cresp(i));
                    },
                    None => {
                        assert(pre.clients@[i].responses.has_space());
                    },
                }
            }
        }
    }
    assert forall|w: int|
        0 <= w < post.n_workers() implies (#[trigger] post.workers@[w]).requests.wf()
        && post.workers@[w].responses.wf() by {
        if is_keystore_op(t) {
            assert(post.workers@[w] == pre.workers@[w]);
        } else {
            match pre.resolved_worker(t) {
                Some(wr) => {
                    if w != wr {
                        assert(post.workers@[w] == pre.workers@[w]);
                    } else {
                        assert(pre.workers@[wr].requests.has_space());
                        assert(post.workers@[wr].responses == pre.workers@[wr].responses);
                    }
                },
                None => {
                    assert(post.workers@[w] == pre.workers@[w]);
                },
            }
        }
    }
    assert forall|i2: int, j: int|
        0 <= i2 < post.n_clients() && 0 <= j < post.creq(i2).len() implies (#[trigger] post.creq(
        i2,
    )[j]).client_id() == i2 as u32 by {
        if i2 != i {
            assert(post.creq(i2) == pre.creq(i2));
        } else {
            assert(post.creq(i)[j] == pre.creq(i)[j + 1]);
        }
    }
    assert forall|i2: int, j: int|
        0 <= i2 < post.n_clients() && 0 <= j < post.cresp(i2).len() implies (#[trigger] post.cresp(
        i2,
    )[j]).client_id() == i2 as u32 by {
        if i2 != i {
            assert(post.cresp(i2) == pre.cresp(i2));
        } else {
            if is_keystore_op(t) {
                if j < pre.cresp(i).len() {
                    assert(post.cresp(i)[j] == pre.cresp(i)[j]);
                } else {
                    assert(post.cresp(i)[j] == shim_response(pre.key_store, req));
                    assert(shim_response(pre.key_store, req).client_id() == req.client_id());
                }
            } else {
                match pre.resolved_worker(t) {
                    Some(_) => {
                        assert(post.cresp(i) == pre.cresp(i));
                    },
                    None => {
                        if j < pre.cresp(i).len() {
                            assert(post.cresp(i)[j] == pre.cresp(i)[j]);
                        }
                    },
                }
            }
        }
    }
    assert forall|w: int, j: int|
        0 <= w < post.n_workers() && 0 <= j < post.wreq(w).len() implies post.wtypes(w).contains(
        (#[trigger] post.wreq(w)[j]).typ(),
    ) && post.wreq(w)[j].client_id() < post.n_clients() by {
        assert(post.wtypes(w) == pre.wtypes(w));
        if is_keystore_op(t) {
            assert(post.wreq(w) == pre.wreq(w));
        } else {
            match pre.resolved_worker(t) {
                Some(wr) => {
                    if w != wr {
                        assert(post.workers@[w] == pre.workers@[w]);
                        assert(post.wreq(w) == pre.wreq(w));
                    } else {
                        if j < pre.wreq(wr).len() {
                            assert(post.wreq(wr)[j] == pre.wreq(wr)[j]);
                        } else {
                            assert(post.wreq(wr)[j] == req);
                            assert(pre.claims(wr, t));
                        }
                    }
                },
                None => {
                    assert(post.wreq(w) == pre.wreq(w));
                },
            }
        }
    }
}

/// A responder step delivering to an in-range client with sink space
/// preserves the core's invariants.
pub proof fn lemma_wf_after_respond(pre: Core, post: Core, w: int)
    requires
        pre.wf(),
        respond_rel(pre, post, w),
        pre.clients@[pre.wresp(w)[0].client_id() as int].responses.has_space(),
    ensures
        post.wf(),
{
    let resp = pre.wresp(w)[0];
    let cid = resp.client_id() as int;
    assert forall|v: int| 0 <= v < post.n_workers() implies #[trigger] post.wtypes(v)
        == pre.wtypes(v) by {
        if v != w {
            assert(post.workers@[v] == pre.workers@[v]);
        } else {
            assert(post.workers@[w].req_types == pre.workers@[w].req_types);
        }
    }
    assert forall|w1: int, w2: int, t2: RequestType|
        post.claims(w1, t2) && post.claims(w2, t2) implies w1 == w2 by {
        assert(post.wtypes(w1) == pre.wtypes(w1));
        assert(post.wtypes(w2) == pre.wtypes(w2));
        assert(pre.claims(w1, t2) && pre.claims(w2, t2));
    }
    assert forall|j: int|
        0 <= j < post.n_clients() implies (#[trigger] post.clients@[j]).requests.wf()
        && post.clients@[j].responses.wf() by {
        if j != cid {
            assert(post.clients@[j] == pre.clients@[j]);
        } else {
            assert(post.clients@[cid].requests == pre.clients@[cid].requests);
        }
    }
    assert forall|v: int|
        0 <= v < post.n_workers() implies (#[trigger] post.workers@[v]).requests.wf()
        && post.workers@[v].responses.wf() by {
        if v != w {
            assert(post.workers@[v] == pre.workers@[v]);
        } else {
            assert(post.workers@[w].requests == pre.workers@[w].requests);
            assert(post.wresp(w).len() == pre.wresp(w).len() - 1);
        }
    }
    assert forall|i2: int, j: int|
        0 <= i2 < post.n_clients() && 0 <= j < post.creq(i2).len() implies (#[trigger] post.creq(
        i2,
    )[j]).client_id() == i2 as u32 by {
        if i2 != cid {
            assert(post.creq(i2) == pre.creq(i2));
        } else {
            assert(post.clients@[cid].requests == pre.clients@[cid].requests);
        }
    }
    assert forall|i2: int, j: int|
        0 <= i2 < post.n_clients() && 0 <= j < post.cresp(i2).len() implies (#[trigger] post.cresp(
        i2,
    )[j]).client_id() == i2 as u32 by {
        if i2 != cid {
            assert(post.cresp(i2) == pre.cresp(i2));
        } else {
            if j < pre.cresp(cid).len() {
                assert(post.cresp(cid)[j] == pre.cresp(cid)[j]);
            } else {
                assert(post.cresp(cid)[j] == resp);
            }
        }
    }
    assert forall|v: int, j: int|
        0 <= v < post.n_workers() && 0 <= j < post.wreq(v).len() implies post.wtypes(v).contains(
        (#[trigger] post.wreq(v)[j]).typ(),
    ) && post.wreq(v)[j].client_id() < post.n_clients() by {
        assert(post.wtypes(v) == pre.wtypes(v));
        if v != w {
            assert(post.workers@[v] == pre.workers@[v]);
            assert(post.wreq(v) == pre.wreq(v));
        } else {
            assert(post.workers@[w].requests == pre.workers@[w].requests);
            assert(post.wreq(w) == pre.wreq(w));
        }
    }
}

/// A core whose tables are the same values as a well-formed one, and whose
/// cursors are in range, is well-formed.
proof fn lemma_wf_same_tables(pre: Core, post: Core)
    requires
        pre.wf(),
        post.clients == pre.clients,
        post.workers == pre.workers,
        post.key_store_wf(),
        post.n_clients() > 0 ==> post.last_client_id < post.n_clients(),
        post.n_workers() > 0 ==> post.last_worker_id < post.n_workers(),
    ensures
        post.wf(),
{
    assert forall|w1: int, w2: int, t: RequestType|
        post.claims(w1, t) && post.claims(w2, t) implies w1 == w2 by {
        assert(post.wtypes(w1) == pre.wtypes(w1));
        assert(post.wtypes(w2) == pre.wtypes(w2));
        assert(pre.claims(w1, t) && pre.claims(w2, t));
    }
    assert forall|i: int|
        0 <= i < post.n_clients() implies (#[trigger] post.clients@[i]).requests.wf()
        && post.clients@[i].responses.wf() by {
        assert(post.clients@[i] == pre.clients@[i]);
    }
    assert forall|w: int|
        0 <= w < post.n_workers() implies (#[trigger] post.workers@[w]).requests.wf()
        && post.workers@[w].responses.wf() by {
        assert(post.workers@[w] == pre.workers@[w]);
    }
    assert forall|i: int, j: int|
        0 <= i < post.n_clients() && 0 <= j < post.creq(i).len() implies (#[trigger] post.creq(
        i,
    )[j]).client_id() == i as u32 by {
        assert(post.creq(i) == pre.creq(i));
    }
    assert forall|i: int, j: int|
        0 <= i < post.n_clients() && 0 <= j < post.cresp(i).len() implies (#[trigger] post.cresp(
        i,
    )[j]).client_id() == i as u32 by {
        assert(post.cresp(i) == pre.cresp(i));
    }
    assert forall|w: int, j: int|
        0 <= w < post.n_workers() && 0 <= j < post.wreq(w).len() implies post.wtypes(w).contains(
        (#[trigger] post.wreq(w)[j]).typ(),
    ) && post.wreq(w)[j].client_id() < post.n_clients() by {
        assert(post.wreq(w) == pre.wreq(w));
        assert(post.wtypes(w) == pre.wtypes(w));
    }
}

/// One `execute` tick: a dispatcher pass reaching an intermediate state,
/// then a responder pass on it. `Err` is exactly the responder's fatal
/// out-of-range client id, and leaves the intermediate state untouched.
pub open spec fn execute_rel(pre: Core, post: Core, r: Result<(), Error>) -> bool {
    exists|mid: Core|
        #![trigger mid.responder_pick()]
        {
            &&& dispatch_outcome(pre, mid, pre.dispatch_winner() is Some)
            &&& match mid.responder_pick() {
                Some(w) => {
                    if mid.wresp(w)[0].client_id() >= mid.n_clients() {
                        r == Err::<(), Error>(Error::InvalidClientId) && post == mid
                    } else {
                        r == Ok::<(), Error>(()) && respond_rel(mid, post, w)
                    }
                },
                None => r == Ok::<(), Error>(()) && post == mid,
            }
        }
}

impl Default for Builder {
    fn default() -> (b: Builder)
        ensures
            b.wf(),
            b.key_store is None,
            b.clients@.len() == 0,
            b.workers@.len() == 0,
    {
        Builder::new()
    }
}

impl Builder {
    /// The core this builder would freeze into right now.
    pub open spec fn as_core(self) -> Core {
        Core {
            key_store: self.key_store,
            clients: self.clients,
            workers: self.workers,
            last_client_id: 0,
            last_worker_id: 0,
        }
    }

    pub open spec fn wf(self) -> bool {
        self.as_core().wf()
    }

    pub fn new() -> (b: Builder)
        ensures
            b.wf(),
            b.key_store is None,
            b.clients@.len() == 0,
            b.workers@.len() == 0,
    {
        Builder { key_store: None, clients: Vec::new(), workers: Vec::new() }
    }

    /// Attach an optional shared key store.
    pub fn with_keystore(self, key_store: MemoryKeyStore) -> (b: Builder)
        requires
            self.wf(),
            key_store.wf(),
        ensures
            b.wf(),
            b.key_store == Some(key_store),
            b.clients == self.clients,
            b.workers == self.workers,
    {
        let b = Builder {
            key_store: Some(key_store),
            clients: self.clients,
            workers: self.workers,
        };
        proof {
            lemma_wf_same_tables(self.as_core(), b.as_core());
        }
        b
    }

    /// Append a client channel: a request queue and a response queue with
    /// the given capacities. Client index is assigned in registration order.
    /// Fails with `TooManyClients` exactly when the static bound is reached.
    pub fn with_client(self, req_capacity: usize, resp_capacity: usize) -> (r: Result<
        Builder,
        Error,
    >)
        requires
            self.wf(),
        ensures
            match r {
                Ok(b) => {
                    &&& self.clients@.len() < MAX_CLIENTS
                    &&& b.wf()
                    &&& b.key_store == self.key_store
                    &&& b.workers == self.workers
                    &&& b.clients@.len() == self.clients@.len() + 1
                    &&& forall|j: int|
                        0 <= j < self.clients@.len() ==> b.clients@[j] == self.clients@[j]
                    &&& b.clients@[self.clients@.len() as int].requests@ == Seq::<
                        Request,
                    >::empty()
                    &&& b.clients@[self.clients@.len() as int].responses@ == Seq::<
                        Response,
                    >::empty()
                    &&& b.clients@[self.clients@.len() as int].requests.cap() == req_capacity
                    &&& b.clients@[self.clients@.len() as int].responses.cap() == resp_capacity
                },
                Err(e) => e == Error::TooManyClients && self.clients@.len() >= MAX_CLIENTS,
            },
    {
        if self.clients.len() >= MAX_CLIENTS {
            return Err(Error::TooManyClients);
        }
        let mut clients = self.clients;
        clients.push(
            ClientChannel {
                requests: Queue::with_capacity(req_capacity),
                responses: Queue::with_capacity(resp_capacity),
            },
        );
        let b = Builder { key_store: self.key_store, clients, workers: self.workers };
        proof {
            let c = b.as_core();
            let pre = self.as_core();
            let n0 = pre.n_clients();
            assert forall|w1: int, w2: int, t: RequestType|
                c.claims(w1, t) && c.claims(w2, t) implies w1 == w2 by {
                assert(c.wtypes(w1) == pre.wtypes(w1));
                assert(c.wtypes(w2) == pre.wtypes(w2));
                assert(pre.claims(w1, t) && pre.claims(w2, t));
            }
            assert forall|i: int|
                0 <= i < c.n_clients() implies (#[trigger] c.clients@[i]).requests.wf()
                && c.clients@[i].responses.wf() by {
                if i < n0 {
                    assert(c.clients@[i] == pre.clients@[i]);
                }
            }
            assert forall|w: int|
                0 <= w < c.n_workers() implies (#[trigger] c.workers@[w]).requests.wf()
                && c.workers@[w].responses.wf() by {
                assert(c.workers@[w] == pre.workers@[w]);
            }
            assert forall|i: int, j: int|
                0 <= i < c.n_clients() && 0 <= j < c.creq(i).len() implies (#[trigger] c.creq(
                i,
            )[j]).client_id() == i as u32 by {
                if i < n0 {
                    assert(c.creq(i) == pre.creq(i));
                } else {
                    assert(c.creq(i).len() == 0);
                }
            }
            assert forall|i: int, j: int|
                0 <= i < c.n_clients() && 0 <= j < c.cresp(i).len() implies (#[trigger] c.cresp(
                i,
            )[j]).client_id() == i as u32 by {
                if i < n0 {
                    assert(c.cresp(i) == pre.cresp(i));
                } else {
                    assert(c.cresp(i).len() == 0);
                }
            }
            assert forall|w: int, j: int|
                0 <= w < c.n_workers() && 0 <= j < c.wreq(w).len() implies c.wtypes(w).contains(
                (#[trigger] c.wreq(w)[j]).typ(),
            ) && c.wreq(w)[j].client_id() < c.n_clients() by {
                assert(c.wreq(w) == pre.wreq(w));
                assert(c.wtypes(w) == pre.wtypes(w));
            }
        }
        Ok(b)
    }

    /// Append a worker channel advertising `req_types`. Fails exactly when a
    /// listed type is already claimed by a registered worker, when the list
    /// is empty or exceeds its bound, or when the worker table is full.
    pub fn with_worker(
        self,
        req_types: &[RequestType],
        req_capacity: usize,
        resp_capacity: usize,
    ) -> (r: Result<Builder, Error>)
        requires
            self.wf(),
        ensures
            ({
                let dup = exists|w: int, k: int|
                    0 <= k < req_types@.len() && self.as_core().claims(w, req_types@[k]);
                match r {
                    Ok(b) => {
                        &&& !dup
                        &&& 1 <= req_types@.len() <= MAX_REQUEST_TYPES
                        &&& self.workers@.len() < MAX_WORKERS
                        &&& b.wf()
                        &&& b.key_store == self.key_store
                        &&& b.clients == self.clients
                        &&& b.workers@.len() == self.workers@.len() + 1
                        &&& forall|v: int|
                            0 <= v < self.workers@.len() ==> b.workers@[v] == self.workers@[v]
                        &&& model(b.workers@[self.workers@.len() as int].req_types)
                            == req_types@
                        &&& b.workers@[self.workers@.len() as int].requests@ == Seq::<
                            Request,
                        >::empty()
                        &&& b.workers@[self.workers@.len() as int].responses@ == Seq::<
                            Response,
                        >::empty()
                        &&& b.workers@[self.workers@.len() as int].requests.cap() == req_capacity
                        &&& b.workers@[self.workers@.len() as int].responses.cap()
                            == resp_capacity
                    },
                    Err(e) => {
                        &&& (e == Error::DuplicateRequestType <==> dup)
                        &&& (dup
                            || (req_types@.len() > MAX_REQUEST_TYPES && e
                            == Error::TooManyRequestTypes)
                            || (req_types@.len() == 0 && e == Error::NoRequestTypes)
                            || (1 <= req_types@.len() <= MAX_REQUEST_TYPES
                            && self.workers@.len() >= MAX_WORKERS && e == Error::TooManyWorkers))
                    },
                }
            }),
    {
        // Reject any type another worker already claims (the core's central
        // build-time invariant).
        let m = self.workers.len();
        let nt = req_types.len();
        let mut w: usize = 0;
        while w < m
            invariant
                m == self.workers@.len(),
                nt == req_types@.len(),
                w <= m,
                forall|v: int, k: int|
                    0 <= v < w && 0 <= k < nt ==> !self.as_core().claims(v, req_types@[k]),
            decreases m - w,
        {
            let mut k: usize = 0;
            while k < nt
                invariant
                    m == self.workers@.len(),
                    nt == req_types@.len(),
                    w < m,
                    k <= nt,
                    forall|v: int, kk: int|
                        0 <= v < w && 0 <= kk < nt ==> !self.as_core().claims(v, req_types@[kk]),
                    forall|kk: int| 0 <= kk < k ==> !self.as_core().claims(w as int, req_types@[kk]),
                decreases nt - k,
            {
                if type_list_contains(&self.workers[w].req_types, req_types[k]) {
                    proof {
                        assert(self.as_core().claims(w as int, req_types@[k as int]));
                    }
                    return Err(Error::DuplicateRequestType);
                }
                k += 1;
            }
            w += 1;
        }
        if nt > MAX_REQUEST_TYPES {
            return Err(Error::TooManyRequestTypes);
        }
        if nt == 0 {
            return Err(Error::NoRequestTypes);
        }
        if m >= MAX_WORKERS {
            return Err(Error::TooManyWorkers);
        }
        // Copy the advertised types into the fixed-capacity list.
        let mut tl = type_list_new();
        let mut k: usize = 0;
        while k < nt
            invariant
                nt == req_types@.len(),
                nt <= MAX_REQUEST_TYPES,
                k <= nt,
                model(tl) == req_types@.subrange(0, k as int),
            decreases nt - k,
        {
            proof {
                assert(model(tl).len() == k < 8);
            }
            let pushed = type_list_push(&mut tl, req_types[k]);
            proof {
                assert(model(tl) =~= req_types@.subrange(0, k + 1 as int));
            }
            k += 1;
        }
        proof {
            assert(model(tl) =~= req_types@);
        }
        let mut workers = self.workers;
        workers.push(
            WorkerChannel {
                req_types: tl,
                requests: Queue::with_capacity(req_capacity),
                responses: Queue::with_capacity(resp_capacity),
            },
        );
        let b = Builder { key_store: self.key_store, clients: self.clients, workers };
        proof {
            let c = b.as_core();
            let pre = self.as_core();
            let newi = pre.n_workers();
            assert forall|w1: int, w2: int, t: RequestType|
                c.claims(w1, t) && c.claims(w2, t) implies w1 == w2 by {
                if w1 < newi {
                    assert(c.wtypes(w1) == pre.wtypes(w1));
                    assert(pre.claims(w1, t));
                }
                if w2 < newi {
                    assert(c.wtypes(w2) == pre.wtypes(w2));
                    assert(pre.claims(w2, t));
                }
                if w1 == newi && w2 < newi {
                    let k = choose|k: int| 0 <= k < req_types@.len() && req_types@[k] == t;
                    assert(pre.claims(w2, req_types@[k]));
                } else if w2 == newi && w1 < newi {
                    let k = choose|k: int| 0 <= k < req_types@.len() && req_types@[k] == t;
                    assert(pre.claims(w1, req_types@[k]));
                }
            }
            assert forall|i: int|
                0 <= i < c.n_clients() implies (#[trigger] c.clients@[i]).requests.wf()
                && c.clients@[i].responses.wf() by {
                assert(c.clients@[i] == pre.clients@[i]);
            }
            assert forall|v: int|
                0 <= v < c.n_workers() implies (#[trigger] c.workers@[v]).requests.wf()
                && c.workers@[v].responses.wf() by {
                if v < newi {
                    assert(c.workers@[v] == pre.workers@[v]);
                }
            }
            assert forall|i: int, j: int|
                0 <= i < c.n_clients() && 0 <= j < c.creq(i).len() implies (#[trigger] c.creq(
                i,
            )[j]).client_id() == i as u32 by {
                assert(c.creq(i) == pre.creq(i));
            }
            assert forall|i: int, j: int|
                0 <= i < c.n_clients() && 0 <= j < c.cresp(i).len() implies (#[trigger] c.cresp(
                i,
            )[j]).client_id() == i as u32 by {
                assert(c.cresp(i) == pre.cresp(i));
            }
            assert forall|v: int, j: int|
                0 <= v < c.n_workers() && 0 <= j < c.wreq(v).len() implies c.wtypes(v).contains(
                (#[trigger] c.wreq(v)[j]).typ(),
            ) && c.wreq(v)[j].client_id() < c.n_clients() by {
                if v < newi {
                    assert(c.wreq(v) == pre.wreq(v));
                    assert(c.wtypes(v) == pre.wtypes(v));
                } else {
                    assert(c.wreq(v).len() == 0);
                }
            }
        }
        Ok(b)
    }

    /// Freeze the topology. Cursors start at 0.
    pub fn build(self) -> (c: Core)
        requires
            self.wf(),
        ensures
            c.wf(),
            c == self.as_core(),
    {
        Core {
            key_store: self.key_store,
            clients: self.clients,
            workers: self.workers,
            last_client_id: 0,
            last_worker_id: 0,
        }
    }
}

impl Core {
    /// Resolve the worker that claims request type `t` from the topology
    /// table.
    fn find_worker(&self, t: RequestType) -> (r: Option<usize>)
        requires
            self.wf(),
        ensures
            match r {
                Some(w) => self.resolved_worker(t) == Some(w as int),
                None => self.resolved_worker(t) is None,
            },
    {
        let m = self.workers.len();
        let mut w: usize = 0;
        while w < m
            invariant
                self.wf(),
                m == self.n_workers(),
                w <= m,
                forall|v: int| 0 <= v < w ==> !self.claims(v, t),
            decreases m - w,
        {
            if type_list_contains(&self.workers[w].req_types, t) {
                proof {
                    assert(self.claims(w as int, t));
                    let w2 = choose|v: int| self.claims(v, t);
                    assert(self.claims(w2, t));
                }
                return Some(w);
            }
            w += 1;
        }
        None
    }

    /// Search all client channels for a ready request and forward it: one
    /// round-robin pass of the dispatcher. Returns whether a request moved.
    pub fn process_client_requests(&mut self) -> (progress: bool)
        requires
            old(self).wf(),
        ensures
            final(self).wf(),
            dispatch_outcome(*old(self), *final(self), progress),
    {
        let n = self.clients.len();
        if n == 0 {
            return false;
        }
        let mut k: usize = 0;
        while k < n
            invariant
                old(self).wf(),
                *self == *old(self),
                n == self.n_clients(),
                0 < n,
                k <= n,
                forall|j: int| 0 <= j < k ==> !self.client_head_ready(#[trigger] self.rot_client(j)),
            decreases n - k,
        {
            let i = (self.last_client_id + 1 + k) % n;
            proof {
                assert(i as int == self.rot_client(k as int));
            }
            if !self.clients[i].requests.is_empty() {
                let t = self.clients[i].requests.peek_head_ref().get_type();
                if t == RequestType::ImportKey {
                    if self.clients[i].responses.poll_accept_capacity() {
                        let ghost pre = *self;
                        let req = self.clients[i].requests.pop_head();
                        let resp = match req {
                            Request::ImportKey { client_id, request_id, key_id, data } => {
                                match &mut self.key_store {
                                    Some(ks) => match ks.import(key_id, data) {
                                        Ok(_) => Response::ImportKey { client_id, request_id },
                                        Err(e) => Response::Error {
                                            client_id,
                                            request_id,
                                            error: jobs::Error::KeyStore(e),
                                        },
                                    },
                                    None => Response::Error {
                                        client_id,
                                        request_id,
                                        error: jobs::Error::NoKeyStore,
                                    },
                                }
                            },
                            _ => {
                                proof {
                                    assert(false);
                                }
                                Response::Error {
                                    client_id: 0,
                                    request_id: 0,
                                    error: jobs::Error::NoKeyStore,
                                }
                            },
                        };
                        self.clients[i].responses.push(resp);
                        self.last_client_id = i;
                        proof {
                            assert(pre.client_head_ready(i as int));
                            lemma_first_ready_prefix(pre, k as int);
                            assert(pre.dispatch_winner() == Some(i as int));
                            assert(dispatch_rel(pre, *self, i as int));
                            lemma_wf_after_dispatch(pre, *self, i as int);
                        }
                        return true;
                    }
                } else {
                    match self.find_worker(t) {
                        Some(w) => {
                            if self.workers[w].requests.poll_accept_capacity() {
                                let ghost pre = *self;
                                let req = self.clients[i].requests.pop_head();
                                self.workers[w].requests.push(req);
                                self.last_client_id = i;
                                proof {
                                    assert(pre.client_head_ready(i as int));
                                    lemma_first_ready_prefix(pre, k as int);
                                    assert(pre.dispatch_winner() == Some(i as int));
                                    assert(dispatch_rel(pre, *self, i as int));
                                    lemma_wf_after_dispatch(pre, *self, i as int);
                                }
                                return true;
                            }
                        },
                        None => {
                            if self.clients[i].responses.poll_accept_capacity() {
                                let ghost pre = *self;
                                let req = self.clients[i].requests.pop_head();
                                let resp = Response::Error {
                                    client_id: req.get_client_id(),
                                    request_id: req.get_request_id(),
                                    error: jobs::Error::UnknownRequestType,
                                };
                                self.clients[i].responses.push(resp);
                                self.last_client_id = i;
                                proof {
                                    assert(pre.client_head_ready(i as int));
                                    lemma_first_ready_prefix(pre, k as int);
                                    assert(pre.dispatch_winner() == Some(i as int));
                                    assert(dispatch_rel(pre, *self, i as int));
                                    lemma_wf_after_dispatch(pre, *self, i as int);
                                }
                                return true;
                            }
                        },
                    }
                }
            }
            proof {
                assert(!self.client_head_ready(self.rot_client(k as int)));
            }
            k += 1;
        }
        proof {
            lemma_first_ready_prefix(*self, n as int);
        }
        false
    }

    /// Search all worker channels for a deliverable response and forward it
    /// to the client it names: one round-robin pass of the responder. An
    /// out-of-range client id in a head response is fatal and halts the
    /// responder without moving anything.
    pub fn process_worker_responses(&mut self) -> (r: Result<bool, Error>)
        requires
            old(self).wf(),
        ensures
            final(self).wf(),
            respond_outcome(*old(self), *final(self), r),
    {
        let m = self.workers.len();
        if m == 0 {
            return Ok(false);
        }
        let mut k: usize = 0;
        while k < m
            invariant
                old(self).wf(),
                *self == *old(self),
                m == self.n_workers(),
                0 < m,
                k <= m,
                forall|j: int|
                    0 <= j < k ==> !self.worker_head_actionable(#[trigger] self.rot_worker(j)),
            decreases m - k,
        {
            let w = (self.last_worker_id + 1 + k) % m;
            proof {
                assert(w as int == self.rot_worker(k as int));
            }
            if !self.workers[w].responses.is_empty() {
                let cid = self.workers[w].responses.peek_head_ref().get_client_id() as usize;
                if cid >= self.clients.len() {
                    proof {
                        assert(self.worker_head_actionable(w as int));
                        lemma_first_actionable_prefix(*self, k as int);
                        assert(self.responder_pick() == Some(w as int));
                    }
                    return Err(Error::InvalidClientId);
                }
                if self.clients[cid].responses.poll_accept_capacity() {
                    let ghost pre = *self;
                    let resp = self.workers[w].responses.pop_head();
                    self.clients[cid].responses.push(resp);
                    self.last_worker_id = w;
                    proof {
                        assert(pre.worker_head_actionable(w as int));
                        lemma_first_actionable_prefix(pre, k as int);
                        assert(pre.responder_pick() == Some(w as int));
                        assert(respond_rel(pre, *self, w as int));
                        lemma_wf_after_respond(pre, *self, w as int);
                    }
                    return Ok(true);
                }
            }
            proof {
                assert(!self.worker_head_actionable(self.rot_worker(k as int)));
            }
            k += 1;
        }
        proof {
            lemma_first_actionable_prefix(*self, m as int);
        }
        Ok(false)
    }

    /// One tick of the core: at most one forward per direction. Returns
    /// `Err` only on the fatal responder condition; when nothing at all is
    /// ready this is a no-op (cursors included).
    pub fn execute(&mut self) -> (r: Result<(), Error>)
        requires
            old(self).wf(),
        ensures
            final(self).wf(),
            execute_rel(*old(self), *final(self), r),
            (old(self).dispatch_winner() is None && old(self).responder_pick() is None) ==> (
            *final(self) == *old(self) && r is Ok),
    {
        let dispatched = self.process_client_requests();
        let ghost mid = *self;
        let rr = self.process_worker_responses();
        let r: Result<(), Error> = match rr {
            Ok(_) => Ok(()),
            Err(e) => Err(e),
        };
        proof {
            assert(dispatch_outcome(*old(self), mid, dispatched));
            assert(dispatched == (old(self).dispatch_winner() is Some));
            assert(respond_outcome(mid, *self, rr));
        }
        r
    }

    /// Admit a request from client `client_index`: the core stamps the
    /// client id and appends it to that client's bounded request queue, or
    /// reports `Send` when the queue is full.
    pub fn submit_request(&mut self, client_index: usize, request: Request) -> (r: Result<
        (),
        Error,
    >)
        requires
            old(self).wf(),
            client_index < old(self).n_clients(),
        ensures
            final(self).wf(),
            old(self).clients@[client_index as int].requests.has_space() ==> {
                &&& r is Ok
                &&& final(self).creq(client_index as int) == old(self).creq(
                    client_index as int,
                ).push(request.with_client_id(client_index as u32))
                &&& clients_same_except(*old(self), *final(self), client_index as int)
                &&& final(self).clients@[client_index as int].responses == old(
                    self,
                ).clients@[client_index as int].responses
                &&& final(self).clients@[client_index as int].requests.cap() == old(
                    self,
                ).clients@[client_index as int].requests.cap()
                &&& final(self).workers@ == old(self).workers@
                &&& final(self).key_store == old(self).key_store
                &&& final(self).last_client_id == old(self).last_client_id
                &&& final(self).last_worker_id == old(self).last_worker_id
            },
            !old(self).clients@[client_index as int].requests.has_space() ==> r == Err::<
                (),
                Error,
            >(Error::Send) && *final(self) == *old(self),
    {
        if self.clients[client_index].requests.poll_accept_capacity() {
            let stamped = request.stamp_client_id(client_index as u32);
            let ghost pre = *self;
            self.clients[client_index].requests.push(stamped);
            proof {
                let i = client_index as int;
                assert(stamped.client_id() == client_index as u32);
                assert forall|i2: int, j: int|
                    0 <= i2 < self.n_clients() && 0 <= j < self.creq(i2).len() implies (
                #[trigger] self.creq(i2)[j]).client_id() == i2 as u32 by {
                    if i2 != i {
                        assert(self.clients@[i2] == old(self).clients@[i2]);
                        assert((old(self).creq(i2)[j]).client_id() == i2 as u32);
                    } else {
                        if j < old(self).creq(i).len() {
                            assert(self.creq(i)[j] == old(self).creq(i)[j]);
                            assert((old(self).creq(i)[j]).client_id() == i as u32);
                        } else {
                            assert(self.creq(i)[j] == stamped);
                        }
                    }
                }
                assert forall|j: int|
                    0 <= j < self.n_clients() implies (#[trigger] self.clients@[j]).requests.wf()
                    && self.clients@[j].responses.wf() by {
                    if j != i {
                        assert(self.clients@[j] == pre.clients@[j]);
                    }
                }
                assert forall|i2: int, j: int|
                    0 <= i2 < self.n_clients() && 0 <= j < self.cresp(i2).len() implies (
                #[trigger] self.cresp(i2)[j]).client_id() == i2 as u32 by {
                    assert(self.clients@[i2].responses == old(self).clients@[i2].responses);
                    assert((old(self).cresp(i2)[j]).client_id() == i2 as u32);
                }
                assert forall|w1: int, w2: int, t2: RequestType|
                    self.claims(w1, t2) && self.claims(w2, t2) implies w1 == w2 by {
                    assert(self.workers@ == old(self).workers@);
                    assert(old(self).claims(w1, t2) && old(self).claims(w2, t2));
                }
                assert forall|v: int|
                    0 <= v < self.n_workers() implies (#[trigger] self.workers@[v]).requests.wf()
                    && self.workers@[v].responses.wf() by {
                    assert(self.workers@[v] == old(self).workers@[v]);
                }
                assert forall|w: int, j: int|
                    0 <= w < self.n_workers() && 0 <= j < self.wreq(w).len() implies self.wtypes(
                    w,
                ).contains((#[trigger] self.wreq(w)[j]).typ()) && self.wreq(w)[j].client_id()
                    < self.n_clients() by {
                    assert(self.workers@[w] == old(self).workers@[w]);
                    assert(self.wreq(w) == old(self).wreq(w));
                    assert(self.wtypes(w) == old(self).wtypes(w));
                    assert(old(self).wtypes(w).contains((old(self).wreq(w)[j]).typ()));
                    assert((old(self).wreq(w)[j]).client_id() < old(self).n_clients());
                }
            }
            Ok(())
        } else {
            Err(Error::Send)
        }
    }

    /// A worker's end of its request queue: take the oldest pending request.
    pub fn worker_pop_request(&mut self, worker_index: usize) -> (r: Option<Request>)
        requires
            old(self).wf(),
            worker_index < old(self).n_workers(),
        ensures
            final(self).wf(),
            match r {
                Some(req) => {
                    &&& old(self).wreq(worker_index as int).len() > 0
                    &&& req == old(self).wreq(worker_index as int)[0]
                    &&& final(self).wreq(worker_index as int) == old(self).wreq(
                        worker_index as int,
                    ).remove(0)
                    &&& workers_same_except(*old(self), *final(self), worker_index as int)
                    &&& final(self).workers@[worker_index as int].responses == old(
                        self,
                    ).workers@[worker_index as int].responses
                    &&& final(self).workers@[worker_index as int].req_types == old(
                        self,
                    ).workers@[worker_index as int].req_types
                    &&& final(self).workers@[worker_index as int].requests.cap() == old(
                        self,
                    ).workers@[worker_index as int].requests.cap()
                    &&& final(self).clients@ == old(self).clients@
                    &&& final(self).key_store == old(self).key_store
                    &&& final(self).last_client_id == old(self).last_client_id
                    &&& final(self).last_worker_id == old(self).last_worker_id
                },
                None => old(self).wreq(worker_index as int).len() == 0 && *final(self) == *old(
                    self,
                ),
            },
    {
        if self.workers[worker_index].requests.is_empty() {
            return None;
        }
        let ghost pre = *self;
        let req = self.workers[worker_index].requests.pop_head();
        proof {
            let w = worker_index as int;
            assert forall|v: int| 0 <= v < self.n_workers() implies #[trigger] self.wtypes(v)
                == pre.wtypes(v) by {
                if v != w {
                    assert(self.workers@[v] == pre.workers@[v]);
                }
            }
            assert forall|w1: int, w2: int, t2: RequestType|
                self.claims(w1, t2) && self.claims(w2, t2) implies w1 == w2 by {
                assert(self.wtypes(w1) == pre.wtypes(w1));
                assert(self.wtypes(w2) == pre.wtypes(w2));
                assert(pre.claims(w1, t2) && pre.claims(w2, t2));
            }
            assert forall|v: int|
                0 <= v < self.n_workers() implies (#[trigger] self.workers@[v]).requests.wf()
                && self.workers@[v].responses.wf() by {
                if v != w {
                    assert(self.workers@[v] == pre.workers@[v]);
                }
            }
            assert forall|v: int, j: int|
                0 <= v < self.n_workers() && 0 <= j < self.wreq(v).len() implies self.wtypes(
                v,
            ).contains((#[trigger] self.wreq(v)[j]).typ()) && self.wreq(v)[j].client_id()
                < self.n_clients() by {
                assert(self.wtypes(v) == pre.wtypes(v));
                if v != w {
                    assert(self.workers@[v] == pre.workers@[v]);
                    assert(self.wreq(v) == pre.wreq(v));
                    assert(self.wreq(v)[j] == old(self).wreq(v)[j]);
                } else {
                    assert(self.wreq(w)[j] == old(self).wreq(w)[j + 1]);
                }
            }
            assert forall|i2: int, j: int|
                0 <= i2 < self.n_clients() && 0 <= j < self.creq(i2).len() implies (
            #[trigger] self.creq(i2)[j]).client_id() == i2 as u32 by {
                assert(self.clients@[i2] == old(self).clients@[i2]);
                assert((old(self).creq(i2)[j]).client_id() == i2 as u32);
            }
            assert forall|i2: int, j: int|
                0 <= i2 < self.n_clients() && 0 <= j < self.cresp(i2).len() implies (
            #[trigger] self.cresp(i2)[j]).client_id() == i2 as u32 by {
                assert(self.clients@[i2] == old(self).clients@[i2]);
                assert((old(self).cresp(i2)[j]).client_id() == i2 as u32);
            }
            assert forall|i2: int|
                0 <= i2 < self.n_clients() implies (#[trigger] self.clients@[i2]).requests.wf()
                && self.clients@[i2].responses.wf() by {
                assert(self.clients@[i2] == old(self).clients@[i2]);
            }
        }
        Some(req)
    }

    /// A worker's end of its response queue: hand a produced response to
    /// the core, or `Send` when the queue is full. The core does not trust
    /// the embedded client id here; the responder validates it.
    pub fn worker_push_response(&mut self, worker_index: usize, response: Response) -> (r: Result<
        (),
        Error,
    >)
        requires
            old(self).wf(),
            worker_index < old(self).n_workers(),
        ensures
            final(self).wf(),
            old(self).workers@[worker_index as int].responses.has_space() ==> {
                &&& r is Ok
                &&& final(self).wresp(worker_index as int) == old(self).wresp(
                    worker_index as int,
                ).push(response)
                &&& workers_same_except(*old(self), *final(self), worker_index as int)
                &&& final(self).workers@[worker_index as int].requests == old(
                    self,
                ).workers@[worker_index as int].requests
                &&& final(self).workers@[worker_index as int].req_types == old(
                    self,
                ).workers@[worker_index as int].req_types
                &&& final(self).workers@[worker_index as int].responses.cap() == old(
                    self,
                ).workers@[worker_index as int].responses.cap()
                &&& final(self).clients@ == old(self).clients@
                &&& final(self).key_store == old(self).key_store
                &&& final(self).last_client_id == old(self).last_client_id
                &&& final(self).last_worker_id == old(self).last_worker_id
            },
            !old(self).workers@[worker_index as int].responses.has_space() ==> r == Err::<
                (),
                Error,
            >(Error::Send) && *final(self) == *old(self),
    {
        if self.workers[worker_index].responses.poll_accept_capacity() {
            let ghost pre = *self;
            self.workers[worker_index].responses.push(response);
            proof {
                let w = worker_index as int;
                assert forall|v: int| 0 <= v < self.n_workers() implies #[trigger] self.wtypes(v)
                    == pre.wtypes(v) by {
                    if v != w {
                        assert(self.workers@[v] == pre.workers@[v]);
                    }
                }
                assert forall|w1: int, w2: int, t2: RequestType|
                    self.claims(w1, t2) && self.claims(w2, t2) implies w1 == w2 by {
                    assert(self.wtypes(w1) == pre.wtypes(w1));
                    assert(self.wtypes(w2) == pre.wtypes(w2));
                    assert(pre.claims(w1, t2) && pre.claims(w2, t2));
                }
                assert forall|v: int|
                    0 <= v < self.n_workers() implies (#[trigger] self.workers@[v]).requests.wf()
                    && self.workers@[v].responses.wf() by {
                    if v != w {
                        assert(self.workers@[v] == pre.workers@[v]);
                    }
                }
                assert forall|v: int, j: int|
                    0 <= v < self.n_workers() && 0 <= j < self.wreq(v).len() implies self.wtypes(
                    v,
                ).contains((#[trigger] self.wreq(v)[j]).typ()) && self.wreq(v)[j].client_id()
                    < self.n_clients() by {
                    assert(self.wtypes(v) == pre.wtypes(v));
                    if v != w {
                        assert(self.workers@[v] == pre.workers@[v]);
                    } else {
                        assert(self.workers@[w].requests == pre.workers@[w].requests);
                    }
                    assert(self.wreq(v) == pre.wreq(v));
                    assert(self.wreq(v)[j] == old(self).wreq(v)[j]);
                }
                assert forall|i2: int, j: int|
                    0 <= i2 < self.n_clients() && 0 <= j < self.creq(i2).len() implies (
                #[trigger] self.creq(i2)[j]).client_id() == i2 as u32 by {
                    assert(self.clients@[i2] == old(self).clients@[i2]);
                    assert((old(self).creq(i2)[j]).client_id() == i2 as u32);
                }
                assert forall|i2: int, j: int|
                    0 <= i2 < self.n_clients() && 0 <= j < self.cresp(i2).len() implies (
                #[trigger] self.cresp(i2)[j]).client_id() == i2 as u32 by {
                    assert(self.clients@[i2] == old(self).clients@[i2]);
                    assert((old(self).cresp(i2)[j]).client_id() == i2 as u32);
                }
                assert forall|i2: int|
                    0 <= i2 < self.n_clients() implies (#[trigger] self.clients@[i2]).requests.wf()
                    && self.clients@[i2].responses.wf() by {
                    assert(self.clients@[i2] == old(self).clients@[i2]);
                }
            }
            Ok(())
        } else {
            Err(Error::Send)
        }
    }

    /// A client's end of its response queue: take the oldest delivered
    /// response.
    pub fn client_pop_response(&mut self, client_index: usize) -> (r: Option<Response>)
        requires
            old(self).wf(),
            client_index < old(self).n_clients(),
        ensures
            final(self).wf(),
            match r {
                Some(resp) => {
                    &&& old(self).cresp(client_index as int).len() > 0
                    &&& resp == old(self).cresp(client_index as int)[0]
                    &&& resp.client_id() == client_index as u32
                    &&& final(self).cresp(client_index as int) == old(self).cresp(
                        client_index as int,
                    ).remove(0)
                    &&& clients_same_except(*old(self), *final(self), client_index as int)
                    &&& final(self).clients@[client_index as int].requests == old(
                        self,
                    ).clients@[client_index as int].requests
                    &&& final(self).clients@[client_index as int].responses.cap() == old(
                        self,
                    ).clients@[client_index as int].responses.cap()
                    &&& final(self).workers@ == old(self).workers@
                    &&& final(self).key_store == old(self).key_store
                    &&& final(self).last_client_id == old(self).last_client_id
                    &&& final(self).last_worker_id == old(self).last_worker_id
                },
                None => old(self).cresp(client_index as int).len() == 0 && *final(self) == *old(
                    self,
                ),
            },
    {
        if self.clients[client_index].responses.is_empty() {
            return None;
        }
        let ghost pre = *self;
        let resp = self.clients[client_index].responses.pop_head();
        proof {
            let i = client_index as int;
            assert(old(self).cresp(i)[0].client_id() == i as u32);
            assert forall|i2: int, j: int|
                0 <= i2 < self.n_clients() && 0 <= j < self.cresp(i2).len() implies (
            #[trigger] self.cresp(i2)[j]).client_id() == i2 as u32 by {
                if i2 != i {
                    assert(self.clients@[i2] == old(self).clients@[i2]);
                    assert((old(self).cresp(i2)[j]).client_id() == i2 as u32);
                } else {
                    assert(self.cresp(i)[j] == old(self).cresp(i)[j + 1]);
                    assert((old(self).cresp(i)[j + 1]).client_id() == i as u32);
                }
            }
            assert forall|i2: int, j: int|
                0 <= i2 < self.n_clients() && 0 <= j < self.creq(i2).len() implies (
            #[trigger] self.creq(i2)[j]).client_id() == i2 as u32 by {
                if i2 != i {
                    assert(self.clients@[i2] == old(self).clients@[i2]);
                } else {
                    assert(self.clients@[i].requests == old(self).clients@[i].requests);
                }
                assert((old(self).creq(i2)[j]).client_id() == i2 as u32);
            }
            assert forall|j: int|
                0 <= j < self.n_clients() implies (#[trigger] self.clients@[j]).requests.wf()
                && self.clients@[j].responses.wf() by {
                if j != i {
                    assert(self.clients@[j] == pre.clients@[j]);
                }
            }
            assert forall|w1: int, w2: int, t2: RequestType|
                self.claims(w1, t2) && self.claims(w2, t2) implies w1 == w2 by {
                assert(self.workers@ == old(self).workers@);
                assert(old(self).claims(w1, t2) && old(self).claims(w2, t2));
            }
            assert forall|v: int|
                0 <= v < self.n_workers() implies (#[trigger] self.workers@[v]).requests.wf()
                && self.workers@[v].responses.wf() by {
                assert(self.workers@[v] == old(self).workers@[v]);
            }
            assert forall|w: int, j: int|
                0 <= w < self.n_workers() && 0 <= j < self.wreq(w).len() implies self.wtypes(
                w,
            ).contains((#[trigger] self.wreq(w)[j]).typ()) && self.wreq(w)[j].client_id()
                < self.n_clients() by {
                assert(self.workers@[w] == old(self).workers@[w]);
                assert(self.wreq(w) == old(self).wreq(w));
                assert(self.wtypes(w) == old(self).wtypes(w));
                assert(old(self).wtypes(w).contains((old(self).wreq(w)[j]).typ()));
                assert((old(self).wreq(w)[j]).client_id() < old(self).n_clients());
            }
        }
        Some(resp)
    }
}

} // verus!
