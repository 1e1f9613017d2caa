use heimlig::hsm::{Builder, Core, Error};
use heimlig::jobs::{Error as JobError, Request, RequestType, Response};
use heimlig::keystore::MemoryKeyStore;

fn get_random(request_id: u32, len: usize) -> Request {
    Request::GetRandom { client_id: 0, request_id, len }
}

fn sym_key(request_id: u32, key_id: u32) -> Request {
    Request::GenerateSymmetricKey { client_id: 0, request_id, key_id }
}

/// N submitted requests from one client produce exactly N responses back at
/// that client, each with a matching `request_id` (worker echoing ids).
#[test]
fn n_requests_n_responses_matching_ids() {
    let mut core: Core = Builder::new()
        .with_client(8, 8)
        .unwrap()
        .with_worker(&[RequestType::GetRandom], 8, 8)
        .unwrap()
        .build();
    let n = 3u32;
    for rid in 0..n {
        core.submit_request(0, get_random(rid, 4)).unwrap();
    }
    for _ in 0..n {
        core.execute().unwrap();
    }
    // Simulated worker: one response per request, ids echoed verbatim.
    let mut echoed = Vec::new();
    while let Some(req) = core.worker_pop_request(0) {
        echoed.push(Response::GetRandom {
            client_id: req.get_client_id(),
            request_id: req.get_request_id(),
            data: vec![0; 4],
        });
    }
    assert_eq!(echoed.len(), n as usize);
    for resp in echoed {
        core.worker_push_response(0, resp).unwrap();
    }
    for _ in 0..n {
        core.execute().unwrap();
    }
    let mut seen = Vec::new();
    while let Some(resp) = core.client_pop_response(0) {
        seen.push(resp.get_request_id());
    }
    assert_eq!(seen, vec![0, 1, 2]);
}

/// The multiset of responses delivered equals the multiset produced: every
/// pushed response arrives exactly once, none is invented.
#[test]
fn responses_conserved_across_delivery() {
    let mut core: Core = Builder::new()
        .with_client(8, 8)
        .unwrap()
        .with_client(8, 8)
        .unwrap()
        .with_worker(&[RequestType::GetRandom], 8, 8)
        .unwrap()
        .with_worker(&[RequestType::GenerateSymmetricKey], 8, 8)
        .unwrap()
        .build();
    core.worker_push_response(
        0,
        Response::GetRandom { client_id: 0, request_id: 1, data: vec![1] },
    )
    .unwrap();
    core.worker_push_response(
        0,
        Response::GetRandom { client_id: 1, request_id: 2, data: vec![2] },
    )
    .unwrap();
    core.worker_push_response(1, Response::GenerateSymmetricKey { client_id: 0, request_id: 3 })
        .unwrap();
    for _ in 0..3 {
        core.execute().unwrap();
    }
    let mut c0 = Vec::new();
    while let Some(r) = core.client_pop_response(0) {
        c0.push(r.get_request_id());
    }
    let mut c1 = Vec::new();
    while let Some(r) = core.client_pop_response(1) {
        c1.push(r.get_request_id());
    }
    c0.sort();
    c1.sort();
    assert_eq!(c0, vec![1, 3]);
    assert_eq!(c1, vec![2]);
}

/// Per-client order is preserved at the worker's sink, and per-worker order
/// at the client's sink.
#[test]
fn fifo_order_preserved() {
    let mut core: Core = Builder::new()
        .with_client(8, 8)
        .unwrap()
        .with_worker(&[RequestType::GetRandom], 8, 8)
        .unwrap()
        .build();
    for rid in [10, 11, 12] {
        core.submit_request(0, get_random(rid, 1)).unwrap();
    }
    for _ in 0..3 {
        core.execute().unwrap();
    }
    let mut order = Vec::new();
    while let Some(req) = core.worker_pop_request(0) {
        order.push(req.get_request_id());
    }
    assert_eq!(order, vec![10, 11, 12]);
    for rid in [20, 21] {
        core.worker_push_response(
            0,
            Response::GetRandom { client_id: 0, request_id: rid, data: vec![] },
        )
        .unwrap();
    }
    core.execute().unwrap();
    core.execute().unwrap();
    let mut delivered = Vec::new();
    while let Some(resp) = core.client_pop_response(0) {
        delivered.push(resp.get_request_id());
    }
    assert_eq!(delivered, vec![20, 21]);
}

/// A worker only ever receives request types it advertises.
#[test]
fn worker_receives_only_advertised_types() {
    let mut core: Core = Builder::new()
        .with_client(8, 8)
        .unwrap()
        .with_worker(&[RequestType::GetRandom], 8, 8)
        .unwrap()
        .with_worker(&[RequestType::GenerateSymmetricKey], 8, 8)
        .unwrap()
        .build();
    core.submit_request(0, sym_key(1, 4)).unwrap();
    core.submit_request(0, get_random(2, 4)).unwrap();
    core.execute().unwrap();
    core.execute().unwrap();
    while let Some(req) = core.worker_pop_request(0) {
        assert_eq!(req.get_type(), RequestType::GetRandom);
    }
    while let Some(req) = core.worker_pop_request(1) {
        assert_eq!(req.get_type(), RequestType::GenerateSymmetricKey);
    }
}

/// Under a saturated worker no request targeting it is dequeued, while
/// requests for other workers continue to make progress.
#[test]
fn no_head_of_line_blocking() {
    let mut core: Core = Builder::new()
        .with_client(8, 8)
        .unwrap()
        .with_client(8, 8)
        .unwrap()
        .with_worker(&[RequestType::GetRandom], 1, 8)
        .unwrap()
        .with_worker(&[RequestType::GenerateSymmetricKey], 8, 8)
        .unwrap()
        .build();
    // Saturate the RNG worker's sink.
    core.submit_request(0, get_random(1, 1)).unwrap();
    core.execute().unwrap();
    // Client 0's next request targets the saturated worker; client 1's
    // request targets the other worker and still goes through.
    core.submit_request(0, get_random(2, 1)).unwrap();
    core.submit_request(1, sym_key(3, 4)).unwrap();
    core.execute().unwrap();
    let forwarded = core.worker_pop_request(1).expect("other worker progressed");
    assert_eq!(forwarded.get_request_id(), 3);
    // Client 0's blocked request is still queued: after draining the
    // saturated worker it is forwarded intact.
    let first = core.worker_pop_request(0).expect("first request");
    assert_eq!(first.get_request_id(), 1);
    core.execute().unwrap();
    let second = core.worker_pop_request(0).expect("blocked request released");
    assert_eq!(second.get_request_id(), 2);
}

/// Round-robin fairness: three continuously ready clients feeding one
/// worker are served exactly once each, in rotation order one slot past the
/// cursor.
#[test]
fn round_robin_covers_all_clients() {
    let mut core: Core = Builder::new()
        .with_client(8, 8)
        .unwrap()
        .with_client(8, 8)
        .unwrap()
        .with_client(8, 8)
        .unwrap()
        .with_worker(&[RequestType::GetRandom], 8, 8)
        .unwrap()
        .build();
    for i in 0..3 {
        core.submit_request(i, get_random(100 + i as u32, 1)).unwrap();
    }
    let mut winners = Vec::new();
    for _ in 0..3 {
        core.execute().unwrap();
        winners.push(core.last_client_id);
    }
    // Cursor starts at 0, so the rotation serves 1, 2, 0.
    assert_eq!(winners, vec![1, 2, 0]);
    let mut arrival = Vec::new();
    while let Some(req) = core.worker_pop_request(0) {
        arrival.push(req.get_client_id());
    }
    assert_eq!(arrival, vec![1, 2, 0]);
}

/// A request type no worker claims is answered defensively with
/// `UnknownRequestType`.
#[test]
fn unknown_request_type_is_answered() {
    let mut core: Core = Builder::new()
        .with_client(8, 8)
        .unwrap()
        .with_worker(&[RequestType::GetRandom], 8, 8)
        .unwrap()
        .build();
    core.submit_request(0, sym_key(9, 1)).unwrap();
    core.execute().unwrap();
    let resp = core.client_pop_response(0).expect("defensive error");
    assert_eq!(
        resp,
        Response::Error { client_id: 0, request_id: 9, error: JobError::UnknownRequestType }
    );
}

/// A full client request queue reports `Send`.
#[test]
fn full_request_queue_reports_send() {
    let mut core: Core = Builder::new()
        .with_client(1, 1)
        .unwrap()
        .with_worker(&[RequestType::GetRandom], 1, 1)
        .unwrap()
        .build();
    core.submit_request(0, get_random(1, 1)).unwrap();
    let r = core.submit_request(0, get_random(2, 1));
    assert_eq!(r, Err(Error::Send));
}

/// Builder bounds: client table, worker table and per-worker type list are
/// all enforced, and an empty advertised set is rejected.
#[test]
fn builder_bounds_enforced() {
    let mut b = Builder::new();
    for _ in 0..8 {
        b = b.with_client(1, 1).unwrap();
    }
    assert!(matches!(b.with_client(1, 1), Err(Error::TooManyClients)));

    let types = [
        RequestType::ImportKey,
        RequestType::GetRandom,
        RequestType::GenerateSymmetricKey,
        RequestType::EncryptChaCha20Poly1305,
        RequestType::DecryptChaCha20Poly1305,
    ];
    let mut b = Builder::new();
    for t in types.iter().take(5) {
        b = b.with_worker(&[*t], 1, 1).unwrap();
    }
    assert!(matches!(b.with_worker(&[], 1, 1), Err(Error::NoRequestTypes)));
    let too_many = [RequestType::GetRandom; 9];
    assert!(matches!(
        Builder::new().with_worker(&too_many, 1, 1),
        Err(Error::TooManyRequestTypes)
    ));
}

/// The key store's own operations: import, lookup, delete.
#[test]
fn keystore_lifecycle() {
    let ids = vec![1u32, 2u32, 3u32];
    let mut store = MemoryKeyStore::new(&ids);
    assert!(store.lookup(1).is_none());
    store.import(1, vec![7, 8]).unwrap();
    assert_eq!(store.lookup(1).unwrap(), &vec![7u8, 8]);
    // Other slots are untouched.
    assert!(store.lookup(2).is_none());
    assert_eq!(store.import(9, vec![1]), Err(heimlig::keystore::Error::InvalidKeyId));
    store.delete(1).unwrap();
    assert!(store.lookup(1).is_none());
    assert_eq!(store.delete(9), Err(heimlig::keystore::Error::InvalidKeyId));
}

/// An empty topology is legal: `execute` is a no-op and reports no error.
#[test]
fn empty_topology_execute_is_noop() {
    let mut core: Core = Builder::default().build();
    core.execute().unwrap();
    assert_eq!(core.last_client_id, 0);
    assert_eq!(core.last_worker_id, 0);
}
