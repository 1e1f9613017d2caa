use heimlig::hsm::{Builder, Core, Error};
use heimlig::jobs::{Error as JobError, Request, RequestType, Response};
use heimlig::keystore::MemoryKeyStore;

fn get_random(request_id: u32, len: usize) -> Request {
    Request::GetRandom { client_id: 0, request_id, len }
}

fn import_key(request_id: u32, key_id: u32, data: Vec<u8>) -> Request {
    Request::ImportKey { client_id: 0, request_id, key_id, data }
}

fn encrypt(request_id: u32, key_id: u32) -> Request {
    Request::EncryptChaCha20Poly1305 {
        client_id: 0,
        request_id,
        key_id,
        nonce: vec![0u8; 12],
        plaintext: vec![1, 2, 3],
    }
}

/// Single client, single RNG worker: a `GetRandom` request is routed to the
/// worker and its 16-byte response is delivered back with the same
/// `request_id`.
#[test]
fn single_client_rng_round_trip() {
    let mut core: Core = Builder::new()
        .with_client(4, 4)
        .unwrap()
        .with_worker(&[RequestType::GetRandom], 4, 4)
        .unwrap()
        .build();
    core.submit_request(0, get_random(1, 16)).unwrap();
    core.execute().unwrap();
    // The worker receives the request with the stamped client id.
    let req = core.worker_pop_request(0).expect("request forwarded");
    match &req {
        Request::GetRandom { client_id, request_id, len } => {
            assert_eq!(*client_id, 0);
            assert_eq!(*request_id, 1);
            assert_eq!(*len, 16);
        }
        _ => panic!("wrong request forwarded"),
    }
    // The worker answers; the responder delivers it to the client.
    core.worker_push_response(
        0,
        Response::GetRandom { client_id: 0, request_id: 1, data: vec![0xAB; 16] },
    )
    .unwrap();
    core.execute().unwrap();
    let resp = core.client_pop_response(0).expect("response delivered");
    match resp {
        Response::GetRandom { client_id, request_id, data } => {
            assert_eq!(client_id, 0);
            assert_eq!(request_id, 1);
            assert_eq!(data.len(), 16);
        }
        _ => panic!("wrong response delivered"),
    }
}

/// No key store: `ImportKey` is answered locally with `NoKeyStore` and no
/// worker queue is touched.
#[test]
fn import_without_keystore_is_rejected() {
    let mut core: Core = Builder::new()
        .with_client(4, 4)
        .unwrap()
        .with_worker(&[RequestType::GetRandom], 4, 4)
        .unwrap()
        .build();
    core.submit_request(0, import_key(7, 5, vec![1, 2, 3])).unwrap();
    core.execute().unwrap();
    assert!(core.worker_pop_request(0).is_none());
    let resp = core.client_pop_response(0).expect("error response");
    assert_eq!(
        resp,
        Response::Error { client_id: 0, request_id: 7, error: JobError::NoKeyStore }
    );
}

/// Two clients, one worker with capacity 1: one `execute` forwards exactly
/// one request and records the winner; after the worker drains, the other
/// client's request goes through.
#[test]
fn two_clients_capacity_one_worker() {
    let mut core: Core = Builder::new()
        .with_client(4, 4)
        .unwrap()
        .with_client(4, 4)
        .unwrap()
        .with_worker(&[RequestType::GetRandom], 1, 4)
        .unwrap()
        .build();
    core.submit_request(0, get_random(10, 8)).unwrap();
    core.submit_request(1, get_random(11, 8)).unwrap();
    // Cursor starts at 0, so the scan starts at client 1.
    core.execute().unwrap();
    assert_eq!(core.last_client_id, 1);
    let first = core.worker_pop_request(0).expect("one request forwarded");
    assert_eq!(first.get_client_id(), 1);
    core.execute().unwrap();
    assert_eq!(core.last_client_id, 0);
    let second = core.worker_pop_request(0).expect("other request forwarded");
    assert_eq!(second.get_client_id(), 0);
    assert!(core.worker_pop_request(0).is_none());
}

/// Two workers, two request types: requests are routed to their respective
/// workers in submission order.
#[test]
fn two_workers_routing_in_order() {
    let mut core: Core = Builder::new()
        .with_client(4, 4)
        .unwrap()
        .with_worker(&[RequestType::GetRandom], 4, 4)
        .unwrap()
        .with_worker(&[RequestType::EncryptChaCha20Poly1305], 4, 4)
        .unwrap()
        .build();
    core.submit_request(0, get_random(1, 4)).unwrap();
    core.submit_request(0, encrypt(2, 9)).unwrap();
    core.execute().unwrap();
    core.execute().unwrap();
    let rng_req = core.worker_pop_request(0).expect("routed to RNG worker");
    assert_eq!(rng_req.get_request_id(), 1);
    assert_eq!(rng_req.get_type(), RequestType::GetRandom);
    let enc_req = core.worker_pop_request(1).expect("routed to cipher worker");
    assert_eq!(enc_req.get_request_id(), 2);
    assert_eq!(enc_req.get_type(), RequestType::EncryptChaCha20Poly1305);
}

/// Duplicate type registration aborts at build time.
#[test]
fn duplicate_type_registration_fails() {
    let r = Builder::new()
        .with_worker(&[RequestType::GetRandom, RequestType::ImportKey], 4, 4)
        .unwrap()
        .with_worker(&[RequestType::GetRandom], 4, 4);
    assert!(matches!(r, Err(Error::DuplicateRequestType)));
}

/// A response with an out-of-range client id halts the responder with the
/// fatal error and forwards nothing.
#[test]
fn bad_client_id_in_response_is_fatal() {
    let mut core: Core = Builder::new()
        .with_client(4, 4)
        .unwrap()
        .with_client(4, 4)
        .unwrap()
        .with_worker(&[RequestType::GetRandom], 4, 4)
        .unwrap()
        .build();
    core.worker_push_response(
        0,
        Response::GetRandom { client_id: 255, request_id: 1, data: vec![1] },
    )
    .unwrap();
    let r = core.execute();
    assert_eq!(r, Err(Error::InvalidClientId));
    // No partial forward: both client sinks are empty and the response is
    // still queued at the worker.
    assert!(core.client_pop_response(0).is_none());
    assert!(core.client_pop_response(1).is_none());
    assert_eq!(core.last_worker_id, 0);
}

/// Round-trip law: `ImportKey` against a key store that accepts the key id
/// is answered by exactly `Response::ImportKey` with matching ids, and the
/// bytes are stored.
#[test]
fn import_round_trip_with_keystore() {
    let ids = vec![5u32, 6u32];
    let store = MemoryKeyStore::new(&ids);
    let mut core: Core = Builder::new()
        .with_keystore(store)
        .with_client(4, 4)
        .unwrap()
        .with_worker(&[RequestType::GetRandom], 4, 4)
        .unwrap()
        .build();
    core.submit_request(0, import_key(3, 5, vec![9, 9, 9])).unwrap();
    core.execute().unwrap();
    let resp = core.client_pop_response(0).expect("import answered");
    assert_eq!(resp, Response::ImportKey { client_id: 0, request_id: 3 });
    let stored = core.key_store.as_ref().unwrap().lookup(5).expect("stored");
    assert_eq!(stored, &vec![9u8, 9, 9]);
}

/// A key store that does not accept the key id produces a `KeyStore` error
/// response.
#[test]
fn import_unknown_key_id_is_rejected() {
    let ids = vec![5u32];
    let store = MemoryKeyStore::new(&ids);
    let mut core: Core = Builder::new()
        .with_keystore(store)
        .with_client(4, 4)
        .unwrap()
        .with_worker(&[RequestType::GetRandom], 4, 4)
        .unwrap()
        .build();
    core.submit_request(0, import_key(4, 77, vec![1])).unwrap();
    core.execute().unwrap();
    let resp = core.client_pop_response(0).expect("error answered");
    assert_eq!(
        resp,
        Response::Error {
            client_id: 0,
            request_id: 4,
            error: JobError::KeyStore(heimlig::keystore::Error::InvalidKeyId),
        }
    );
}

/// `execute` with no queue activity is a no-op that leaves the cursors
/// untouched.
#[test]
fn idle_execute_is_noop() {
    let mut core: Core = Builder::new()
        .with_client(4, 4)
        .unwrap()
        .with_client(4, 4)
        .unwrap()
        .with_worker(&[RequestType::GetRandom], 4, 4)
        .unwrap()
        .build();
    core.execute().unwrap();
    assert_eq!(core.last_client_id, 0);
    assert_eq!(core.last_worker_id, 0);
    assert!(core.client_pop_response(0).is_none());
    assert!(core.worker_pop_request(0).is_none());
}
