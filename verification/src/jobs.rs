//! Requests and responses exchanged between clients, the core and workers.

use vstd::prelude::*;

verus! {

/// Tag used to route a request to the worker that advertises it.
#[derive(Clone, Copy, PartialEq, Eq, Structural, Debug)]
pub enum RequestType {
    ImportKey,
    GetRandom,
    GenerateSymmetricKey,
    EncryptChaCha20Poly1305,
    DecryptChaCha20Poly1305,
}

/// Error kinds surfaced to a client inside [`Response::Error`].
#[derive(Clone, Copy, PartialEq, Eq, Structural, Debug)]
pub enum Error {
    /// A message could not be enqueued on a bounded queue.
    Send,
    /// A key-store request arrived but no key store is attached to the core.
    NoKeyStore,
    /// The key store rejected the operation.
    KeyStore(crate::keystore::Error),
    /// No worker advertises the request's type (defensive; a well-built
    /// topology cannot produce it).
    UnknownRequestType,
}

/// A request submitted by a client.
///
/// `client_id` is stamped by the core on admission (it is the index of the
/// submitting client's channel); `request_id` is chosen by the client and
/// only echoed back for correlation.
#[derive(Clone, PartialEq, Debug)]
pub enum Request {
    ImportKey { client_id: u32, request_id: u32, key_id: u32, data: Vec<u8> },
    GetRandom { client_id: u32, request_id: u32, len: usize },
    GenerateSymmetricKey { client_id: u32, request_id: u32, key_id: u32 },
    EncryptChaCha20Poly1305 {
        client_id: u32,
        request_id: u32,
        key_id: u32,
        nonce: Vec<u8>,
        plaintext: Vec<u8>,
    },
    DecryptChaCha20Poly1305 {
        client_id: u32,
        request_id: u32,
        key_id: u32,
        nonce: Vec<u8>,
        ciphertext: Vec<u8>,
    },
}

/// A response produced by a worker or synthesized by the core.
///
/// The `client_id` of a response equals the `client_id` of the request that
/// produced it; the responder uses it to resolve the destination client.
#[derive(Clone, PartialEq, Debug)]
pub enum Response {
    ImportKey { client_id: u32, request_id: u32 },
    GetRandom { client_id: u32, request_id: u32, data: Vec<u8> },
    GenerateSymmetricKey { client_id: u32, request_id: u32 },
    EncryptChaCha20Poly1305 { client_id: u32, request_id: u32, ciphertext: Vec<u8> },
    DecryptChaCha20Poly1305 { client_id: u32, request_id: u32, plaintext: Vec<u8> },
    Error { client_id: u32, request_id: u32, error: Error },
}

impl Request {
    /// The routing tag of this request, derivable in constant time.
    pub open spec fn typ(self) -> RequestType {
        match self {
            Request::ImportKey { .. } => RequestType::ImportKey,
            Request::GetRandom { .. } => RequestType::GetRandom,
            Request::GenerateSymmetricKey { .. } => RequestType::GenerateSymmetricKey,
            Request::EncryptChaCha20Poly1305 { .. } => RequestType::EncryptChaCha20Poly1305,
            Request::DecryptChaCha20Poly1305 { .. } => RequestType::DecryptChaCha20Poly1305,
        }
    }

    pub open spec fn client_id(self) -> u32 {
        match self {
            Request::ImportKey { client_id, .. } => client_id,
            Request::GetRandom { client_id, .. } => client_id,
            Request::GenerateSymmetricKey { client_id, .. } => client_id,
            Request::EncryptChaCha20Poly1305 { client_id, .. } => client_id,
            Request::DecryptChaCha20Poly1305 { client_id, .. } => client_id,
        }
    }

    pub open spec fn request_id(self) -> u32 {
        match self {
            Request::ImportKey { request_id, .. } => request_id,
            Request::GetRandom { request_id, .. } => request_id,
            Request::GenerateSymmetricKey { request_id, .. } => request_id,
            Request::EncryptChaCha20Poly1305 { request_id, .. } => request_id,
            Request::DecryptChaCha20Poly1305 { request_id, .. } => request_id,
        }
    }

    /// The key id carried by key-bearing variants (0 for `GetRandom`, which
    /// carries none).
    pub open spec fn key_id(self) -> u32 {
        match self {
            Request::ImportKey { key_id, .. } => key_id,
            Request::GetRandom { .. } => 0,
            Request::GenerateSymmetricKey { key_id, .. } => key_id,
            Request::EncryptChaCha20Poly1305 { key_id, .. } => key_id,
            Request::DecryptChaCha20Poly1305 { key_id, .. } => key_id,
        }
    }

    /// The key material of an `ImportKey` request (empty for the others).
    pub open spec fn import_data(self) -> Seq<u8> {
        match self {
            Request::ImportKey { data, .. } => data@,
            _ => Seq::<u8>::empty(),
        }
    }

    /// The same request with its `client_id` replaced by `id`.
    pub open spec fn with_client_id(self, id: u32) -> Request {
        match self {
            Request::ImportKey { client_id, request_id, key_id, data } => (Request::ImportKey {
                client_id: id,
                request_id,
                key_id,
                data,
            }),
            Request::GetRandom { client_id, request_id, len } => (Request::GetRandom {
                client_id: id,
                request_id,
                len,
            }),
            Request::GenerateSymmetricKey { client_id, request_id, key_id } => (
            Request::GenerateSymmetricKey { client_id: id, request_id, key_id }),
            Request::EncryptChaCha20Poly1305 {
                client_id,
                request_id,
                key_id,
                nonce,
                plaintext,
            } => (Request::EncryptChaCha20Poly1305 {
                client_id: id,
                request_id,
                key_id,
                nonce,
                plaintext,
            }),
            Request::DecryptChaCha20Poly1305 {
                client_id,
                request_id,
                key_id,
                nonce,
                ciphertext,
            } => (Request::DecryptChaCha20Poly1305 {
                client_id: id,
                request_id,
                key_id,
                nonce,
                ciphertext,
            }),
        }
    }

    pub fn get_type(&self) -> (t: RequestType)
        ensures
            t == self.typ(),
    {
        match self {
            Request::ImportKey { .. } => RequestType::ImportKey,
            Request::GetRandom { .. } => RequestType::GetRandom,
            Request::GenerateSymmetricKey { .. } => RequestType::GenerateSymmetricKey,
            Request::EncryptChaCha20Poly1305 { .. } => RequestType::EncryptChaCha20Poly1305,
            Request::DecryptChaCha20Poly1305 { .. } => RequestType::DecryptChaCha20Poly1305,
        }
    }

    pub fn get_client_id(&self) -> (r: u32)
        ensures
            r == self.client_id(),
    {
        match self {
            Request::ImportKey { client_id, .. } => *client_id,
            Request::GetRandom { client_id, .. } => *client_id,
            Request::GenerateSymmetricKey { client_id, .. } => *client_id,
            Request::EncryptChaCha20Poly1305 { client_id, .. } => *client_id,
            Request::DecryptChaCha20Poly1305 { client_id, .. } => *client_id,
        }
    }

    pub fn get_request_id(&self) -> (r: u32)
        ensures
            r == self.request_id(),
    {
        match self {
            Request::ImportKey { request_id, .. } => *request_id,
            Request::GetRandom { request_id, .. } => *request_id,
            Request::GenerateSymmetricKey { request_id, .. } => *request_id,
            Request::EncryptChaCha20Poly1305 { request_id, .. } => *request_id,
            Request::DecryptChaCha20Poly1305 { request_id, .. } => *request_id,
        }
    }

    /// Stamp the core-assigned client id onto this request.
    pub fn stamp_client_id(self, id: u32) -> (r: Request)
        ensures
            r == self.with_client_id(id),
    {
        match self {
            Request::ImportKey { client_id: _, request_id, key_id, data } => Request::ImportKey {
                client_id: id,
                request_id,
                key_id,
                data,
            },
            Request::GetRandom { client_id: _, request_id, len } => Request::GetRandom {
                client_id: id,
                request_id,
                len,
            },
            Request::GenerateSymmetricKey { client_id: _, request_id, key_id } => {
                Request::GenerateSymmetricKey { client_id: id, request_id, key_id }
            },
            Request::EncryptChaCha20Poly1305 {
                client_id: _,
                request_id,
                key_id,
                nonce,
                plaintext,
            } => Request::EncryptChaCha20Poly1305 {
                client_id: id,
                request_id,
                key_id,
                nonce,
                plaintext,
            },
            Request::DecryptChaCha20Poly1305 {
                client_id: _,
                request_id,
                key_id,
                nonce,
                ciphertext,
            } => Request::DecryptChaCha20Poly1305 {
                client_id: id,
                request_id,
                key_id,
                nonce,
                ciphertext,
            },
        }
    }
}

impl Response {
    pub open spec fn client_id(self) -> u32 {
        match self {
            Response::ImportKey { client_id, .. } => client_id,
            Response::GetRandom { client_id, .. } => client_id,
            Response::GenerateSymmetricKey { client_id, .. } => client_id,
            Response::EncryptChaCha20Poly1305 { client_id, .. } => client_id,
            Response::DecryptChaCha20Poly1305 { client_id, .. } => client_id,
            Response::Error { client_id, .. } => client_id,
        }
    }

    pub open spec fn request_id(self) -> u32 {
        match self {
            Response::ImportKey { request_id, .. } => request_id,
            Response::GetRandom { request_id, .. } => request_id,
            Response::GenerateSymmetricKey { request_id, .. } => request_id,
            Response::EncryptChaCha20Poly1305 { request_id, .. } => request_id,
            Response::DecryptChaCha20Poly1305 { request_id, .. } => request_id,
            Response::Error { request_id, .. } => request_id,
        }
    }

    pub fn get_client_id(&self) -> (r: u32)
        ensures
            r == self.client_id(),
    {
        match self {
            Response::ImportKey { client_id, .. } => *client_id,
            Response::GetRandom { client_id, .. } => *client_id,
            Response::GenerateSymmetricKey { client_id, .. } => *client_id,
            Response::EncryptChaCha20Poly1305 { client_id, .. } => *client_id,
            Response::DecryptChaCha20Poly1305 { client_id, .. } => *client_id,
            Response::Error { client_id, .. } => *client_id,
        }
    }

    pub fn get_request_id(&self) -> (r: u32)
        ensures
            r == self.request_id(),
    {
        match self {
            Response::ImportKey { request_id, .. } => *request_id,
            Response::GetRandom { request_id, .. } => *request_id,
            Response::GenerateSymmetricKey { request_id, .. } => *request_id,
            Response::EncryptChaCha20Poly1305 { request_id, .. } => *request_id,
            Response::DecryptChaCha20Poly1305 { request_id, .. } => *request_id,
            Response::Error { request_id, .. } => *request_id,
        }
    }
}

} // verus!
