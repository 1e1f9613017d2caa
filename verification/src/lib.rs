//! Dispatch core of a small hardware security module runtime.
//!
//! Client tasks submit cryptographic requests; worker tasks produce the
//! corresponding responses. The core is the crossbar between them: it routes
//! each request to the single worker that advertises the matching request
//! type, and routes each response back to the originating client. Key-import
//! requests are handled locally by a key-store shim instead of a worker.
//!
//! All queues are bounded and lossless; the dispatcher only dequeues a
//! request once the downstream sink is known to accept it, and selection is
//! strict round-robin so that no ready channel starves.

pub mod jobs;
pub mod keystore;
pub mod queue;
pub mod typelist;
pub mod hsm;
pub mod laws;

