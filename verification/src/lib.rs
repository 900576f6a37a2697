//! An in-memory, single-writer key-value store with monotonic versions,
//! client-supplied idempotency tokens and absolute expiration timestamps,
//! together with the client's request logic and an off-line history checker.

pub mod client;
pub mod clock;
pub mod decimal;
pub mod engine;
pub mod errors;
pub mod history;
pub mod laws;
pub mod store;
pub mod workload;

use vstd::prelude::*;

verus! {

/// Largest key accepted by the store and the client, in bytes.
pub const MAX_KEY_SIZE: usize = 1024;

/// Largest value accepted by the store and the client, in bytes.
pub const MAX_VALUE_SIZE: usize = 4194304;

} // verus!
