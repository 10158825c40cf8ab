//! Client-side custody core for a federated e-cash wallet.
//!
//! The crate owns the persistent note ledger, the per-denomination index
//! allocator, and the history-replay recovery engine, together with the
//! versioned schema migrations that run before anything else touches the
//! store. Blind-signature cryptography, the federation protocol, and the
//! transport layer are external collaborators; this core works on the plain
//! values they exchange.

pub mod counters;
pub mod derivation;
pub mod keys;
pub mod laws;
pub mod ledger;
pub mod migration;
pub mod recovery;
