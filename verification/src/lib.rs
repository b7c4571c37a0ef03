//! A single-collection token registry: ownership, per-item spend approvals,
//! operator grants, role-gated administration, and storage-retention
//! bookkeeping, modelled as a verified in-memory state machine.
//!
//! The host environment around a deployment (the durable key/value store,
//! the proof-of-identity gate, the event sink, and the ledger clock) is kept
//! outside the library: operations take the ledger reading as an argument,
//! report failures as `Error` values, and leave the state untouched on
//! failure, so a caller can treat each call as one atomic transaction.

pub mod lifecycle;
pub mod registry;
pub mod types;
