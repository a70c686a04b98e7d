//! Deterministic state storage and block execution for a replicated ledger.
//!
//! The store keeps byte values under namespaced byte keys and hands out
//! snapshots, forks and patches. Lists, maps, sets and entries are typed
//! projections over it; the proof map and the proof list add Merkle roots
//! and proofs of inclusion and exclusion. The block pipeline applies
//! transactions and commit hooks to one fork under a fault boundary, and the
//! runtime dispatches calls to service instances.

pub mod blockchain;
pub mod crypto;
pub mod encoding;
pub mod entry;
pub mod list_index;
pub mod map_index;
pub mod messages;
pub mod proof_list;
pub mod proof_map;
pub mod proof_store;
pub mod runtime;
pub mod sandbox;
pub mod services;
pub mod set_index;
pub mod storage;
