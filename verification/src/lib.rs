//! Counter-state store for a rate-limiting library.
//!
//! A [`limit::Limit`] describes a rate-limiting rule: a namespace, a capacity
//! (`max_value`) and a rolling time window. A [`counter::Counter`] is a
//! concrete, addressable instance of a limit. The in-process store
//! [`storage::WasmStorage`] tracks per-counter budgets in a lazily expiring
//! [`cache::Cache`] together with a namespace/limit index for bulk deletion,
//! and [`decision::is_limited`] is the batch decision algorithm that turns a
//! raw `(value, ttl)` read from a networked backend into an authorization
//! outcome. All time is injected through the [`clock::Clock`] capability, so
//! every operation is deterministic.

pub mod cache;
pub mod clock;
pub mod counter;
pub mod decision;
pub mod errors;
pub mod limit;
pub mod storage;
