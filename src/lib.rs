//! Fork-aware pending-state management for a modular rollup, and the
//! witness log that lets zk re-execution replay the storage reads made by
//! native execution; with the rollup's module state, outcome types and zkVM
//! hint plumbing around it.

pub mod address;
pub mod codec;
pub mod context;
pub mod counter;
pub mod fork_manager;
pub mod geyser;
pub mod hash;
pub mod kv;
pub mod order;
pub mod snapshot;
pub mod stf;
pub mod store;
pub mod witness;
pub mod zk;
