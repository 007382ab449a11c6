//! Device-aware folder synchronisation: the manifest and its diff, the
//! planner, the sync engine and the daemon's decisions, as verified logic on
//! plain values.

pub mod config;
pub mod context;
pub mod daemon;
pub mod domain;
pub mod sync;
pub mod utils;
