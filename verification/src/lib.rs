//! Asset registry and breeding state machine for uniquely identified,
//! genetically derived digital collectibles ("kitties").
//!
//! The registry mints, transfers and markets assets owned by accounts,
//! under a per-account capacity limit, with deterministic identity and
//! trait generation from externally supplied entropy.

pub mod dna;
pub mod registry;
pub mod store;
