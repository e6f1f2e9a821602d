//! The manifest: the distributed memory of the collective.
//!
//! Each memory entry is a CRDT synchronised across agents by pull-based
//! gossip and scheduled by the tidal clock.

pub mod types;
pub mod tide;
pub mod entry;
pub mod gossip;
pub mod store;
