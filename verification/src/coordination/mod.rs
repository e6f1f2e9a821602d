//! Coordination between agents: dependencies between pull requests, and
//! the messages agents exchange.

pub mod dependency;
pub mod forge;
pub mod gossip;
pub mod messages;
