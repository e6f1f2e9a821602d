//! Agent identity: signing, key lifecycle and authorization.

pub mod signing;
pub mod key_lifecycle;
pub mod authorization;
pub mod agent;
