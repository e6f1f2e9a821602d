//! Token budgets: tracking per agent and allocation across a team.

pub mod provider;
pub mod tracker;
