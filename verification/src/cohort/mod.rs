//! The cohort: the research centre's agents and their records.

pub mod identity;
