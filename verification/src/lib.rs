//! Agent memory, budgeting and coordination primitives.
#![allow(unused_imports)]

pub mod text;
pub mod parse;
pub mod vocab;
pub mod ids;
pub mod strmap;
pub mod repo;
pub mod manifest;
pub mod coordination;
pub mod identity;
pub mod budget;
pub mod agent;
pub mod circulation;
pub mod colophon;
pub mod catalog;
pub mod memory;
pub mod cohort;
pub mod fabric;
