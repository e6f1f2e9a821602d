//! Data types of the manifest: entries, categories, tides and configuration.

use vstd::prelude::*;
use crate::ids::{AgentId, EntryId};

verus! {

/// The four 90-minute phases of a tide.
#[derive(Debug, Clone, Copy, PartialEq, Eq, Hash)]
pub enum TidePhase {
    Flood,
    High,
    Ebb,
    Low,
}

/// Lower-case name of a tide phase.
pub open spec fn phase_name(p: TidePhase) -> Seq<char> {
    match p {
        TidePhase::Flood => "flood"@,
        TidePhase::High => "high"@,
        TidePhase::Ebb => "ebb"@,
        TidePhase::Low => "low"@,
    }
}

impl TidePhase {
    /// The lower-case name of the phase ("flood", "high", "ebb", "low").
    pub fn name(&self) -> (s: &'static str)
        ensures
            s@ == phase_name(*self),
    {
        match self {
            TidePhase::Flood => "flood",
            TidePhase::High => "high",
            TidePhase::Ebb => "ebb",
            TidePhase::Low => "low",
        }
    }
}

/// A point in tidal time.
#[derive(Debug, PartialEq, Eq)]
pub struct TideMark {
    /// ISO-8601 rendering of the instant.
    pub timestamp: String,
    /// Phase of the tide at the instant.
    pub phase: TidePhase,
    /// Number of whole cycles since the epoch.
    pub cycle: u64,
    /// Seconds elapsed since the current phase began.
    pub phase_elapsed_seconds: u64,
}

/// Configuration of the collective's tidal schedule and memory limits.
#[derive(Debug, Clone, Copy, PartialEq, Eq)]
pub struct TidalConfig {
    /// Length of one tide cycle in hours.
    pub tide_cycle_hours: u64,
    /// Maximum number of entries a retrieval returns.
    pub max_memory_entries: usize,
}

impl TidalConfig {
    /// The standard configuration: six-hour tides, twenty entries per retrieval.
    pub fn standard() -> (c: TidalConfig)
        ensures
            c.tide_cycle_hours == 6,
            c.max_memory_entries == 20,
    {
        TidalConfig { tide_cycle_hours: 6, max_memory_entries: 20 }
    }
}

impl Default for TidalConfig {
    /// The standard configuration.
    fn default() -> (c: TidalConfig)
        ensures
            c.tide_cycle_hours == 6,
            c.max_memory_entries == 20,
    {
        TidalConfig::standard()
    }
}

/// What a manifest entry records.
#[derive(Debug, Clone, Copy, PartialEq, Eq, Hash)]
pub enum ManifestCategory {
    /// A reusable pattern.
    Pattern,
    /// An error and how it was resolved.
    Error,
    /// A decision and its rationale.
    Decision,
    /// An agent identity record; never expires.
    Identity,
}

/// Default time-to-live of a category, in seconds.
pub open spec fn category_ttl(c: ManifestCategory) -> Option<u64> {
    match c {
        ManifestCategory::Pattern => Some(2592000u64),
        ManifestCategory::Error => Some(604800u64),
        ManifestCategory::Decision => Some(7776000u64),
        ManifestCategory::Identity => None,
    }
}

impl ManifestCategory {
    /// Default time-to-live in seconds (`None` for entries that never expire).
    pub fn default_ttl_seconds(&self) -> (r: Option<u64>)
        ensures
            r == category_ttl(*self),
    {
        match self {
            ManifestCategory::Pattern => Some(2592000),
            ManifestCategory::Error => Some(604800),
            ManifestCategory::Decision => Some(7776000),
            ManifestCategory::Identity => None,
        }
    }

    /// Whether two categories are the same.
    pub fn same(&self, other: &ManifestCategory) -> (r: bool)
        ensures
            r == (*self == *other),
    {
        match (self, other) {
            (ManifestCategory::Pattern, ManifestCategory::Pattern) => true,
            (ManifestCategory::Error, ManifestCategory::Error) => true,
            (ManifestCategory::Decision, ManifestCategory::Decision) => true,
            (ManifestCategory::Identity, ManifestCategory::Identity) => true,
            _ => false,
        }
    }
}

/// One memory entry of the collective's manifest; a CRDT.
#[derive(Debug, PartialEq, Eq)]
pub struct ManifestEntry {
    pub id: EntryId,
    pub agent: AgentId,
    pub category: ManifestCategory,
    pub created: String,
    pub ttl: Option<String>,
    pub expires: Option<String>,
    pub tags: Vec<String>,
    pub content: String,
    pub embedding_hash: Option<String>,
    pub access_count: u64,
    pub last_accessed: Option<String>,
    pub tide_created: String,
    pub version: u64,
    pub consensus_citations: u64,
}

} // verus!
