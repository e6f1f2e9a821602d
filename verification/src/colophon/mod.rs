//! Colophons: agent identities modelled on the colophon pages of
//! hand-printed books, and the metadata that commits carry.

pub mod identity;
pub mod metadata;

use vstd::prelude::*;
use crate::ids::{AgentId, ArcId, MotifId, TensionId};

verus! {

/// The colophon of a manuscript chapter.
#[derive(Debug, PartialEq, Eq)]
pub struct ManuscriptColophon {
    pub chapter_number: u64,
    pub arc: ArcId,
    pub motifs: Vec<MotifId>,
    pub tensions_introduced: Vec<TensionId>,
    pub continuity_verified_by: Option<AgentId>,
}

} // verus!
