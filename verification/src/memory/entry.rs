//! A memory entry: its content, classification, links and lifecycle state.
//!
//! The survival metadata (a fitted distribution and probabilities, in
//! floating point) is carried as the type parameter `S`; nothing here reads
//! it.

use vstd::prelude::*;
use crate::ids::{AgentId, EntryId, MotifId, TensionId};
use crate::memory::call_number::CallNumber;
use crate::memory::see_also::SeeAlsoLink;
use crate::text::views;

verus! {

/// Where an entry stands in its lifecycle.
#[derive(Debug, Clone, Copy, PartialEq, Eq, Structural, Hash)]
pub enum MemoryState {
    Alive,
    Moribund,
    Deceased,
}

/// The part an entry plays in a tension.
#[derive(Debug, Clone, Copy, PartialEq, Eq, Structural, Hash)]
pub enum TensionRole {
    Introduced,
    Referenced,
    Resolved,
}

/// An entry's part in a tension.
#[derive(Debug, PartialEq, Eq)]
pub struct TensionRef {
    pub tension_id: TensionId,
    pub role: TensionRole,
}

/// The classification of a memory entry.
#[derive(Debug, PartialEq, Eq)]
pub struct Classification {
    pub subject_headings: Vec<String>,
    pub call_number: CallNumber,
    pub controlled_vocab: bool,
}

/// One memory.
#[derive(Debug, PartialEq, Eq)]
pub struct MemoryEntry<S> {
    pub id: EntryId,
    pub agent: AgentId,
    pub content: String,
    pub created_at: String,
    pub last_accessed: String,
    pub classification: Classification,
    pub see_also: Vec<SeeAlsoLink>,
    pub motifs: Vec<MotifId>,
    pub tension_refs: Vec<TensionRef>,
    pub survival: S,
    pub state: MemoryState,
    pub consensus_citations: u64,
    pub access_count: u64,
    pub source_commit: Option<String>,
}

/// The plain content of a memory entry.
pub struct MemoryEntryView<S> {
    pub id: Seq<char>,
    pub agent: Seq<char>,
    pub content: Seq<char>,
    pub created_at: Seq<char>,
    pub last_accessed: Seq<char>,
    pub subjects: Seq<Seq<char>>,
    pub call_number: Seq<Seq<char>>,
    pub controlled_vocab: bool,
    pub see_also: Seq<(Seq<char>, crate::memory::see_also::Relationship, Seq<char>)>,
    pub motifs: Seq<Seq<char>>,
    pub tension_refs: Seq<(Seq<char>, TensionRole)>,
    pub survival: S,
    pub state: MemoryState,
    pub consensus_citations: u64,
    pub access_count: u64,
    pub source_commit: Option<Seq<char>>,
}

/// The views of "see also" links of an entry.
pub open spec fn link_triples(v: Seq<SeeAlsoLink>) -> Seq<(Seq<char>, crate::memory::see_also::Relationship, Seq<char>)> {
    v.map_values(|l: SeeAlsoLink| (l.target_id@, l.relationship, l.note@))
}

/// The views of tension references.
pub open spec fn tension_pairs(v: Seq<TensionRef>) -> Seq<(Seq<char>, TensionRole)> {
    v.map_values(|t: TensionRef| (t.tension_id@, t.role))
}

/// The views of motif ids.
pub open spec fn motif_views(v: Seq<MotifId>) -> Seq<Seq<char>> {
    v.map_values(|m: MotifId| m@)
}

impl<S> View for MemoryEntry<S> {
    type V = MemoryEntryView<S>;

    open spec fn view(&self) -> MemoryEntryView<S> {
        MemoryEntryView {
            id: self.id@,
            agent: self.agent@,
            content: self.content@,
            created_at: self.created_at@,
            last_accessed: self.last_accessed@,
            subjects: views(self.classification.subject_headings@),
            call_number: self.classification.call_number@,
            controlled_vocab: self.classification.controlled_vocab,
            see_also: link_triples(self.see_also@),
            motifs: motif_views(self.motifs@),
            tension_refs: tension_pairs(self.tension_refs@),
            survival: self.survival,
            state: self.state,
            consensus_citations: self.consensus_citations,
            access_count: self.access_count,
            source_commit: match self.source_commit { Some(c) => Some(c@), None => None },
        }
    }
}

/// A copy of an entry whose survival metadata can be copied.
pub fn copy_entry<S: Copy>(e: &MemoryEntry<S>) -> (r: MemoryEntry<S>)
    ensures
        r@ == e@,
{
    let mut links: Vec<SeeAlsoLink> = Vec::new();
    let mut i: usize = 0;
    while i < e.see_also.len()
        invariant
            i <= e.see_also@.len(),
            link_triples(links@) == link_triples(e.see_also@).take(i as int),
        decreases e.see_also@.len() - i,
    {
        let l = &e.see_also[i];
        let ghost before = links@;
        links.push(SeeAlsoLink { target_id: l.target_id.clone(), relationship: l.relationship, note: l.note.clone() });
        assert(link_triples(links@) =~= link_triples(before).push((l.target_id@, l.relationship, l.note@)));
        assert(link_triples(e.see_also@).take(i + 1) =~= link_triples(e.see_also@).take(i as int).push((l.target_id@, l.relationship, l.note@)));
        i = i + 1;
    }
    assert(link_triples(e.see_also@).take(e.see_also@.len() as int) =~= link_triples(e.see_also@));
    let mut motifs: Vec<MotifId> = Vec::new();
    let mut j: usize = 0;
    while j < e.motifs.len()
        invariant
            j <= e.motifs@.len(),
            motif_views(motifs@) == motif_views(e.motifs@).take(j as int),
        decreases e.motifs@.len() - j,
    {
        let ghost before = motifs@;
        motifs.push(e.motifs[j].clone());
        assert(motif_views(motifs@) =~= motif_views(before).push(e.motifs@[j as int]@));
        assert(motif_views(e.motifs@).take(j + 1) =~= motif_views(e.motifs@).take(j as int).push(e.motifs@[j as int]@));
        j = j + 1;
    }
    assert(motif_views(e.motifs@).take(e.motifs@.len() as int) =~= motif_views(e.motifs@));
    let mut refs: Vec<TensionRef> = Vec::new();
    let mut k: usize = 0;
    while k < e.tension_refs.len()
        invariant
            k <= e.tension_refs@.len(),
            tension_pairs(refs@) == tension_pairs(e.tension_refs@).take(k as int),
        decreases e.tension_refs@.len() - k,
    {
        let t = &e.tension_refs[k];
        let ghost before = refs@;
        refs.push(TensionRef { tension_id: t.tension_id.clone(), role: t.role });
        assert(tension_pairs(refs@) =~= tension_pairs(before).push((t.tension_id@, t.role)));
        assert(tension_pairs(e.tension_refs@).take(k + 1) =~= tension_pairs(e.tension_refs@).take(k as int).push((t.tension_id@, t.role)));
        k = k + 1;
    }
    assert(tension_pairs(e.tension_refs@).take(e.tension_refs@.len() as int) =~= tension_pairs(e.tension_refs@));
    MemoryEntry {
        id: e.id.clone(),
        agent: e.agent.clone(),
        content: e.content.clone(),
        created_at: e.created_at.clone(),
        last_accessed: e.last_accessed.clone(),
        classification: Classification {
            subject_headings: crate::text::clone_strings(&e.classification.subject_headings),
            call_number: e.classification.call_number.clone(),
            controlled_vocab: e.classification.controlled_vocab,
        },
        see_also: links,
        motifs,
        tension_refs: refs,
        survival: e.survival,
        state: e.state,
        consensus_citations: e.consensus_citations,
        access_count: e.access_count,
        source_commit: crate::text::clone_opt(&e.source_commit),
    }
}

/// The subjects of an entry.
pub open spec fn subjects_of<S>(e: MemoryEntry<S>) -> Seq<Seq<char>> {
    views(e.classification.subject_headings@)
}

/// An entry still carries a tension it introduced or refers to.
pub open spec fn has_open_tension<S>(e: MemoryEntry<S>) -> bool {
    exists|i: int| 0 <= i < e.tension_refs@.len() && (#[trigger] e.tension_refs@[i]).role != TensionRole::Resolved
}

/// Whether an entry carries an open tension.
pub fn open_tension<S>(e: &MemoryEntry<S>) -> (r: bool)
    ensures
        r == has_open_tension(*e),
{
    let mut i: usize = 0;
    while i < e.tension_refs.len()
        invariant
            i <= e.tension_refs@.len(),
            forall|j: int| 0 <= j < i ==> (#[trigger] e.tension_refs@[j]).role == TensionRole::Resolved,
        decreases e.tension_refs@.len() - i,
    {
        match e.tension_refs[i].role {
            TensionRole::Resolved => {},
            _ => {
                return true;
            },
        }
        i = i + 1;
    }
    false
}

} // verus!
