//! The "see also" graph of memory entries: the catalog's bidirectional
//! cross-reference graph, keyed by entry identifiers, with the four
//! relationships memories use (each its own inverse).

use vstd::prelude::*;
use crate::catalog::see_also as catalog;
use crate::catalog::see_also::{GraphView, LinkView, add_link_result, bfs_result, hop_views, link_views, remove_result, walk_hops};
use crate::ids::{EntryId, ItemId};

verus! {

/// How two memories relate.
#[derive(Debug, Clone, Copy, PartialEq, Eq, Structural, Hash)]
pub enum Relationship {
    RelatedTo,
    DependsOn,
    ContrastsWith,
    SupersededBy,
}

/// The catalog relationship a memory relationship is stored as.
pub open spec fn stored(r: Relationship) -> catalog::Relationship {
    match r {
        Relationship::RelatedTo => catalog::Relationship::RelatedTo,
        Relationship::DependsOn => catalog::Relationship::DependsOn,
        Relationship::ContrastsWith => catalog::Relationship::ContrastsWith,
        Relationship::SupersededBy => catalog::Relationship::Supersedes,
    }
}

fn to_stored(r: Relationship) -> (c: catalog::Relationship)
    ensures
        c == stored(r),
{
    match r {
        Relationship::RelatedTo => catalog::Relationship::RelatedTo,
        Relationship::DependsOn => catalog::Relationship::DependsOn,
        Relationship::ContrastsWith => catalog::Relationship::ContrastsWith,
        Relationship::SupersededBy => catalog::Relationship::Supersedes,
    }
}

/// The relationship seen from the other end: every memory relationship is
/// its own inverse.
pub fn invert_relationship(rel: Relationship) -> (r: Relationship)
    ensures
        r == rel,
        stored(r) == catalog::inverse(stored(rel)),
{
    rel
}

/// A link from a memory to another.
#[derive(Debug, PartialEq, Eq)]
pub struct SeeAlsoLink {
    pub target_id: EntryId,
    pub relationship: Relationship,
    pub note: String,
}

/// Every stored link uses one of the memory relationships.
pub open spec fn memory_links(g: GraphView) -> bool {
    forall|k: Seq<char>, i: int| #![trigger g.edges[k][i]] g.edges.dom().contains(k) && 0 <= i < g.edges[k].len() ==>
        exists|r: Relationship| stored(r) == g.edges[k][i].relationship
}

/// The views of memory traversal results.
pub open spec fn entry_hop_views(r: Seq<(EntryId, u32)>) -> Seq<(Seq<char>, u32)> {
    r.map_values(|p: (EntryId, u32)| (p.0@, p.1))
}

/// The memory "see also" graph.
pub struct SeeAlsoGraph {
    inner: catalog::SeeAlsoGraph,
}

impl View for SeeAlsoGraph {
    type V = GraphView;

    closed spec fn view(&self) -> GraphView {
        self.inner@
    }
}

impl SeeAlsoGraph {
    #[verifier::type_invariant]
    spec fn inv(self) -> bool {
        memory_links(self.inner@)
    }

    /// An empty graph with a link limit per entry.
    pub fn new(max_links: usize) -> (g: Self)
        ensures
            g@.edges == Map::<Seq<char>, Seq<LinkView>>::empty(),
            g@.order == Seq::<Seq<char>>::empty(),
            g@.max_links == max_links,
    {
        SeeAlsoGraph { inner: catalog::SeeAlsoGraph::new(max_links) }
    }

    /// Link two entries both ways; fails if either is at its limit, and
    /// otherwise an existing link counts as success.
    pub fn add_link(&mut self, from: EntryId, to: EntryId, relationship: Relationship, note: String) -> (r: bool)
        ensures
            (r, final(self)@) == add_link_result(old(self)@, from@, to@, stored(relationship), note@),
    {
        proof { use_type_invariant(&*self); }
        let ghost g0 = self@;
        let mut inner = catalog::SeeAlsoGraph::new(0);
        std::mem::swap(&mut inner, &mut self.inner);
        let r = inner.add_link(ItemId(from.0), ItemId(to.0), to_stored(relationship), note);
        proof {
            let h = inner@;
            assert forall|k: Seq<char>, i: int| #![trigger h.edges[k][i]] h.edges.dom().contains(k) && 0 <= i < h.edges[k].len() implies
                exists|x: Relationship| stored(x) == h.edges[k][i].relationship by {
                if g0.edges.dom().contains(k) && i < g0.edges[k].len() && h.edges[k][i] == g0.edges[k][i] {
                    assert(exists|x: Relationship| stored(x) == g0.edges[k][i].relationship);
                } else {
                    assert(stored(relationship) == catalog::inverse(stored(relationship)));
                    assert(stored(relationship) == h.edges[k][i].relationship);
                }
            }
        }
        self.inner = inner;
        r
    }

    /// Remove an entry and every link back to it.
    pub fn remove_entry(&mut self, entry_id: &EntryId)
        ensures
            final(self)@ == remove_result(old(self)@, entry_id@),
    {
        proof { use_type_invariant(&*self); }
        let ghost g0 = self@;
        let mut inner = catalog::SeeAlsoGraph::new(0);
        std::mem::swap(&mut inner, &mut self.inner);
        inner.remove_item(&ItemId(entry_id.0.clone()));
        proof {
            let h = inner@;
            assert forall|k: Seq<char>, i: int| #![trigger h.edges[k][i]] h.edges.dom().contains(k) && 0 <= i < h.edges[k].len() implies
                exists|x: Relationship| stored(x) == h.edges[k][i].relationship by {
                let ls = g0.edges[k];
                if g0.edges.dom().contains(entry_id@) && catalog::links_to(g0.edges[entry_id@], k) {
                    assert(h.edges[k] == catalog::drop_target(ls, entry_id@));
                    assert(h.edges[k].contains(h.edges[k][i]));
                    catalog::lemma_drop_target(ls, entry_id@, k);
                    let j = choose|j: int| 0 <= j < ls.len() && ls[j] == h.edges[k][i];
                    assert(exists|x: Relationship| stored(x) == g0.edges[k][j].relationship);
                } else {
                    assert(exists|x: Relationship| stored(x) == g0.edges[k][i].relationship);
                }
            }
        }
        self.inner = inner;
    }

    /// The links of an entry (none if it is absent).
    pub fn get_links(&self, entry_id: &EntryId) -> (r: Vec<SeeAlsoLink>)
        ensures
            self@.edges.dom().contains(entry_id@) ==> r@.len() == self@.edges[entry_id@].len(),
            !self@.edges.dom().contains(entry_id@) ==> r@.len() == 0,
            forall|i: int| 0 <= i < r@.len() ==> {
                &&& (#[trigger] r@[i]).target_id@ == self@.edges[entry_id@][i].target
                &&& stored(r@[i].relationship) == self@.edges[entry_id@][i].relationship
                &&& r@[i].note@ == self@.edges[entry_id@][i].note
            },
    {
        proof { use_type_invariant(self); }
        let links = self.inner.get_links(&ItemId(entry_id.0.clone()));
        let ghost ls = self@.edges[entry_id@];
        let mut out: Vec<SeeAlsoLink> = Vec::new();
        let mut i: usize = 0;
        while i < links.len()
            invariant
                i <= links@.len(),
                out@.len() == i,
                memory_links(self@),
                self@.edges.dom().contains(entry_id@) ==> link_views(links@) == ls,
                ls == self@.edges[entry_id@],
                !self@.edges.dom().contains(entry_id@) ==> links@.len() == 0,
                forall|j: int| 0 <= j < i ==> {
                    &&& (#[trigger] out@[j]).target_id@ == ls[j].target
                    &&& stored(out@[j].relationship) == ls[j].relationship
                    &&& out@[j].note@ == ls[j].note
                },
            decreases links@.len() - i,
        {
            let l = &links[i];
            assert(link_views(links@)[i as int] == l@);
            assert(exists|x: Relationship| stored(x) == ls[i as int].relationship);
            let rel = match l.relationship {
                catalog::Relationship::RelatedTo => Relationship::RelatedTo,
                catalog::Relationship::DependsOn => Relationship::DependsOn,
                catalog::Relationship::ContrastsWith => Relationship::ContrastsWith,
                _ => Relationship::SupersededBy,
            };
            out.push(SeeAlsoLink { target_id: EntryId(l.target.0.clone()), relationship: rel, note: l.note.clone() });
            i = i + 1;
        }
        out
    }

    /// Breadth-first walk from `start` over at most `max_hops` links.
    pub fn traverse(&self, start: &EntryId, max_hops: u32) -> (r: Vec<(EntryId, u32)>)
        ensures
            bfs_result(self@.edges, start@, max_hops, entry_hop_views(r@)),
            entry_hop_views(r@) == walk_hops(self@.edges, start@, max_hops as nat),
    {
        let s = ItemId(start.0.clone());
        assert(s@ == start@);
        let found = self.inner.traverse(&s, max_hops);
        let mut out: Vec<(EntryId, u32)> = Vec::new();
        let mut i: usize = 0;
        while i < found.len()
            invariant
                i <= found@.len(),
                entry_hop_views(out@) == hop_views(found@).take(i as int),
            decreases found@.len() - i,
        {
            let ghost before = entry_hop_views(out@);
            out.push((EntryId(found[i].0.0.clone()), found[i].1));
            assert(entry_hop_views(out@) =~= before.push(hop_views(found@)[i as int]));
            assert(hop_views(found@).take(i + 1) =~= hop_views(found@).take(i as int).push(hop_views(found@)[i as int]));
            i = i + 1;
        }
        assert(hop_views(found@).take(found@.len() as int) =~= hop_views(found@));
        assert(entry_hop_views(out@) == hop_views(found@));
        out
    }

    /// The number of links on a shortest path between two entries, if any.
    pub fn shortest_path(&self, from: &EntryId, to: &EntryId) -> (r: Option<u32>)
        requires
            catalog::all_targets(self@.edges).len() < u32::MAX,
        ensures
            match r {
                Some(d) => catalog::at_distance(self@.edges, from@, to@, d as nat),
                None => forall|k: nat| !(#[trigger] catalog::within(self@.edges, from@, k)).contains(to@),
            },
    {
        let a = ItemId(from.0.clone());
        let b = ItemId(to.0.clone());
        assert(a@ == from@ && b@ == to@);
        self.inner.shortest_path(&a, &b)
    }

    /// Number of entries.
    pub fn entry_count(&self) -> (n: usize)
        ensures
            n == self@.edges.dom().len(),
    {
        self.inner.item_count()
    }

    /// Total number of links.
    pub fn edge_count(&self) -> (n: usize)
        requires
            catalog::link_total(self@, self@.order) <= usize::MAX,
        ensures
            n == catalog::link_total(self@, self@.order),
    {
        self.inner.edge_count()
    }
}

impl Default for SeeAlsoGraph {
    /// An empty graph that allows no links.
    fn default() -> (g: Self)
        ensures
            g@.edges == Map::<Seq<char>, Seq<LinkView>>::empty(),
            g@.max_links == 0,
    {
        SeeAlsoGraph::new(0)
    }
}

} // verus!
