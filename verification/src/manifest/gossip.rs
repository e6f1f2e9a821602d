//! Pull-based gossip for manifest synchronisation.
//!
//! Each agent keeps a vector clock of the latest version it has seen from
//! every agent. A peer answers a request with the entries the requester is
//! missing; the CRDT merge of `entry` makes the replicas converge.

use vstd::prelude::*;
use crate::ids::{AgentId, EntryId};
use crate::strmap::StrMap;
use crate::text::views;
use super::entry::{EntryView, merge, merge_view, opt_entry_view};
use super::types::{ManifestEntry, TidePhase};

verus! {

/// The version recorded for an agent (0 when the agent is unknown).
pub open spec fn version_of(m: Map<Seq<char>, u64>, a: Seq<char>) -> u64 {
    if m.dom().contains(a) { m[a] } else { 0 }
}

/// Element-wise maximum of two clocks.
pub open spec fn merge_clocks(a: Map<Seq<char>, u64>, b: Map<Seq<char>, u64>) -> Map<Seq<char>, u64> {
    Map::new(
        |k: Seq<char>| a.dom().contains(k) || b.dom().contains(k),
        |k: Seq<char>| if version_of(a, k) >= version_of(b, k) { version_of(a, k) } else { version_of(b, k) },
    )
}

/// The clock after observing `version` from `agent`.
pub open spec fn observe_clock(m: Map<Seq<char>, u64>, agent: Seq<char>, version: u64) -> Map<Seq<char>, u64> {
    m.insert(agent, if version > version_of(m, agent) { version } else { version_of(m, agent) })
}

/// Vector clock tracking the latest version seen from each agent.
pub struct VectorClock {
    clocks: StrMap<u64>,
}

impl View for VectorClock {
    type V = Map<Seq<char>, u64>;

    closed spec fn view(&self) -> Map<Seq<char>, u64> {
        self.clocks.map()
    }
}

impl VectorClock {
    #[verifier::type_invariant]
    spec fn inv(self) -> bool {
        self.clocks.wf()
    }

    /// The agents of the clock, in the order they were first observed.
    pub closed spec fn agent_order(self) -> Seq<Seq<char>> {
        self.clocks.key_seq()
    }

    /// A clock that has seen nothing.
    pub fn new() -> (c: Self)
        ensures
            c@ == Map::<Seq<char>, u64>::empty(),
    {
        VectorClock { clocks: StrMap::new() }
    }

    /// Record that a version from `agent` has been seen; the clock never goes back.
    pub fn observe(&mut self, agent: &AgentId, version: u64)
        ensures
            final(self)@ == observe_clock(old(self)@, agent@, version),
    {
        proof { use_type_invariant(&*self); }
        let current = match self.clocks.get(agent.0.as_str()) {
            Some(v) => *v,
            None => 0,
        };
        let next = if version > current { version } else { current };
        let mut c = StrMap::new();
        std::mem::swap(&mut c, &mut self.clocks);
        c.insert(agent.0.clone(), next);
        self.clocks = c;
    }

    /// The latest version seen from `agent` (0 if none).
    pub fn version_for(&self, agent: &AgentId) -> (v: u64)
        ensures
            v == version_of(self@, agent@),
    {
        proof { use_type_invariant(self); }
        match self.clocks.get(agent.0.as_str()) {
            Some(v) => *v,
            None => 0,
        }
    }

    /// The agents whose data `other` has not yet fully seen, each with the
    /// version `other` has seen from them; every such agent appears once.
    pub fn missing_for(&self, other: &VectorClock) -> (r: Vec<(AgentId, u64)>)
        ensures
            forall|i: int| 0 <= i < r@.len() ==> {
                let (a, w) = #[trigger] r@[i];
                &&& self@.dom().contains(a@)
                &&& self@[a@] > version_of(other@, a@)
                &&& w == version_of(other@, a@)
            },
            forall|a: Seq<char>| self@.dom().contains(a) && self@[a] > version_of(other@, a) ==> exists|i: int| 0 <= i < r@.len() && (#[trigger] r@[i]).0@ == a,
            forall|i: int, j: int| 0 <= i < j < r@.len() ==> (#[trigger] r@[i]).0@ != (#[trigger] r@[j]).0@,
    {
        proof {
            use_type_invariant(self);
            self.clocks.lemma_wf();
        }
        let ghost ks = self.clocks.key_seq();
        let mut missing: Vec<(AgentId, u64)> = Vec::new();
        let mut i: usize = 0;
        while i < self.clocks.len()
            invariant
                self.clocks.wf(),
                ks == self.clocks.key_seq(),
                ks.no_duplicates(),
                ks.len() == self.clocks.val_seq().len(),
                forall|k: Seq<char>| #[trigger] self.clocks.map().dom().contains(k) <==> ks.contains(k),
                forall|m: int| 0 <= m < ks.len() ==> #[trigger] self.clocks.map()[ks[m]] == self.clocks.val_seq()[m],
                i <= ks.len(),
                forall|m: int| 0 <= m < missing@.len() ==> {
                    let (a, w) = #[trigger] missing@[m];
                    &&& self@.dom().contains(a@)
                    &&& self@[a@] > version_of(other@, a@)
                    &&& w == version_of(other@, a@)
                    &&& exists|p: int| 0 <= p < i && ks[p] == a@
                },
                forall|p: int| 0 <= p < i && self@[ks[p]] > version_of(other@, ks[p]) ==> exists|m: int| 0 <= m < missing@.len() && (#[trigger] missing@[m]).0@ == ks[p],
                forall|m1: int, m2: int| 0 <= m1 < m2 < missing@.len() ==> (#[trigger] missing@[m1]).0@ != (#[trigger] missing@[m2]).0@,
            decreases ks.len() - i,
        {
            let key = self.clocks.key_at(i);
            let ours = *self.clocks.val_at(i);
            let agent = AgentId(key.clone());
            let theirs = other.version_for(&agent);
            assert(self@[ks[i as int]] == ours);
            let ghost before = missing@;
            if ours > theirs {
                proof {
                    assert forall|m: int| 0 <= m < missing@.len() implies (#[trigger] missing@[m]).0@ != agent@ by {
                        let p = choose|p: int| 0 <= p < i && ks[p] == missing@[m].0@;
                        assert(ks[p] != ks[i as int]);
                    }
                }
                missing.push((agent, theirs));
                assert(ks[i as int] == missing@[missing@.len() - 1].0@);
            }
            proof {
                assert forall|p: int| 0 <= p < i + 1 && self@[ks[p]] > version_of(other@, ks[p]) implies exists|m: int| 0 <= m < missing@.len() && (#[trigger] missing@[m]).0@ == ks[p] by {
                    if p < i {
                        let m = choose|m: int| 0 <= m < before.len() && (#[trigger] before[m]).0@ == ks[p];
                        assert(missing@[m] == before[m]);
                    } else {
                        assert(missing@[missing@.len() - 1].0@ == ks[p]);
                    }
                }
            }
            i = i + 1;
        }
        proof {
            assert forall|a: Seq<char>| self@.dom().contains(a) && self@[a] > version_of(other@, a) implies exists|m: int| 0 <= m < missing@.len() && (#[trigger] missing@[m]).0@ == a by {
                let p = choose|p: int| 0 <= p < ks.len() && ks[p] == a;
            }
        }
        missing
    }

    /// Fold another clock into this one (element-wise maximum).
    pub fn merge(&mut self, other: &VectorClock)
        ensures
            final(self)@ == merge_clocks(old(self)@, other@),
    {
        proof {
            use_type_invariant(&*self);
            use_type_invariant(other);
            other.clocks.lemma_wf();
        }
        let ghost start = self@;
        let ghost oks = other.clocks.key_seq();
        let mut c = StrMap::new();
        std::mem::swap(&mut c, &mut self.clocks);
        let mut i: usize = 0;
        while i < other.clocks.len()
            invariant
                c.wf(),
                other.clocks.wf(),
                oks == other.clocks.key_seq(),
                oks.len() == other.clocks.val_seq().len(),
                forall|k: Seq<char>| #[trigger] other@.dom().contains(k) <==> oks.contains(k),
                forall|m: int| 0 <= m < oks.len() ==> #[trigger] other@[oks[m]] == other.clocks.val_seq()[m],
                i <= oks.len(),
                c.map() == merge_clocks(start, other@.restrict(oks.subrange(0, i as int).to_set())),
            decreases oks.len() - i,
        {
            let k = other.clocks.key_at(i);
            let v = *other.clocks.val_at(i);
            let current = match c.get(k.as_str()) {
                Some(x) => *x,
                None => 0,
            };
            let next = if v > current { v } else { current };
            c.insert(k.clone(), next);
            proof {
                let s0 = oks.subrange(0, i as int).to_set();
                let s1 = oks.subrange(0, i + 1).to_set();
                assert(oks.subrange(0, i + 1) =~= oks.subrange(0, i as int).push(oks[i as int]));
                oks.subrange(0, i as int).lemma_push_to_set_commute(oks[i as int]);
                assert(s1 =~= s0.insert(oks[i as int]));
                assert(c.map() =~= merge_clocks(start, other@.restrict(s1)));
            }
            i = i + 1;
        }
        proof {
            assert(oks.subrange(0, oks.len() as int) =~= oks);
            assert(other@.restrict(oks.to_set()) =~= other@);
        }
        self.clocks = c;
    }

    /// Every agent with its version, in the order agents were first observed.
    pub fn agents(&self) -> (r: Vec<(AgentId, u64)>)
        ensures
            r@.len() == self.agent_order().len(),
            forall|i: int| 0 <= i < r@.len() ==> (#[trigger] r@[i]).0@ == self.agent_order()[i] && r@[i].1 == self@[self.agent_order()[i]],
            forall|a: Seq<char>| self@.dom().contains(a) <==> self.agent_order().contains(a),
    {
        proof {
            use_type_invariant(self);
            self.clocks.lemma_wf();
        }
        let mut out: Vec<(AgentId, u64)> = Vec::new();
        let mut i: usize = 0;
        while i < self.clocks.len()
            invariant
                self.clocks.wf(),
                i <= self.clocks.key_seq().len(),
                self.clocks.key_seq().len() == self.clocks.val_seq().len(),
                forall|m: int| 0 <= m < self.clocks.key_seq().len() ==> #[trigger] self.clocks.map()[self.clocks.key_seq()[m]] == self.clocks.val_seq()[m],
                out@.len() == i,
                forall|m: int| 0 <= m < i ==> (#[trigger] out@[m]).0@ == self.clocks.key_seq()[m] && out@[m].1 == self@[self.clocks.key_seq()[m]],
            decreases self.clocks.key_seq().len() - i,
        {
            out.push((AgentId(self.clocks.key_at(i).clone()), *self.clocks.val_at(i)));
            i = i + 1;
        }
        out
    }
}

impl Clone for VectorClock {
    fn clone(&self) -> (r: Self)
        ensures
            r@ == self@,
    {
        proof {
            use_type_invariant(self);
            self.clocks.lemma_wf();
        }
        let c = self.clocks.duplicate();
        proof {
            c.lemma_wf();
            assert(c.map() =~= self.clocks.map());
        }
        VectorClock { clocks: c }
    }
}

/// Merging clocks is commutative.
pub proof fn lemma_merge_clocks_commutative(a: Map<Seq<char>, u64>, b: Map<Seq<char>, u64>)
    ensures
        merge_clocks(a, b) == merge_clocks(b, a),
{
    assert(merge_clocks(a, b) =~= merge_clocks(b, a));
}

/// Merging clocks is associative.
pub proof fn lemma_merge_clocks_associative(a: Map<Seq<char>, u64>, b: Map<Seq<char>, u64>, c: Map<Seq<char>, u64>)
    ensures
        merge_clocks(merge_clocks(a, b), c) == merge_clocks(a, merge_clocks(b, c)),
{
    assert(merge_clocks(merge_clocks(a, b), c) =~= merge_clocks(a, merge_clocks(b, c)));
}

/// Merging a clock with itself changes nothing.
pub proof fn lemma_merge_clocks_idempotent(a: Map<Seq<char>, u64>)
    ensures
        merge_clocks(a, a) == a,
{
    assert(merge_clocks(a, a) =~= a);
}

/// After a merge, the clock has seen at least what both clocks had seen.
pub proof fn lemma_merge_clocks_dominates(a: Map<Seq<char>, u64>, b: Map<Seq<char>, u64>, k: Seq<char>)
    ensures
        version_of(merge_clocks(a, b), k) >= version_of(a, k),
        version_of(merge_clocks(a, b), k) >= version_of(b, k),
{
}

/// Observing never moves a clock backwards, and the observed version is covered.
pub proof fn lemma_observe_monotone(m: Map<Seq<char>, u64>, agent: Seq<char>, version: u64, k: Seq<char>)
    ensures
        version_of(observe_clock(m, agent, version), k) >= version_of(m, k),
        version_of(observe_clock(m, agent, version), agent) >= version,
{
}


/// The entries of a gossip store, keyed by id, as views.
pub open spec fn view_map(m: StrMap<ManifestEntry>) -> Map<Seq<char>, EntryView> {
    Map::new(|k: Seq<char>| m.map().dom().contains(k), |k: Seq<char>| m.map()[k]@)
}

/// Every entry is stored under its own id.
pub open spec fn keyed_by_id(m: StrMap<ManifestEntry>) -> bool {
    forall|k: Seq<char>| #[trigger] m.map().dom().contains(k) ==> m.map()[k].id@ == k
}

/// The views of a sequence of entries.
pub open spec fn entry_views(s: Seq<ManifestEntry>) -> Seq<EntryView> {
    s.map_values(|e: ManifestEntry| e@)
}

/// Whether a peer whose clock is `theirs` lacks `e`, judged by our clock `ours`.
pub open spec fn wanted(ours: Map<Seq<char>, u64>, theirs: Map<Seq<char>, u64>, e: EntryView) -> bool {
    &&& ours.dom().contains(e.agent)
    &&& ours[e.agent] > version_of(theirs, e.agent)
    &&& e.version > version_of(theirs, e.agent)
}

/// The entries, in store order, that a peer with clock `theirs` lacks.
pub open spec fn gossip_selection(entries: Seq<EntryView>, ours: Map<Seq<char>, u64>, theirs: Map<Seq<char>, u64>) -> Seq<EntryView> {
    entries.filter(|e: EntryView| wanted(ours, theirs, e))
}

/// What an incoming entry becomes once absorbed into `m`: merged with the
/// entry of the same id, or taken as it is.
pub open spec fn absorb_one(m: Map<Seq<char>, EntryView>, e: EntryView) -> EntryView {
    if m.dom().contains(e.id) {
        match merge_view(m[e.id], e) {
            Some(r) => r,
            None => m[e.id],
        }
    } else {
        e
    }
}

/// The store after absorbing each incoming entry in turn.
pub open spec fn absorb(m: Map<Seq<char>, EntryView>, s: Seq<EntryView>) -> Map<Seq<char>, EntryView>
    decreases s.len(),
{
    if s.len() == 0 {
        m
    } else {
        let m0 = absorb(m, s.drop_last());
        m0.insert(s.last().id, absorb_one(m0, s.last()))
    }
}

/// The entries produced while absorbing `s` into `m`, one per incoming entry.
pub open spec fn absorbed(m: Map<Seq<char>, EntryView>, s: Seq<EntryView>) -> Seq<EntryView>
    decreases s.len(),
{
    if s.len() == 0 {
        Seq::empty()
    } else {
        absorbed(m, s.drop_last()).push(absorb_one(absorb(m, s.drop_last()), s.last()))
    }
}

/// A request for the entries the sender has not yet seen.
pub struct GossipRequest {
    pub from: AgentId,
    pub clock: VectorClock,
}

/// The answer to a request: the entries the requester lacks and our clock.
pub struct GossipResponse {
    pub from: AgentId,
    pub entries: Vec<ManifestEntry>,
    pub clock: VectorClock,
}

/// The gossip state of one agent.
pub struct GossipEngine {
    agent: AgentId,
    clock: VectorClock,
    local_entries: StrMap<ManifestEntry>,
}

impl GossipEngine {
    #[verifier::type_invariant]
    spec fn inv(self) -> bool {
        &&& self.local_entries.wf()
        &&& keyed_by_id(self.local_entries)
    }

    /// The owning agent.
    pub closed spec fn agent_view(self) -> Seq<char> {
        self.agent@
    }

    /// The vector clock.
    pub closed spec fn clock_view(self) -> Map<Seq<char>, u64> {
        self.clock@
    }

    /// The known entries, keyed by id.
    pub closed spec fn entry_map(self) -> Map<Seq<char>, EntryView> {
        view_map(self.local_entries)
    }

    /// The known entries in the order they were first stored.
    pub closed spec fn entry_order(self) -> Seq<EntryView> {
        entry_views(self.local_entries.val_seq())
    }

    /// An engine that knows nothing yet.
    pub fn new(agent: AgentId) -> (g: Self)
        ensures
            g.agent_view() == agent@,
            g.clock_view() == Map::<Seq<char>, u64>::empty(),
            g.entry_map() == Map::<Seq<char>, EntryView>::empty(),
            g.entry_order() == Seq::<EntryView>::empty(),
    {
        let g = GossipEngine { agent, clock: VectorClock::new(), local_entries: StrMap::new() };
        assert(view_map(g.local_entries) =~= Map::<Seq<char>, EntryView>::empty());
        assert(entry_views(g.local_entries.val_seq()) =~= Seq::<EntryView>::empty());
        g
    }

    /// Record an entry written locally: its author's version is observed and
    /// the entry is stored under its id.
    pub fn ingest_local(&mut self, entry: ManifestEntry)
        ensures
            final(self).agent_view() == old(self).agent_view(),
            final(self).clock_view() == observe_clock(old(self).clock_view(), entry.agent@, entry.version),
            final(self).entry_map() == old(self).entry_map().insert(entry.id@, entry@),
    {
        proof { use_type_invariant(&*self); }
        let mut c = VectorClock::new();
        std::mem::swap(&mut c, &mut self.clock);
        c.observe(&entry.agent, entry.version);
        self.clock = c;
        let mut m = StrMap::new();
        std::mem::swap(&mut m, &mut self.local_entries);
        let ghost before = m;
        let key = entry.id.0.clone();
        m.insert(key, entry);
        proof {
            assert(view_map(m) =~= view_map(before).insert(entry.id@, entry@));
        }
        self.local_entries = m;
    }

    /// A request carrying our agent id and clock.
    pub fn build_request(&self) -> (r: GossipRequest)
        ensures
            r.from@ == self.agent_view(),
            r.clock@ == self.clock_view(),
    {
        GossipRequest { from: self.agent.clone(), clock: self.clock.clone() }
    }

    /// Answer a request with every stored entry the requester lacks: one whose
    /// author we have seen beyond the requester's clock and whose version is
    /// newer than what the requester has seen from that author.
    pub fn handle_request(&self, request: &GossipRequest) -> (r: GossipResponse)
        ensures
            r.from@ == self.agent_view(),
            r.clock@ == self.clock_view(),
            entry_views(r.entries@) == gossip_selection(self.entry_order(), self.clock_view(), request.clock@),
    {
        proof {
            use_type_invariant(self);
            self.local_entries.lemma_wf();
        }
        let missing = self.clock.missing_for(&request.clock);
        let ghost ours = self.clock@;
        let ghost theirs = request.clock@;
        let ghost order = entry_views(self.local_entries.val_seq());
        let mut entries: Vec<ManifestEntry> = Vec::new();
        let mut i: usize = 0;
        while i < self.local_entries.len()
            invariant
                self.local_entries.wf(),
                order == entry_views(self.local_entries.val_seq()),
                order.len() == self.local_entries.key_seq().len(),
                i <= order.len(),
                ours == self.clock@,
                theirs == request.clock@,
                forall|m: int| 0 <= m < missing@.len() ==> {
                    let (a, w) = #[trigger] missing@[m];
                    &&& ours.dom().contains(a@)
                    &&& ours[a@] > version_of(theirs, a@)
                    &&& w == version_of(theirs, a@)
                },
                forall|a: Seq<char>| ours.dom().contains(a) && ours[a] > version_of(theirs, a) ==> exists|m: int| 0 <= m < missing@.len() && (#[trigger] missing@[m]).0@ == a,
                entry_views(entries@) == order.take(i as int).filter(|e: EntryView| wanted(ours, theirs, e)),
            decreases order.len() - i,
        {
            let e = self.local_entries.val_at(i);
            let mut hit = false;
            let mut j: usize = 0;
            while j < missing.len()
                invariant
                    j <= missing@.len(),
                    hit <==> exists|m: int| 0 <= m < j && (#[trigger] missing@[m]).0@ == e.agent@ && e.version > missing@[m].1,
                decreases missing@.len() - j,
            {
                if crate::text::str_eq(e.agent.0.as_str(), missing[j].0.0.as_str()) && e.version > missing[j].1 {
                    hit = true;
                }
                j = j + 1;
            }
            proof {
                assert(order[i as int] == e@);
                if wanted(ours, theirs, e@) {
                    let m = choose|m: int| 0 <= m < missing@.len() && (#[trigger] missing@[m]).0@ == e.agent@;
                    assert(missing@[m].0@ == e.agent@ && e.version > missing@[m].1);
                }
                let p = |x: EntryView| wanted(ours, theirs, x);
                assert(order.take(i + 1).drop_last() =~= order.take(i as int));
                reveal_with_fuel(Seq::filter, 1);
            }
            let ghost before = entries@;
            if hit {
                entries.push(e.clone());
                assert(entry_views(entries@) =~= entry_views(before).push(e@));
            } else {
                assert(entry_views(entries@) =~= entry_views(before));
            }
            i = i + 1;
        }
        assert(order.take(order.len() as int) =~= order);
        GossipResponse { from: self.agent.clone(), entries, clock: self.clock.clone() }
    }

    /// Absorb a response: each incoming entry is merged with the stored entry
    /// of the same id, or stored as new; the merged entries are returned in
    /// order, and our clock takes the element-wise maximum with the sender's.
    pub fn process_response(&mut self, response: GossipResponse) -> (r: Vec<ManifestEntry>)
        ensures
            final(self).agent_view() == old(self).agent_view(),
            final(self).clock_view() == merge_clocks(old(self).clock_view(), response.clock@),
            final(self).entry_map() == absorb(old(self).entry_map(), entry_views(response.entries@)),
            entry_views(r@) == absorbed(old(self).entry_map(), entry_views(response.entries@)),
    {
        proof { use_type_invariant(&*self); }
        let mut m = StrMap::new();
        std::mem::swap(&mut m, &mut self.local_entries);
        let ghost start = view_map(m);
        let ghost ins = entry_views(response.entries@);
        let mut merged: Vec<ManifestEntry> = Vec::new();
        let mut i: usize = 0;
        while i < response.entries.len()
            invariant
                m.wf(),
                keyed_by_id(m),
                ins == entry_views(response.entries@),
                i <= ins.len(),
                view_map(m) == absorb(start, ins.take(i as int)),
                entry_views(merged@) == absorbed(start, ins.take(i as int)),
            decreases ins.len() - i,
        {
            let incoming = &response.entries[i];
            let ghost pre = ins.take(i as int);
            proof {
                assert(ins.take(i + 1).drop_last() =~= pre);
                assert(ins.take(i + 1).last() == incoming@);
                m.lemma_wf();
            }
            let ghost before = merged@;
            let ghost mv = view_map(m);
            let key = incoming.id.0.clone();
            let found = match m.get(key.as_str()) {
                Some(existing) => Some(merge(existing, incoming)),
                None => None,
            };
            match found {
                Some(Some(result)) => {
                    let out = result.clone();
                    m.insert(key, result);
                    merged.push(out);
                    proof {
                        assert(view_map(m) =~= mv.insert(incoming@.id, absorb_one(mv, incoming@)));
                        assert(entry_views(merged@) =~= entry_views(before).push(absorb_one(mv, incoming@)));
                    }
                },
                Some(None) => {
                    proof {
                        assert(mv.dom().contains(incoming@.id));
                        assert(mv[incoming@.id].id == incoming@.id);
                        assert(false);
                    }
                },
                None => {
                    let out = incoming.clone();
                    m.insert(key, incoming.clone());
                    merged.push(out);
                    proof {
                        assert(view_map(m) =~= mv.insert(incoming@.id, absorb_one(mv, incoming@)));
                        assert(entry_views(merged@) =~= entry_views(before).push(absorb_one(mv, incoming@)));
                    }
                },
            }
            i = i + 1;
        }
        assert(ins.take(ins.len() as int) =~= ins);
        self.local_entries = m;
        let mut c = VectorClock::new();
        std::mem::swap(&mut c, &mut self.clock);
        c.merge(&response.clock);
        self.clock = c;
        merged
    }

    /// Gossip is allowed in every phase of the tide (low tide, the
    /// maintenance phase, is merely the preferred one).
    pub fn should_gossip(phase: TidePhase) -> (r: bool)
        ensures
            r,
    {
        match phase {
            TidePhase::Low => true,
            TidePhase::Flood => true,
            TidePhase::Ebb => true,
            TidePhase::High => true,
        }
    }

    /// Our vector clock.
    pub fn clock(&self) -> (c: &VectorClock)
        ensures
            c@ == self.clock_view(),
    {
        &self.clock
    }

    /// The stored entries, keyed by id.
    pub fn entries(&self) -> (m: &StrMap<ManifestEntry>)
        ensures
            m.wf(),
            view_map(*m) == self.entry_map(),
            entry_views(m.val_seq()) == self.entry_order(),
    {
        proof { use_type_invariant(self); }
        &self.local_entries
    }
}

} // verus!
