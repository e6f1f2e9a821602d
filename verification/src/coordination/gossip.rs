//! Pull-based gossip of memory entries between agents.
//!
//! Each agent keeps a vector clock of the latest version it has seen from
//! every agent. A peer answers a request with the entries of every agent
//! the requester is behind on; an incoming entry replaces the stored one of
//! the same id when it was accessed more often, or as often but later
//! (last writer wins).

use vstd::prelude::*;
use crate::ids::{AgentId, EntryId};
use crate::memory::entry::{MemoryEntry, MemoryEntryView, copy_entry};
use crate::strmap::StrMap;
use crate::text::seq_lt;
use crate::manifest::gossip::{merge_clocks, observe_clock, version_of};

pub use crate::manifest::gossip::VectorClock;

verus! {

/// The stored entries, keyed by id, as views.
pub open spec fn entry_view_map<S>(m: StrMap<MemoryEntry<S>>) -> Map<Seq<char>, MemoryEntryView<S>> {
    Map::new(|k: Seq<char>| m.map().dom().contains(k), |k: Seq<char>| m.map()[k]@)
}

/// Every entry is stored under its own id.
pub open spec fn stored_by_id<S>(m: StrMap<MemoryEntry<S>>) -> bool {
    forall|k: Seq<char>| #[trigger] m.map().dom().contains(k) ==> m.map()[k].id@ == k
}

/// The views of a sequence of entries.
pub open spec fn memory_views<S>(s: Seq<MemoryEntry<S>>) -> Seq<MemoryEntryView<S>> {
    s.map_values(|e: MemoryEntry<S>| e@)
}

/// Whether a peer whose clock is `theirs` is behind ours on `agent`.
pub open spec fn behind_on(ours: Map<Seq<char>, u64>, theirs: Map<Seq<char>, u64>, agent: Seq<char>) -> bool {
    ours.dom().contains(agent) && ours[agent] > version_of(theirs, agent)
}

/// Whether an incoming entry wins over the stored one: accessed more often,
/// or as often and later.
pub open spec fn wins<S>(incoming: MemoryEntryView<S>, existing: MemoryEntryView<S>) -> bool {
    incoming.access_count > existing.access_count
        || (incoming.access_count == existing.access_count && seq_lt(existing.last_accessed, incoming.last_accessed))
}

/// Whether an incoming entry is taken into `m`.
pub open spec fn taken<S>(m: Map<Seq<char>, MemoryEntryView<S>>, e: MemoryEntryView<S>) -> bool {
    !m.dom().contains(e.id) || wins(e, m[e.id])
}

/// The store after considering each incoming entry in turn.
pub open spec fn absorb_entries<S>(m: Map<Seq<char>, MemoryEntryView<S>>, s: Seq<MemoryEntryView<S>>) -> Map<Seq<char>, MemoryEntryView<S>>
    decreases s.len(),
{
    if s.len() == 0 {
        m
    } else {
        let m0 = absorb_entries(m, s.drop_last());
        if taken(m0, s.last()) { m0.insert(s.last().id, s.last()) } else { m0 }
    }
}

/// The ids of the incoming entries that were taken, in order.
pub open spec fn taken_ids<S>(m: Map<Seq<char>, MemoryEntryView<S>>, s: Seq<MemoryEntryView<S>>) -> Seq<Seq<char>>
    decreases s.len(),
{
    if s.len() == 0 {
        Seq::empty()
    } else {
        let ids = taken_ids(m, s.drop_last());
        if taken(absorb_entries(m, s.drop_last()), s.last()) { ids.push(s.last().id) } else { ids }
    }
}

/// A request for the entries the sender has not yet seen.
pub struct GossipRequest {
    pub from: AgentId,
    pub clock: VectorClock,
}

/// The answer to a request: the entries the requester is missing and our clock.
pub struct GossipResponse<S> {
    pub from: AgentId,
    pub entries: Vec<MemoryEntry<S>>,
    pub clock: VectorClock,
}

/// The gossip state of one agent.
pub struct GossipEngine<S> {
    agent: AgentId,
    clock: VectorClock,
    local_entries: StrMap<MemoryEntry<S>>,
    local_version: u64,
}

impl<S> GossipEngine<S> {
    #[verifier::type_invariant]
    spec fn inv(self) -> bool {
        &&& self.local_entries.wf()
        &&& stored_by_id(self.local_entries)
    }

    /// The owning agent.
    pub closed spec fn agent_view(self) -> Seq<char> {
        self.agent@
    }

    /// The vector clock.
    pub closed spec fn clock_view(self) -> Map<Seq<char>, u64> {
        self.clock@
    }

    /// The stored entries, keyed by id.
    pub closed spec fn entry_map(self) -> Map<Seq<char>, MemoryEntryView<S>> {
        entry_view_map(self.local_entries)
    }

    /// The stored entries in the order their ids were first stored.
    pub closed spec fn entry_order(self) -> Seq<MemoryEntryView<S>> {
        memory_views(self.local_entries.val_seq())
    }

    /// The number of entries this agent has ingested.
    pub closed spec fn version(self) -> u64 {
        self.local_version
    }

    /// An engine that knows nothing yet.
    pub fn new(agent: AgentId) -> (g: Self)
        ensures
            g.agent_view() == agent@,
            g.clock_view() == Map::<Seq<char>, u64>::empty(),
            g.entry_map() == Map::<Seq<char>, MemoryEntryView<S>>::empty(),
            g.entry_order() == Seq::<MemoryEntryView<S>>::empty(),
            g.version() == 0,
    {
        let g = GossipEngine { agent, clock: VectorClock::new(), local_entries: StrMap::new(), local_version: 0 };
        assert(entry_view_map(g.local_entries) =~= Map::<Seq<char>, MemoryEntryView<S>>::empty());
        assert(memory_views(g.local_entries.val_seq()) =~= Seq::<MemoryEntryView<S>>::empty());
        g
    }

    /// Record an entry written locally: our version advances, our clock
    /// observes it, and the entry is stored under its id.
    pub fn ingest_local(&mut self, entry: MemoryEntry<S>)
        requires
            old(self).version() < u64::MAX,
        ensures
            final(self).agent_view() == old(self).agent_view(),
            final(self).version() == old(self).version() + 1,
            final(self).clock_view() == observe_clock(old(self).clock_view(), old(self).agent_view(), (old(self).version() + 1) as u64),
            final(self).entry_map() == old(self).entry_map().insert(entry.id@, entry@),
    {
        proof { use_type_invariant(&*self); }
        self.local_version = self.local_version + 1;
        let mut c = VectorClock::new();
        std::mem::swap(&mut c, &mut self.clock);
        c.observe(&self.agent, self.local_version);
        self.clock = c;
        let mut m = StrMap::new();
        std::mem::swap(&mut m, &mut self.local_entries);
        let ghost before = m;
        let ghost ev = entry@;
        let key = entry.id.0.clone();
        m.insert(key, entry);
        proof {
            assert(entry_view_map(m) =~= entry_view_map(before).insert(ev.id, ev));
        }
        self.local_entries = m;
    }

    /// A request carrying our agent id and clock.
    pub fn build_request(&self) -> (r: GossipRequest)
        ensures
            r.from@ == self.agent_view(),
            r.clock@ == self.clock_view(),
    {
        GossipRequest { from: self.agent.clone(), clock: self.clock.clone() }
    }

    /// Answer a request with a copy of every stored entry whose author the
    /// requester is behind on, in store order, and our clock.
    pub fn handle_request(&self, request: &GossipRequest) -> (r: GossipResponse<S>)
        where S: Copy
        ensures
            r.from@ == self.agent_view(),
            r.clock@ == self.clock_view(),
            memory_views(r.entries@) == self.entry_order().filter(|e: MemoryEntryView<S>| behind_on(self.clock_view(), request.clock@, e.agent)),
    {
        proof {
            use_type_invariant(self);
            self.local_entries.lemma_wf();
        }
        let missing = self.clock.missing_for(&request.clock);
        let ghost ours = self.clock@;
        let ghost theirs = request.clock@;
        let ghost order = memory_views(self.local_entries.val_seq());
        let mut entries: Vec<MemoryEntry<S>> = Vec::new();
        let mut i: usize = 0;
        while i < self.local_entries.len()
            invariant
                self.local_entries.wf(),
                order == memory_views(self.local_entries.val_seq()),
                order.len() == self.local_entries.key_seq().len(),
                i <= order.len(),
                ours == self.clock@,
                theirs == request.clock@,
                forall|m: int| 0 <= m < missing@.len() ==> behind_on(ours, theirs, (#[trigger] missing@[m]).0@),
                forall|a: Seq<char>| behind_on(ours, theirs, a) ==> exists|m: int| 0 <= m < missing@.len() && (#[trigger] missing@[m]).0@ == a,
                memory_views(entries@) == order.take(i as int).filter(|e: MemoryEntryView<S>| behind_on(ours, theirs, e.agent)),
            decreases order.len() - i,
        {
            let e = self.local_entries.val_at(i);
            let mut hit = false;
            let mut j: usize = 0;
            while j < missing.len()
                invariant
                    j <= missing@.len(),
                    hit <==> exists|m: int| 0 <= m < j && (#[trigger] missing@[m]).0@ == e.agent@,
                decreases missing@.len() - j,
            {
                if crate::text::str_eq(e.agent.0.as_str(), missing[j].0.0.as_str()) {
                    hit = true;
                }
                j = j + 1;
            }
            proof {
                assert(order[i as int] == e@);
                if behind_on(ours, theirs, e.agent@) {
                    let m = choose|m: int| 0 <= m < missing@.len() && (#[trigger] missing@[m]).0@ == e.agent@;
                }
                if hit {
                    let m = choose|m: int| 0 <= m < missing@.len() && (#[trigger] missing@[m]).0@ == e.agent@;
                    assert(behind_on(ours, theirs, missing@[m].0@));
                }
                assert(order.take(i + 1).drop_last() =~= order.take(i as int));
                reveal_with_fuel(Seq::filter, 1);
            }
            let ghost before = entries@;
            if hit {
                entries.push(copy_entry(e));
                assert(memory_views(entries@) =~= memory_views(before).push(e@));
            } else {
                assert(memory_views(entries@) =~= memory_views(before));
            }
            i = i + 1;
        }
        assert(order.take(order.len() as int) =~= order);
        GossipResponse { from: self.agent.clone(), entries, clock: self.clock.clone() }
    }

    /// Absorb a response: each incoming entry replaces the stored entry of
    /// the same id when it wins, or is stored when the id is new; the ids
    /// taken are returned in order, and our clock takes the element-wise
    /// maximum with the sender's.
    pub fn process_response(&mut self, response: GossipResponse<S>) -> (r: Vec<EntryId>)
        ensures
            final(self).agent_view() == old(self).agent_view(),
            final(self).version() == old(self).version(),
            final(self).clock_view() == merge_clocks(old(self).clock_view(), response.clock@),
            final(self).entry_map() == absorb_entries(old(self).entry_map(), memory_views(response.entries@)),
            r@.map_values(|id: EntryId| id@) == taken_ids(old(self).entry_map(), memory_views(response.entries@)),
    {
        proof { use_type_invariant(&*self); }
        let mut m = StrMap::new();
        std::mem::swap(&mut m, &mut self.local_entries);
        let ghost start = entry_view_map(m);
        let GossipResponse { from: _, entries: incoming, clock: their_clock } = response;
        let ghost ins = memory_views(incoming@);
        let mut updated: Vec<EntryId> = Vec::new();
        let mut rest = incoming;
        let ghost all = rest@;
        let mut i: usize = 0;
        let n = rest.len();
        assert(ins.take(0) =~= Seq::<MemoryEntryView<S>>::empty());
        assert(updated@.map_values(|id: EntryId| id@) =~= Seq::<Seq<char>>::empty());
        assert(rest@ =~= all.skip(0));
        while i < n
            invariant
                m.wf(),
                stored_by_id(m),
                n == ins.len(),
                ins == memory_views(all),
                i <= n,
                rest@ == all.skip(i as int),
                entry_view_map(m) == absorb_entries(start, ins.take(i as int)),
                updated@.map_values(|id: EntryId| id@) == taken_ids(start, ins.take(i as int)),
            decreases n - i,
        {
            let e = rest.remove(0);
            assert(rest@ =~= all.skip(i + 1));
            let ghost pre = ins.take(i as int);
            let ghost mv = entry_view_map(m);
            proof {
                assert(e == all[i as int]);
                assert(e@ == ins[i as int]);
                assert(ins.take(i + 1).drop_last() =~= pre);
                assert(ins.take(i + 1).last() == e@);
                m.lemma_wf();
            }
            let take = match m.get(e.id.0.as_str()) {
                Some(existing) => {
                    e.access_count > existing.access_count
                        || (e.access_count == existing.access_count
                            && crate::text::str_lt(existing.last_accessed.as_str(), e.last_accessed.as_str()))
                },
                None => true,
            };
            assert(take == taken(mv, e@));
            if take {
                let ghost ids_before = updated@.map_values(|id: EntryId| id@);
                let ghost ev = e@;
                updated.push(e.id.clone());
                assert(updated@.map_values(|id: EntryId| id@) =~= ids_before.push(ev.id));
                let key = e.id.0.clone();
                m.insert(key, e);
                proof {
                    assert(entry_view_map(m) =~= mv.insert(ev.id, ev));
                }
            }
            i = i + 1;
        }
        assert(ins.take(n as int) =~= ins);
        self.local_entries = m;
        let mut c = VectorClock::new();
        std::mem::swap(&mut c, &mut self.clock);
        c.merge(&their_clock);
        self.clock = c;
        updated
    }

    /// Our vector clock.
    pub fn clock(&self) -> (c: &VectorClock)
        ensures
            c@ == self.clock_view(),
    {
        &self.clock
    }

    /// The stored entry with the given id.
    pub fn get(&self, id: &EntryId) -> (r: Option<&MemoryEntry<S>>)
        ensures
            match r {
                Some(e) => self.entry_map().dom().contains(id@) && e@ == self.entry_map()[id@],
                None => !self.entry_map().dom().contains(id@),
            },
    {
        proof { use_type_invariant(self); }
        self.local_entries.get(id.0.as_str())
    }

    /// The stored entries, keyed by id.
    pub fn entries(&self) -> (m: &StrMap<MemoryEntry<S>>)
        ensures
            m.wf(),
            entry_view_map(*m) == self.entry_map(),
            memory_views(m.val_seq()) == self.entry_order(),
    {
        proof { use_type_invariant(self); }
        &self.local_entries
    }

    /// The owning agent.
    pub fn agent(&self) -> (a: &AgentId)
        ensures
            a@ == self.agent_view(),
    {
        &self.agent
    }
}

} // verus!
