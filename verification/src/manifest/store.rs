//! The manifest store: one agent's local collection of memory entries.
//!
//! Entries are synchronised with other agents through the gossip engine; no
//! agent modifies another's entries directly, changes arrive by CRDT merge.

use vstd::prelude::*;
use crate::ids::{AgentId, EntryId};
use crate::strmap::StrMap;
use crate::text::{lemma_filter_subset, seq_lt, str_lt};
use super::entry::{EntryView, merge};
use super::gossip::{
    GossipEngine, GossipResponse, absorb, absorb_one, absorbed, entry_views, keyed_by_id, view_map,
};
use super::types::{ManifestEntry, TidalConfig};

verus! {

/// Whether an entry has expired at `now` (timestamps compare as text).
pub open spec fn expired_at(e: EntryView, now: Seq<char>) -> bool {
    match e.expires {
        Some(x) => seq_lt(x, now),
        None => false,
    }
}

/// The store after writing each entry of `s` under its id, in order.
pub open spec fn insert_all(m: Map<Seq<char>, EntryView>, s: Seq<EntryView>) -> Map<Seq<char>, EntryView>
    decreases s.len(),
{
    if s.len() == 0 {
        m
    } else {
        insert_all(m, s.drop_last()).insert(s.last().id, s.last())
    }
}

impl ManifestEntry {
    /// Whether the entry's expiry time lies before `now`.
    pub fn is_expired(&self, now: &str) -> (r: bool)
        ensures
            r == expired_at(self@, now@),
    {
        match &self.expires {
            Some(x) => str_lt(x.as_str(), now),
            None => false,
        }
    }
}

/// An agent's local manifest.
pub struct ManifestStore {
    agent: AgentId,
    entries: StrMap<ManifestEntry>,
    gossip: GossipEngine,
    config: TidalConfig,
}

impl ManifestStore {
    /// Entries are unique and stored under their ids.
    pub closed spec fn wf(self) -> bool {
        &&& self.entries.wf()
        &&& keyed_by_id(self.entries)
    }

    /// The entries, keyed by id.
    pub closed spec fn entry_map(self) -> Map<Seq<char>, EntryView> {
        view_map(self.entries)
    }

    /// The ids in the order entries were first stored.
    pub closed spec fn id_order(self) -> Seq<Seq<char>> {
        self.entries.key_seq()
    }

    /// The owning agent.
    pub closed spec fn agent_view(self) -> Seq<char> {
        self.agent@
    }

    /// The gossip engine.
    pub closed spec fn engine(self) -> GossipEngine {
        self.gossip
    }

    /// The configuration.
    pub closed spec fn config_view(self) -> TidalConfig {
        self.config
    }

    /// An empty store for `agent`.
    pub fn new(agent: AgentId, config: TidalConfig) -> (s: Self)
        ensures
            s.wf(),
            s.agent_view() == agent@,
            s.config_view() == config,
            s.entry_map() == Map::<Seq<char>, EntryView>::empty(),
            s.engine().agent_view() == agent@,
            s.engine().entry_map() == Map::<Seq<char>, EntryView>::empty(),
            s.engine().clock_view() == Map::<Seq<char>, u64>::empty(),
    {
        let gossip = GossipEngine::new(agent.clone());
        let s = ManifestStore { agent, entries: StrMap::new(), gossip, config };
        assert(view_map(s.entries) =~= Map::<Seq<char>, EntryView>::empty());
        s
    }

    /// Store an entry under its id (replacing any entry with that id), hand
    /// it to the gossip engine, and return the id.
    pub fn store(&mut self, entry: ManifestEntry) -> (id: EntryId)
        requires
            old(self).wf(),
        ensures
            final(self).wf(),
            id@ == entry.id@,
            final(self).entry_map() == old(self).entry_map().insert(entry.id@, entry@),
            final(self).agent_view() == old(self).agent_view(),
            final(self).engine().agent_view() == old(self).engine().agent_view(),
            final(self).engine().entry_map() == old(self).engine().entry_map().insert(entry.id@, entry@),
            final(self).engine().clock_view() == super::gossip::observe_clock(old(self).engine().clock_view(), entry.agent@, entry.version),
    {
        let id = entry.id.clone();
        self.gossip.ingest_local(entry.clone());
        let ghost before = view_map(self.entries);
        self.entries.insert(id.0.clone(), entry);
        proof {
            self.entries.lemma_wf();
            assert(view_map(self.entries) =~= before.insert(id@, entry@));
        }
        id
    }

    /// The entry with the given id.
    pub fn get(&self, id: &EntryId) -> (r: Option<&ManifestEntry>)
        requires
            self.wf(),
        ensures
            match r {
                Some(e) => self.entry_map().dom().contains(id@) && e@ == self.entry_map()[id@],
                None => !self.entry_map().dom().contains(id@),
            },
    {
        self.entries.get(id.0.as_str())
    }

    /// The entry with the given id, to change in place. The store stays well
    /// formed when the entry keeps its id.
    pub fn get_mut(&mut self, id: &EntryId) -> (r: Option<&mut ManifestEntry>)
        requires
            old(self).wf(),
        ensures
            final(self).agent_view() == old(self).agent_view(),
            final(self).engine() == old(self).engine(),
            final(self).config_view() == old(self).config_view(),
            final(self).id_order() == old(self).id_order(),
            match r {
                Some(e) => {
                    &&& old(self).entry_map().dom().contains(id@)
                    &&& e@ == old(self).entry_map()[id@]
                    &&& final(self).entry_map() == old(self).entry_map().insert(id@, final(e)@)
                    &&& final(e)@.id == id@ ==> final(self).wf()
                },
                None => !old(self).entry_map().dom().contains(id@) && final(self).entry_map() == old(self).entry_map()
                    && final(self).wf(),
            },
    {
        self.entries.get_mut(id.0.as_str())
    }

    /// Remove every entry that has expired at `now`; the removed ids come back
    /// in store order.
    pub fn expire(&mut self, now: &str) -> (removed: Vec<EntryId>)
        requires
            old(self).wf(),
        ensures
            final(self).wf(),
            final(self).entry_map() == old(self).entry_map().restrict(
                old(self).entry_map().dom().filter(|k: Seq<char>| !expired_at(old(self).entry_map()[k], now@)),
            ),
            removed@.map_values(|x: EntryId| x@) == old(self).id_order().filter(
                |k: Seq<char>| expired_at(old(self).entry_map()[k], now@),
            ),
            final(self).agent_view() == old(self).agent_view(),
            final(self).engine() == old(self).engine(),
    {
        proof { self.entries.lemma_wf(); }
        let mut entries = StrMap::new();
        std::mem::swap(&mut entries, &mut self.entries);
        let ghost m0 = view_map(entries);
        let ghost ks = entries.key_seq();
        let ghost pred = |k: Seq<char>| expired_at(m0[k], now@);
        let mut expired_ids: Vec<String> = Vec::new();
        let mut i: usize = 0;
        while i < entries.len()
            invariant
                entries.wf(),
                keyed_by_id(entries),
                m0 == view_map(entries),
                ks == entries.key_seq(),
                ks.len() == entries.val_seq().len(),
                forall|j: int| 0 <= j < ks.len() ==> #[trigger] entries.map()[ks[j]] == entries.val_seq()[j],
                forall|k: Seq<char>| #[trigger] entries.map().dom().contains(k) <==> ks.contains(k),
                i <= ks.len(),
                pred == (|k: Seq<char>| expired_at(m0[k], now@)),
                crate::text::views(expired_ids@) == ks.take(i as int).filter(pred),
            decreases ks.len() - i,
        {
            let e = entries.val_at(i);
            let ghost before = expired_ids@;
            proof {
                assert(ks.contains(ks[i as int]));
                assert(m0[ks[i as int]] == e@);
                assert(ks.take(i + 1).drop_last() =~= ks.take(i as int));
                reveal_with_fuel(Seq::filter, 1);
            }
            if e.is_expired(now) {
                expired_ids.push(entries.key_at(i).clone());
                assert(crate::text::views(expired_ids@) =~= crate::text::views(before).push(ks[i as int]));
            } else {
                assert(crate::text::views(expired_ids@) =~= crate::text::views(before));
            }
            i = i + 1;
        }
        assert(ks.take(ks.len() as int) =~= ks);
        let ghost doomed = ks.filter(pred);
        let mut removed: Vec<EntryId> = Vec::new();
        let mut j: usize = 0;
        proof {
            lemma_filter_subset(ks, pred);
            assert forall|x: int| 0 <= x < doomed.len() implies m0.dom().contains(#[trigger] doomed[x]) by {
                assert(doomed.contains(doomed[x]));
            }
        }
        while j < expired_ids.len()
            invariant
                entries.wf(),
                keyed_by_id(entries),
                doomed == crate::text::views(expired_ids@),
                j <= doomed.len(),
                doomed.no_duplicates(),
                forall|x: int| 0 <= x < doomed.len() ==> m0.dom().contains(#[trigger] doomed[x]),
                view_map(entries) == m0.remove_keys(doomed.take(j as int).to_set()),
                removed@.map_values(|x: EntryId| x@) == doomed.take(j as int),
            decreases doomed.len() - j,
        {
            let k = &expired_ids[j];
            let ghost pre = view_map(entries);
            proof {
                assert(k@ == doomed[j as int]);
                assert(doomed.contains(doomed[j as int]));
                assert(doomed.take(j + 1) =~= doomed.take(j as int).push(doomed[j as int]));
                doomed.take(j as int).lemma_push_to_set_commute(doomed[j as int]);
                assert(!doomed.take(j as int).contains(doomed[j as int]));
            }
            let gone = entries.remove(k.as_str());
            match gone {
                Some(entry) => {
                    removed.push(entry.id);
                },
                None => {
                    proof {
                        assert(!doomed.take(j as int).to_set().contains(doomed[j as int]));
                        assert(pre.dom().contains(doomed[j as int]));
                        assert(false);
                    }
                },
            }
            proof {
                assert(!doomed.take(j as int).to_set().contains(doomed[j as int]));
                assert(view_map(entries) =~= pre.remove(doomed[j as int]));
                assert(view_map(entries) =~= m0.remove_keys(doomed.take(j + 1).to_set()));
                assert(removed@.map_values(|x: EntryId| x@) =~= doomed.take(j + 1));
            }
            j = j + 1;
        }
        proof {
            assert(doomed.take(doomed.len() as int) =~= doomed);
            assert(m0.remove_keys(doomed.to_set()) =~= m0.restrict(m0.dom().filter(|k: Seq<char>| !expired_at(m0[k], now@))));
        }
        self.entries = entries;
        removed
    }

    /// Number of stored entries.
    pub fn len(&self) -> (n: usize)
        requires
            self.wf(),
        ensures
            n == self.entry_map().len(),
    {
        proof {
            self.entries.lemma_wf();
            self.entries.key_seq().unique_seq_to_set();
            assert(view_map(self.entries).dom() =~= self.entries.key_seq().to_set());
        }
        self.entries.len()
    }

    /// Whether the store holds no entry.
    pub fn is_empty(&self) -> (r: bool)
        requires
            self.wf(),
        ensures
            r == (self.entry_map().len() == 0),
    {
        self.len() == 0
    }

    /// The owning agent.
    pub fn agent(&self) -> (a: &AgentId)
        ensures
            a@ == self.agent_view(),
    {
        &self.agent
    }

    /// The gossip engine.
    pub fn gossip(&self) -> (g: &GossipEngine)
        ensures
            *g == self.engine(),
    {
        &self.gossip
    }

    /// The gossip engine, to change; the entries and the configuration stay.
    pub fn gossip_mut(&mut self) -> (g: &mut GossipEngine)
        ensures
            *g == old(self).engine(),
            final(self).engine() == *final(g),
            final(self).entry_map() == old(self).entry_map(),
            final(self).id_order() == old(self).id_order(),
            final(self).wf() == old(self).wf(),
            final(self).agent_view() == old(self).agent_view(),
            final(self).config_view() == old(self).config_view(),
    {
        &mut self.gossip
    }

    /// Absorb a gossip response into the engine, then write each merged entry
    /// into the store; the merged entries are returned.
    pub fn merge_gossip_response(&mut self, response: GossipResponse) -> (r: Vec<ManifestEntry>)
        requires
            old(self).wf(),
        ensures
            final(self).wf(),
            entry_views(r@) == absorbed(old(self).engine().entry_map(), entry_views(response.entries@)),
            final(self).engine().entry_map() == absorb(old(self).engine().entry_map(), entry_views(response.entries@)),
            final(self).engine().clock_view() == super::gossip::merge_clocks(old(self).engine().clock_view(), response.clock@),
            final(self).entry_map() == insert_all(old(self).entry_map(), entry_views(r@)),
            final(self).agent_view() == old(self).agent_view(),
    {
        let merged = self.gossip.process_response(response);
        let mut entries = StrMap::new();
        std::mem::swap(&mut entries, &mut self.entries);
        let ghost start = view_map(entries);
        let ghost ms = entry_views(merged@);
        let mut i: usize = 0;
        while i < merged.len()
            invariant
                entries.wf(),
                keyed_by_id(entries),
                ms == entry_views(merged@),
                i <= ms.len(),
                view_map(entries) == insert_all(start, ms.take(i as int)),
            decreases ms.len() - i,
        {
            let e = &merged[i];
            let ghost before = view_map(entries);
            entries.insert(e.id.0.clone(), e.clone());
            proof {
                entries.lemma_wf();
                assert(ms.take(i + 1).drop_last() =~= ms.take(i as int));
                assert(view_map(entries) =~= before.insert(e@.id, e@));
            }
            i = i + 1;
        }
        assert(ms.take(ms.len() as int) =~= ms);
        self.entries = entries;
        merged
    }

    /// Merge entries read from elsewhere into the store: each is merged with
    /// the stored entry of the same id or stored as new. Returns how many
    /// entries were merged, which is all of them.
    pub fn merge_entries(&mut self, incoming: Vec<ManifestEntry>) -> (count: usize)
        requires
            old(self).wf(),
        ensures
            final(self).wf(),
            count == incoming.len(),
            final(self).entry_map() == absorb(old(self).entry_map(), entry_views(incoming@)),
            final(self).agent_view() == old(self).agent_view(),
            final(self).engine() == old(self).engine(),
    {
        let mut entries = StrMap::new();
        std::mem::swap(&mut entries, &mut self.entries);
        let ghost start = view_map(entries);
        let ghost ins = entry_views(incoming@);
        let mut count: usize = 0;
        let mut i: usize = 0;
        while i < incoming.len()
            invariant
                entries.wf(),
                keyed_by_id(entries),
                ins == entry_views(incoming@),
                i <= ins.len(),
                count == i,
                view_map(entries) == absorb(start, ins.take(i as int)),
            decreases ins.len() - i,
        {
            let item = &incoming[i];
            proof {
                assert(ins.take(i + 1).drop_last() =~= ins.take(i as int));
                assert(ins.take(i + 1).last() == item@);
                entries.lemma_wf();
            }
            let ghost mv = view_map(entries);
            let key = item.id.0.clone();
            let found = match entries.get(key.as_str()) {
                Some(existing) => Some(merge(existing, item)),
                None => None,
            };
            match found {
                Some(Some(result)) => {
                    entries.insert(key, result);
                    count = count + 1;
                },
                Some(None) => {
                    proof {
                        assert(mv[item@.id].id == item@.id);
                        assert(false);
                    }
                },
                None => {
                    entries.insert(key, item.clone());
                    count = count + 1;
                },
            }
            proof {
                entries.lemma_wf();
                assert(view_map(entries) =~= mv.insert(item@.id, absorb_one(mv, item@)));
            }
            i = i + 1;
        }
        assert(ins.take(ins.len() as int) =~= ins);
        self.entries = entries;
        count
    }

    /// Every stored entry, in store order.
    pub fn entries(&self) -> (r: Vec<ManifestEntry>)
        requires
            self.wf(),
        ensures
            r@.len() == self.id_order().len(),
            forall|i: int| 0 <= i < r@.len() ==> (#[trigger] r@[i])@ == self.entry_map()[self.id_order()[i]],
    {
        proof { self.entries.lemma_wf(); }
        let mut out: Vec<ManifestEntry> = Vec::new();
        let mut i: usize = 0;
        while i < self.entries.len()
            invariant
                self.entries.wf(),
                i <= self.entries.key_seq().len(),
                self.entries.key_seq().len() == self.entries.val_seq().len(),
                forall|k: Seq<char>| #[trigger] self.entries.map().dom().contains(k) <==> self.entries.key_seq().contains(k),
                forall|j: int| 0 <= j < self.entries.key_seq().len() ==> #[trigger] self.entries.map()[self.entries.key_seq()[j]] == self.entries.val_seq()[j],
                out@.len() == i,
                forall|j: int| 0 <= j < i ==> (#[trigger] out@[j])@ == view_map(self.entries)[self.entries.key_seq()[j]],
            decreases self.entries.key_seq().len() - i,
        {
            let e = self.entries.val_at(i);
            proof { assert(self.entries.key_seq().contains(self.entries.key_seq()[i as int])); }
            out.push(e.clone());
            i = i + 1;
        }
        out
    }
}

} // verus!
