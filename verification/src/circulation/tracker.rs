//! The circulation log: every checkout and checkin of a memory item, and
//! the statistics derived from it.

use vstd::prelude::*;
use crate::ids::{AgentId, ItemId};
use crate::text::{contains_string, str_eq, views};
use crate::manifest::entry::add_missing;

verus! {

/// Whether an item went out or came back.
#[derive(Debug, Clone, Copy, PartialEq, Eq, Structural)]
pub enum CirculationEventType {
    Checkout,
    Checkin,
}

/// One checkout or checkin.
#[derive(Debug, PartialEq, Eq)]
pub struct CirculationEvent {
    pub item_id: ItemId,
    pub agent: AgentId,
    pub timestamp: String,
    pub context: String,
    pub event_type: CirculationEventType,
}

/// The circulation summary stored with an item.
#[derive(Debug, PartialEq, Eq)]
pub struct CirculationRecord {
    pub total_checkouts: u64,
    pub last_checkout: Option<String>,
    pub checkout_contexts: Vec<String>,
}

/// Statistics of one item.
#[derive(Debug, PartialEq, Eq)]
pub struct CirculationStats {
    pub checkouts: u64,
    pub checkins: u64,
    /// Distinct contexts, in the order first seen.
    pub contexts: Vec<String>,
    /// Distinct agents, in the order first seen.
    pub agents: Vec<AgentId>,
    /// The timestamp of the item's latest event.
    pub last_event: Option<String>,
}

/// The plain content of statistics.
pub struct StatsView {
    pub checkouts: nat,
    pub checkins: nat,
    pub contexts: Seq<Seq<char>>,
    pub agents: Seq<Seq<char>>,
    pub last_event: Option<Seq<char>>,
}

/// The view of statistics.
pub open spec fn stats_view(s: CirculationStats) -> StatsView {
    StatsView {
        checkouts: s.checkouts as nat,
        checkins: s.checkins as nat,
        contexts: views(s.contexts@),
        agents: s.agents@.map_values(|a: AgentId| a@),
        last_event: match s.last_event { Some(t) => Some(t@), None => None },
    }
}

/// `s` extended by `x` unless it already holds it.
pub open spec fn with(s: Seq<Seq<char>>, x: Seq<char>) -> Seq<Seq<char>> {
    if s.contains(x) { s } else { s.push(x) }
}

/// The statistics of `item` over a log.
pub open spec fn stats_of(log: Seq<CirculationEvent>, item: Seq<char>) -> StatsView
    decreases log.len(),
{
    if log.len() == 0 {
        StatsView { checkouts: 0, checkins: 0, contexts: Seq::empty(), agents: Seq::empty(), last_event: None }
    } else {
        let s = stats_of(log.drop_last(), item);
        let e = log.last();
        if e.item_id@ != item {
            s
        } else {
            StatsView {
                checkouts: s.checkouts + if e.event_type == CirculationEventType::Checkout { 1nat } else { 0nat },
                checkins: s.checkins + if e.event_type == CirculationEventType::Checkin { 1nat } else { 0nat },
                contexts: with(s.contexts, e.context@),
                agents: with(s.agents, e.agent@),
                last_event: Some(e.timestamp@),
            }
        }
    }
}

/// The items of a log, each once, in the order first seen.
pub open spec fn items_of(log: Seq<CirculationEvent>) -> Seq<Seq<char>> {
    add_missing(Seq::empty(), log.map_values(|e: CirculationEvent| e.item_id@))
}

/// Insert `x` after every entry whose count is at least its own.
pub open spec fn insert_desc(s: Seq<(Seq<char>, nat)>, x: (Seq<char>, nat)) -> Seq<(Seq<char>, nat)>
    decreases s.len(),
{
    if s.len() == 0 {
        seq![x]
    } else if s[0].1 < x.1 {
        seq![x] + s
    } else {
        seq![s[0]] + insert_desc(s.drop_first(), x)
    }
}

/// A stable sort by count, largest first.
pub open spec fn sort_desc(s: Seq<(Seq<char>, nat)>) -> Seq<(Seq<char>, nat)>
    decreases s.len(),
{
    if s.len() == 0 { s } else { insert_desc(sort_desc(s.drop_last()), s.last()) }
}

/// Each item of the log with its checkout count, in the order first seen.
pub open spec fn checkout_counts(log: Seq<CirculationEvent>) -> Seq<(Seq<char>, nat)> {
    items_of(log).map_values(|it: Seq<char>| (it, stats_of(log, it).checkouts))
}

/// The events of a borrowed sequence.
pub open spec fn deref_events(v: Seq<&CirculationEvent>) -> Seq<CirculationEvent> {
    v.map_values(|e: &CirculationEvent| *e)
}

/// The view of item/count pairs.
pub open spec fn count_views(v: Seq<(ItemId, u64)>) -> Seq<(Seq<char>, nat)> {
    v.map_values(|p: (ItemId, u64)| (p.0@, p.1 as nat))
}

proof fn lemma_stats_bound(log: Seq<CirculationEvent>, item: Seq<char>)
    ensures
        stats_of(log, item).checkouts + stats_of(log, item).checkins <= log.len(),
    decreases log.len(),
{
    if log.len() > 0 {
        lemma_stats_bound(log.drop_last(), item);
    }
}

proof fn lemma_insert_desc(s: Seq<(Seq<char>, nat)>, x: (Seq<char>, nat), k: int)
    requires
        0 <= k <= s.len(),
        forall|j: int| 0 <= j < k ==> !(s[j].1 < x.1),
        k < s.len() ==> s[k].1 < x.1,
    ensures
        insert_desc(s, x) == s.take(k) + seq![x] + s.skip(k),
    decreases s.len(),
{
    if s.len() == 0 {
        assert(s.take(k) + seq![x] + s.skip(k) =~= seq![x]);
    } else if k == 0 {
        assert(s.take(0) + seq![x] + s.skip(0) =~= seq![x] + s);
    } else {
        lemma_insert_desc(s.drop_first(), x, k - 1);
        assert(s.take(k) + seq![x] + s.skip(k) =~= seq![s[0]] + (s.drop_first().take(k - 1) + seq![x] + s.drop_first().skip(k - 1)));
    }
}

/// Every checkout and checkin, oldest first.
pub struct CirculationTracker {
    log: Vec<CirculationEvent>,
}

impl View for CirculationTracker {
    type V = Seq<CirculationEvent>;

    closed spec fn view(&self) -> Seq<CirculationEvent> {
        self.log@
    }
}

impl Default for CirculationTracker {
    fn default() -> (t: Self)
        ensures
            t@ == Seq::<CirculationEvent>::empty(),
    {
        CirculationTracker::new()
    }
}

impl CirculationTracker {
    /// An empty log.
    pub fn new() -> (t: Self)
        ensures
            t@ == Seq::<CirculationEvent>::empty(),
    {
        CirculationTracker { log: Vec::new() }
    }

    /// Log a checkout.
    pub fn record_checkout(&mut self, item_id: ItemId, agent: AgentId, context: String, timestamp: String)
        ensures
            final(self)@ == old(self)@.push(CirculationEvent {
                item_id,
                agent,
                timestamp,
                context,
                event_type: CirculationEventType::Checkout,
            }),
    {
        self.log.push(CirculationEvent { item_id, agent, timestamp, context, event_type: CirculationEventType::Checkout });
    }

    /// Log a checkin.
    pub fn record_checkin(&mut self, item_id: ItemId, agent: AgentId, context: String, timestamp: String)
        ensures
            final(self)@ == old(self)@.push(CirculationEvent {
                item_id,
                agent,
                timestamp,
                context,
                event_type: CirculationEventType::Checkin,
            }),
    {
        self.log.push(CirculationEvent { item_id, agent, timestamp, context, event_type: CirculationEventType::Checkin });
    }

    /// The statistics of an item (all zero and empty for an item never seen).
    pub fn stats_for(&self, item_id: &ItemId) -> (s: CirculationStats)
        ensures
            stats_view(s) == stats_of(self@, item_id@),
    {
        let ghost g = self.log@;
        let mut s = CirculationStats { checkouts: 0, checkins: 0, contexts: Vec::new(), agents: Vec::new(), last_event: None };
        assert(views(s.contexts@) =~= Seq::<Seq<char>>::empty());
        assert(s.agents@.map_values(|a: AgentId| a@) =~= Seq::<Seq<char>>::empty());
        assert(g.take(0).len() == 0);
        assert(stats_view(s) =~= stats_of(g.take(0), item_id@));
        let mut i: usize = 0;
        while i < self.log.len()
            invariant
                g == self.log@,
                i <= g.len(),
                stats_view(s) == stats_of(g.take(i as int), item_id@),
            decreases g.len() - i,
        {
            let e = &self.log[i];
            proof {
                assert(g.take(i + 1).drop_last() =~= g.take(i as int));
                lemma_stats_bound(g.take(i as int), item_id@);
            }
            if str_eq(e.item_id.0.as_str(), item_id.0.as_str()) {
                let ghost before = stats_view(s);
                match e.event_type {
                    CirculationEventType::Checkout => { s.checkouts = s.checkouts + 1; },
                    CirculationEventType::Checkin => { s.checkins = s.checkins + 1; },
                }
                let ghost ctx0 = s.contexts@;
                if !contains_string(&s.contexts, &e.context) {
                    s.contexts.push(e.context.clone());
                    assert(views(s.contexts@) =~= views(ctx0).push(e.context@));
                }
                let ghost ag0 = s.agents@;
                let mut seen = false;
                let mut k: usize = 0;
                while k < s.agents.len()
                    invariant
                        k <= s.agents@.len(),
                        seen == exists|j: int| 0 <= j < k && (#[trigger] s.agents@[j])@ == e.agent@,
                    decreases s.agents@.len() - k,
                {
                    if str_eq(s.agents[k].0.as_str(), e.agent.0.as_str()) {
                        seen = true;
                    }
                    k = k + 1;
                }
                proof {
                    let av = s.agents@.map_values(|a: AgentId| a@);
                    if seen {
                        let j = choose|j: int| 0 <= j < k && (#[trigger] s.agents@[j])@ == e.agent@;
                        assert(av[j] == e.agent@);
                    }
                    if av.contains(e.agent@) {
                        let j = choose|j: int| 0 <= j < av.len() && av[j] == e.agent@;
                        assert(s.agents@[j]@ == e.agent@);
                    }
                }
                if !seen {
                    s.agents.push(e.agent.clone());
                    assert(s.agents@.map_values(|a: AgentId| a@) =~= ag0.map_values(|a: AgentId| a@).push(e.agent@));
                }
                s.last_event = Some(e.timestamp.clone());
                assert(stats_view(s) =~= stats_of(g.take(i + 1), item_id@));
            }
            i = i + 1;
        }
        assert(g.take(g.len() as int) =~= g);
        s
    }

    /// Number of logged events.
    pub fn event_count(&self) -> (n: usize)
        ensures
            n == self@.len(),
    {
        self.log.len()
    }

    /// The events of an item, oldest first.
    pub fn events_for(&self, item_id: &ItemId) -> (r: Vec<&CirculationEvent>)
        ensures
            deref_events(r@) == self@.filter(|e: CirculationEvent| e.item_id@ == item_id@),
    {
        let ghost g = self.log@;
        let ghost p = |e: CirculationEvent| e.item_id@ == item_id@;
        let mut out: Vec<&CirculationEvent> = Vec::new();
        let mut i: usize = 0;
        while i < self.log.len()
            invariant
                g == self.log@,
                i <= g.len(),
                p == (|e: CirculationEvent| e.item_id@ == item_id@),
                deref_events(out@) == g.take(i as int).filter(p),
            decreases g.len() - i,
        {
            proof {
                assert(g.take(i + 1).drop_last() =~= g.take(i as int));
                reveal_with_fuel(Seq::filter, 1);
            }
            let ghost before = out@;
            if str_eq(self.log[i].item_id.0.as_str(), item_id.0.as_str()) {
                out.push(&self.log[i]);
                assert(deref_events(out@) =~= deref_events(before).push(g[i as int]));
            } else {
                assert(deref_events(out@) =~= deref_events(before));
            }
            i = i + 1;
        }
        assert(g.take(g.len() as int) =~= g);
        out
    }

    /// The circulation record of an item: its checkouts, latest event and contexts.
    pub fn to_record(&self, item_id: &ItemId) -> (r: CirculationRecord)
        ensures
            r.total_checkouts == stats_of(self@, item_id@).checkouts,
            (match r.last_checkout { Some(t) => Some(t@), None => None }) == stats_of(self@, item_id@).last_event,
            views(r.checkout_contexts@) == stats_of(self@, item_id@).contexts,
    {
        let s = self.stats_for(item_id);
        CirculationRecord { total_checkouts: s.checkouts, last_checkout: s.last_event, checkout_contexts: s.contexts }
    }

    /// The items seen, each once, in the order first seen.
    fn items(&self) -> (r: Vec<ItemId>)
        ensures
            r@.map_values(|x: ItemId| x@) == items_of(self@),
    {
        let ghost ids = self.log@.map_values(|e: CirculationEvent| e.item_id@);
        let mut out: Vec<String> = Vec::new();
        let mut i: usize = 0;
        while i < self.log.len()
            invariant
                i <= self.log@.len(),
                ids == self.log@.map_values(|e: CirculationEvent| e.item_id@),
                views(out@) == add_missing(Seq::empty(), ids.subrange(0, i as int)),
            decreases self.log@.len() - i,
        {
            let ghost pre = ids.subrange(0, i as int);
            assert(ids.subrange(0, i + 1).drop_last() =~= pre);
            let id = &self.log[i].item_id.0;
            if !contains_string(&out, id) {
                out.push(id.clone());
                assert(views(out@) =~= add_missing(Seq::empty(), pre).push(id@));
            }
            i = i + 1;
        }
        assert(ids.subrange(0, ids.len() as int) =~= ids);
        let mut r: Vec<ItemId> = Vec::new();
        let mut j: usize = 0;
        while j < out.len()
            invariant
                j <= out@.len(),
                r@.map_values(|x: ItemId| x@) == views(out@).take(j as int),
            decreases out@.len() - j,
        {
            let ghost before = r@;
            r.push(ItemId(out[j].clone()));
            assert(r@.map_values(|x: ItemId| x@) =~= before.map_values(|x: ItemId| x@).push(out@[j as int]@));
            assert(views(out@).take(j + 1) =~= views(out@).take(j as int).push(out@[j as int]@));
            j = j + 1;
        }
        assert(views(out@).take(out@.len() as int) =~= views(out@));
        r
    }

    /// The `limit` most checked-out items with their checkout counts, most
    /// first; items with equal counts in the order first seen.
    pub fn most_circulated(&self, limit: usize) -> (r: Vec<(ItemId, u64)>)
        ensures
            count_views(r@) == sort_desc(checkout_counts(self@)).take(
                if limit < checkout_counts(self@).len() { limit as int } else { checkout_counts(self@).len() as int },
            ),
    {
        let items = self.items();
        let ghost cs = checkout_counts(self@);
        let mut sorted: Vec<(ItemId, u64)> = Vec::new();
        let mut i: usize = 0;
        assert(cs.take(0) =~= Seq::<(Seq<char>, nat)>::empty());
        while i < items.len()
            invariant
                i <= items@.len(),
                items@.map_values(|x: ItemId| x@) == items_of(self@),
                cs == checkout_counts(self@),
                cs.len() == items@.len(),
                count_views(sorted@) == sort_desc(cs.take(i as int)),
            decreases items@.len() - i,
        {
            let item = items[i].clone();
            let stats = self.stats_for(&item);
            let n = stats.checkouts;
            assert(items@.map_values(|x: ItemId| x@)[i as int] == items@[i as int]@);
            let ghost x = (item@, n as nat);
            assert(cs[i as int] == x);
            let mut k: usize = 0;
            while k < sorted.len() && sorted[k].1 >= n
                invariant
                    k <= sorted@.len(),
                    forall|j: int| 0 <= j < k ==> !(count_views(sorted@)[j].1 < n),
                decreases sorted@.len() - k,
            {
                k = k + 1;
            }
            proof {
                assert(cs.take(i + 1).drop_last() =~= cs.take(i as int));
                lemma_insert_desc(count_views(sorted@), x, k as int);
            }
            let ghost before = sorted@;
            sorted.insert(k, (item, n));
            assert(count_views(sorted@) =~= count_views(before).take(k as int) + seq![x] + count_views(before).skip(k as int));
            i = i + 1;
        }
        assert(cs.take(cs.len() as int) =~= cs);
        let keep = if limit < sorted.len() { limit } else { sorted.len() };
        let mut out: Vec<(ItemId, u64)> = Vec::new();
        let mut j: usize = 0;
        while j < keep
            invariant
                j <= keep,
                keep <= sorted@.len(),
                out@ == sorted@.take(j as int),
            decreases keep - j,
        {
            out.push((sorted[j].0.clone(), sorted[j].1));
            assert(out@ =~= sorted@.take(j + 1));
            j = j + 1;
        }
        proof {
            lemma_sort_desc_len(cs);
            assert(count_views(out@) =~= count_views(sorted@).take(keep as int));
        }
        out
    }

    /// The items seen that were never checked out, in the order first seen.
    pub fn uncirculated_items(&self) -> (r: Vec<ItemId>)
        ensures
            r@.map_values(|x: ItemId| x@) == items_of(self@).filter(|it: Seq<char>| stats_of(self@, it).checkouts == 0),
    {
        let items = self.items();
        let ghost all = items_of(self@);
        let ghost p = |it: Seq<char>| stats_of(self@, it).checkouts == 0;
        let mut out: Vec<ItemId> = Vec::new();
        let mut i: usize = 0;
        while i < items.len()
            invariant
                i <= items@.len(),
                items@.map_values(|x: ItemId| x@) == all,
                p == (|it: Seq<char>| stats_of(self@, it).checkouts == 0),
                out@.map_values(|x: ItemId| x@) == all.take(i as int).filter(p),
            decreases items@.len() - i,
        {
            proof {
                assert(all.take(i + 1).drop_last() =~= all.take(i as int));
                assert(all[i as int] == items@[i as int]@);
                reveal_with_fuel(Seq::filter, 1);
            }
            let ghost before = out@;
            let stats = self.stats_for(&items[i]);
            if stats.checkouts == 0 {
                out.push(items[i].clone());
                assert(out@.map_values(|x: ItemId| x@) =~= before.map_values(|x: ItemId| x@).push(all[i as int]));
            }
            i = i + 1;
        }
        assert(all.take(all.len() as int) =~= all);
        out
    }

    /// Every event, oldest first.
    pub fn log(&self) -> (r: &[CirculationEvent])
        ensures
            r@ == self@,
    {
        self.log.as_slice()
    }
}

proof fn lemma_insert_desc_len(s: Seq<(Seq<char>, nat)>, x: (Seq<char>, nat))
    ensures
        insert_desc(s, x).len() == s.len() + 1,
    decreases s.len(),
{
    if s.len() > 0 && !(s[0].1 < x.1) {
        lemma_insert_desc_len(s.drop_first(), x);
    }
}

proof fn lemma_sort_desc_len(s: Seq<(Seq<char>, nat)>)
    ensures
        sort_desc(s).len() == s.len(),
    decreases s.len(),
{
    if s.len() > 0 {
        lemma_sort_desc_len(s.drop_last());
        lemma_insert_desc_len(sort_desc(s.drop_last()), s.last());
    }
}

} // verus!
