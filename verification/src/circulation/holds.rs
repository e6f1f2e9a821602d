//! The holds queue: requests for items, served rush first, then
//! interlibrary loans, then normal holds, each group in the order placed.

use vstd::prelude::*;
use crate::ids::{AgentId, ItemId};
use crate::text::{dec_pad, dec_pad_string, push_str, seq_lt, str_eq, str_lt};
use super::{CollectionRef, Hold, HoldUrgency};

verus! {

/// The rank by which holds are served.
pub open spec fn rank(u: HoldUrgency) -> int {
    match u {
        HoldUrgency::Rush => 0,
        HoldUrgency::InterlibraryLoan => 1,
        HoldUrgency::Normal => 2,
    }
}

/// The holds of rank `r`, in order.
pub open spec fn of_rank(s: Seq<Hold>, r: int) -> Seq<Hold> {
    s.filter(|h: Hold| rank(h.urgency) == r)
}

/// A stable sort by rank.
pub open spec fn by_urgency(s: Seq<Hold>) -> Seq<Hold> {
    of_rank(s, 0) + of_rank(s, 1) + of_rank(s, 2)
}

/// The number of unsatisfied holds of a sequence.
pub open spec fn pending_in(s: Seq<Hold>) -> nat
    decreases s.len(),
{
    if s.len() == 0 { 0 } else { pending_in(s.drop_last()) + if s.last().satisfied { 0nat } else { 1nat } }
}

/// Unsatisfied holds numbered 1, 2, ... in order; satisfied ones unchanged.
pub open spec fn renumbered(s: Seq<Hold>) -> Seq<Hold> {
    Seq::new(s.len(), |i: int| if s[i].satisfied { s[i] } else { Hold { queue_position: (pending_in(s.take(i)) + 1) as u32, ..s[i] } })
}

/// The identifier of the `n`-th hold placed.
pub open spec fn hold_name(n: u64) -> Seq<char> {
    "hold_"@ + dec_pad(n as nat, 4)
}

/// The plain state of a queue.
pub struct QueueView {
    pub holds: Seq<Hold>,
    pub next_id: u64,
}

/// Holds in service order.
pub struct HoldsQueue {
    holds: Vec<Hold>,
    next_id: u64,
}

impl View for HoldsQueue {
    type V = QueueView;

    closed spec fn view(&self) -> QueueView {
        QueueView { holds: self.holds@, next_id: self.next_id }
    }
}

impl Default for HoldsQueue {
    fn default() -> (q: Self)
        ensures
            q@.holds == Seq::<Hold>::empty(),
            q@.next_id == 0,
    {
        HoldsQueue::new()
    }
}

/// The borrowed holds, dereferenced.
pub open spec fn deref_holds(v: Seq<&Hold>) -> Seq<Hold> {
    v.map_values(|h: &Hold| *h)
}

proof fn lemma_pending_bound(s: Seq<Hold>)
    ensures
        pending_in(s) <= s.len(),
    decreases s.len(),
{
    if s.len() > 0 {
        lemma_pending_bound(s.drop_last());
    }
}

proof fn lemma_pending_filter(s: Seq<Hold>)
    ensures
        pending_in(s) == s.filter(|h: Hold| !h.satisfied).len(),
    decreases s.len(),
{
    reveal_with_fuel(Seq::filter, 1);
    if s.len() > 0 {
        lemma_pending_filter(s.drop_last());
    }
}

impl HoldsQueue {
    /// An empty queue.
    pub fn new() -> (q: Self)
        ensures
            q@.holds == Seq::<Hold>::empty(),
            q@.next_id == 0,
    {
        HoldsQueue { holds: Vec::new(), next_id: 0 }
    }

    fn count_pending(&self) -> (n: usize)
        ensures
            n == pending_in(self.holds@),
    {
        let mut n: usize = 0;
        let mut i: usize = 0;
        while i < self.holds.len()
            invariant
                i <= self.holds@.len(),
                n == pending_in(self.holds@.take(i as int)),
                n <= i,
            decreases self.holds@.len() - i,
        {
            assert(self.holds@.take(i + 1).drop_last() =~= self.holds@.take(i as int));
            if !self.holds[i].satisfied {
                n = n + 1;
            }
            i = i + 1;
        }
        assert(self.holds@.take(self.holds@.len() as int) =~= self.holds@);
        n
    }

    /// Place a hold: it gets the next identifier and the position after the
    /// pending holds; then the queue is stably re-sorted by urgency and the
    /// pending holds are renumbered from 1. Returns the new hold's id.
    pub fn place_hold(
        &mut self,
        item_id: ItemId,
        collection: CollectionRef,
        requesting_agent: AgentId,
        urgency: HoldUrgency,
        now: &str,
        due_date: Option<String>,
    ) -> (id: String)
        requires
            old(self)@.next_id < u64::MAX,
            old(self)@.holds.len() + 2 < u32::MAX,
        ensures
            id@ == hold_name((old(self)@.next_id + 1) as u64),
            final(self)@.next_id == old(self)@.next_id + 1,
            exists|h: Hold| {
                &&& h.hold_id@ == id@
                &&& h.item_id == item_id
                &&& h.collection == collection
                &&& h.requesting_agent == requesting_agent
                &&& h.urgency == urgency
                &&& h.queue_position == pending_in(old(self)@.holds) + 1
                &&& h.placed_at@ == now@
                &&& h.due_date == due_date
                &&& !h.satisfied
                &&& final(self)@.holds == renumbered(by_urgency(#[trigger] old(self)@.holds.push(h)))
            },
    {
        self.next_id = self.next_id + 1;
        let mut hold_id = String::new();
        push_str(&mut hold_id, "hold_");
        let digits = dec_pad_string(self.next_id, 4);
        push_str(&mut hold_id, digits.as_str());
        proof {
            reveal_strlit("hold_");
            reveal_strlit("");
        }
        let pending = self.count_pending();
        proof { lemma_pending_bound(self.holds@); }
        let position = (pending + 1) as u32;
        let h = Hold {
            hold_id: hold_id.clone(),
            item_id,
            collection,
            requesting_agent,
            urgency,
            queue_position: position,
            placed_at: now.to_owned(),
            due_date,
            satisfied: false,
        };
        let ghost hv = h;
        let mut all: Vec<Hold> = Vec::new();
        std::mem::swap(&mut all, &mut self.holds);
        let ghost start = all@;
        all.push(h);
        let mut sorted: Vec<Hold> = Vec::new();
        append_rank(&mut sorted, &all, HoldUrgency::Rush);
        append_rank(&mut sorted, &all, HoldUrgency::InterlibraryLoan);
        append_rank(&mut sorted, &all, HoldUrgency::Normal);
        assert(sorted@ =~= by_urgency(all@));
        proof { lemma_by_urgency_len(all@); }
        self.holds = renumber(sorted);
        assert(all@ == start.push(hv));
        hold_id
    }

    /// Mark the first hold with `hold_id` satisfied; false when there is none.
    pub fn satisfy(&mut self, hold_id: &str) -> (r: bool)
        ensures
            final(self)@.next_id == old(self)@.next_id,
            r == exists|i: int| 0 <= i < old(self)@.holds.len() && (#[trigger] old(self)@.holds[i]).hold_id@ == hold_id@,
            !r ==> final(self)@.holds == old(self)@.holds,
            r ==> exists|i: int| {
                &&& 0 <= i < old(self)@.holds.len()
                &&& (#[trigger] old(self)@.holds[i]).hold_id@ == hold_id@
                &&& forall|j: int| 0 <= j < i ==> (#[trigger] old(self)@.holds[j]).hold_id@ != hold_id@
                &&& final(self)@.holds == old(self)@.holds.update(i, Hold { satisfied: true, ..old(self)@.holds[i] })
            },
    {
        let mut i: usize = 0;
        while i < self.holds.len()
            invariant
                self@ == old(self)@,
                i <= self.holds@.len(),
                forall|j: int| 0 <= j < i ==> (#[trigger] self.holds@[j]).hold_id@ != hold_id@,
            decreases self.holds@.len() - i,
        {
            if str_eq(self.holds[i].hold_id.as_str(), hold_id) {
                let mut h = self.holds[i].clone();
                h.satisfied = true;
                self.holds.set(i, h);
                return true;
            }
            i = i + 1;
        }
        false
    }

    /// Mark every unsatisfied hold on `item_id` satisfied; returns how many.
    pub fn satisfy_item(&mut self, item_id: &ItemId) -> (n: usize)
        ensures
            final(self)@.next_id == old(self)@.next_id,
            final(self)@.holds.len() == old(self)@.holds.len(),
            forall|i: int| 0 <= i < old(self)@.holds.len() ==> #[trigger] final(self)@.holds[i] == (if old(self)@.holds[i].item_id@ == item_id@ {
                Hold { satisfied: true, ..old(self)@.holds[i] }
            } else {
                old(self)@.holds[i]
            }),
            n == old(self)@.holds.filter(|h: Hold| h.item_id@ == item_id@ && !h.satisfied).len(),
    {
        let ghost g = self.holds@;
        let ghost p = |h: Hold| h.item_id@ == item_id@ && !h.satisfied;
        let mut count: usize = 0;
        let mut i: usize = 0;
        while i < self.holds.len()
            invariant
                self.next_id == old(self)@.next_id,
                g == old(self)@.holds,
                self.holds@.len() == g.len(),
                i <= g.len(),
                p == (|h: Hold| h.item_id@ == item_id@ && !h.satisfied),
                count == g.take(i as int).filter(p).len(),
                count <= i,
                forall|j: int| 0 <= j < i ==> #[trigger] self.holds@[j] == (if g[j].item_id@ == item_id@ {
                    Hold { satisfied: true, ..g[j] }
                } else {
                    g[j]
                }),
                forall|j: int| i <= j < g.len() ==> #[trigger] self.holds@[j] == g[j],
            decreases g.len() - i,
        {
            proof {
                assert(g.take(i + 1).drop_last() =~= g.take(i as int));
                reveal_with_fuel(Seq::filter, 1);
            }
            if str_eq(self.holds[i].item_id.0.as_str(), item_id.0.as_str()) {
                let was = self.holds[i].satisfied;
                let mut h = self.holds[i].clone();
                h.satisfied = true;
                self.holds.set(i, h);
                if !was {
                    count = count + 1;
                }
            }
            i = i + 1;
        }
        assert(g.take(g.len() as int) =~= g);
        count
    }

    /// The unsatisfied holds, in service order.
    pub fn pending(&self) -> (r: Vec<&Hold>)
        ensures
            deref_holds(r@) == self@.holds.filter(|h: Hold| !h.satisfied),
    {
        let ghost g = self.holds@;
        let ghost p = |h: Hold| !h.satisfied;
        let mut out: Vec<&Hold> = Vec::new();
        let mut i: usize = 0;
        while i < self.holds.len()
            invariant
                g == self.holds@,
                i <= g.len(),
                p == (|h: Hold| !h.satisfied),
                deref_holds(out@) == g.take(i as int).filter(p),
            decreases g.len() - i,
        {
            proof {
                assert(g.take(i + 1).drop_last() =~= g.take(i as int));
                reveal_with_fuel(Seq::filter, 1);
            }
            let ghost before = out@;
            if !self.holds[i].satisfied {
                out.push(&self.holds[i]);
                assert(deref_holds(out@) =~= deref_holds(before).push(g[i as int]));
            } else {
                assert(deref_holds(out@) =~= deref_holds(before));
            }
            i = i + 1;
        }
        assert(g.take(g.len() as int) =~= g);
        out
    }

    /// Number of unsatisfied holds.
    pub fn pending_count(&self) -> (n: usize)
        ensures
            n == self@.holds.filter(|h: Hold| !h.satisfied).len(),
            n == pending_in(self@.holds),
    {
        proof { lemma_pending_filter(self.holds@); }
        self.count_pending()
    }

    /// Every hold on `item_id`, satisfied or not, in service order.
    pub fn holds_for_item(&self, item_id: &ItemId) -> (r: Vec<&Hold>)
        ensures
            deref_holds(r@) == self@.holds.filter(|h: Hold| h.item_id@ == item_id@),
    {
        let ghost g = self.holds@;
        let ghost p = |h: Hold| h.item_id@ == item_id@;
        let mut out: Vec<&Hold> = Vec::new();
        let mut i: usize = 0;
        while i < self.holds.len()
            invariant
                g == self.holds@,
                i <= g.len(),
                p == (|h: Hold| h.item_id@ == item_id@),
                deref_holds(out@) == g.take(i as int).filter(p),
            decreases g.len() - i,
        {
            proof {
                assert(g.take(i + 1).drop_last() =~= g.take(i as int));
                reveal_with_fuel(Seq::filter, 1);
            }
            let ghost before = out@;
            if str_eq(self.holds[i].item_id.0.as_str(), item_id.0.as_str()) {
                out.push(&self.holds[i]);
                assert(deref_holds(out@) =~= deref_holds(before).push(g[i as int]));
            } else {
                assert(deref_holds(out@) =~= deref_holds(before));
            }
            i = i + 1;
        }
        assert(g.take(g.len() as int) =~= g);
        out
    }

    /// The unsatisfied interlibrary loans, in service order.
    pub fn interlibrary_loans(&self) -> (r: Vec<&Hold>)
        ensures
            deref_holds(r@) == self@.holds.filter(|h: Hold| h.urgency == HoldUrgency::InterlibraryLoan && !h.satisfied),
    {
        let ghost g = self.holds@;
        let ghost p = |h: Hold| h.urgency == HoldUrgency::InterlibraryLoan && !h.satisfied;
        let mut out: Vec<&Hold> = Vec::new();
        let mut i: usize = 0;
        while i < self.holds.len()
            invariant
                g == self.holds@,
                i <= g.len(),
                p == (|h: Hold| h.urgency == HoldUrgency::InterlibraryLoan && !h.satisfied),
                deref_holds(out@) == g.take(i as int).filter(p),
            decreases g.len() - i,
        {
            proof {
                assert(g.take(i + 1).drop_last() =~= g.take(i as int));
                reveal_with_fuel(Seq::filter, 1);
            }
            let ghost before = out@;
            if self.holds[i].urgency == HoldUrgency::InterlibraryLoan && !self.holds[i].satisfied {
                out.push(&self.holds[i]);
                assert(deref_holds(out@) =~= deref_holds(before).push(g[i as int]));
            } else {
                assert(deref_holds(out@) =~= deref_holds(before));
            }
            i = i + 1;
        }
        assert(g.take(g.len() as int) =~= g);
        out
    }

    /// The ids of unsatisfied holds whose due date lies before `now`, in
    /// service order (timestamps compare as text).
    pub fn find_overdue(&self, now: &str) -> (r: Vec<String>)
        ensures
            r@.map_values(|s: String| s@) == self@.holds.filter(|h: Hold| !h.satisfied && overdue(h, now@)).map_values(|h: Hold| h.hold_id@),
    {
        let ghost g = self.holds@;
        let ghost p = |h: Hold| !h.satisfied && overdue(h, now@);
        let mut out: Vec<String> = Vec::new();
        let mut i: usize = 0;
        while i < self.holds.len()
            invariant
                g == self.holds@,
                i <= g.len(),
                p == (|h: Hold| !h.satisfied && overdue(h, now@)),
                out@.map_values(|s: String| s@) == g.take(i as int).filter(p).map_values(|h: Hold| h.hold_id@),
            decreases g.len() - i,
        {
            proof {
                assert(g.take(i + 1).drop_last() =~= g.take(i as int));
                reveal_with_fuel(Seq::filter, 1);
            }
            let ghost before = out@;
            let h = &self.holds[i];
            let late = match &h.due_date {
                Some(d) => str_lt(d.as_str(), now),
                None => false,
            };
            if !h.satisfied && late {
                out.push(h.hold_id.clone());
                assert(out@.map_values(|s: String| s@) =~= before.map_values(|s: String| s@).push(g[i as int].hold_id@));
            } else {
                assert(out@.map_values(|s: String| s@) =~= before.map_values(|s: String| s@));
            }
            i = i + 1;
        }
        assert(g.take(g.len() as int) =~= g);
        out
    }

    /// Drop every satisfied hold; returns how many were dropped.
    pub fn purge_satisfied(&mut self) -> (n: usize)
        ensures
            final(self)@.next_id == old(self)@.next_id,
            final(self)@.holds == old(self)@.holds.filter(|h: Hold| !h.satisfied),
            n == old(self)@.holds.len() - final(self)@.holds.len(),
    {
        let ghost g = self.holds@;
        let ghost p = |h: Hold| !h.satisfied;
        let mut all: Vec<Hold> = Vec::new();
        std::mem::swap(&mut all, &mut self.holds);
        let before = all.len();
        let mut kept: Vec<Hold> = Vec::new();
        let mut i: usize = 0;
        while i < all.len()
            invariant
                g == all@,
                i <= g.len(),
                p == (|h: Hold| !h.satisfied),
                kept@ == g.take(i as int).filter(p),
            decreases g.len() - i,
        {
            proof {
                assert(g.take(i + 1).drop_last() =~= g.take(i as int));
                reveal_with_fuel(Seq::filter, 1);
            }
            if !all[i].satisfied {
                kept.push(all[i].clone());
            }
            i = i + 1;
        }
        assert(g.take(g.len() as int) =~= g);
        proof { g.lemma_filter_len(p); }
        let after = kept.len();
        self.holds = kept;
        before - after
    }

    /// The first hold with `hold_id`.
    pub fn get(&self, hold_id: &str) -> (r: Option<&Hold>)
        ensures
            match r {
                Some(h) => exists|i: int| {
                    &&& 0 <= i < self@.holds.len()
                    &&& *h == self@.holds[i]
                    &&& h.hold_id@ == hold_id@
                    &&& forall|j: int| 0 <= j < i ==> (#[trigger] self@.holds[j]).hold_id@ != hold_id@
                },
                None => forall|j: int| 0 <= j < self@.holds.len() ==> (#[trigger] self@.holds[j]).hold_id@ != hold_id@,
            },
    {
        let mut i: usize = 0;
        while i < self.holds.len()
            invariant
                i <= self.holds@.len(),
                forall|j: int| 0 <= j < i ==> (#[trigger] self.holds@[j]).hold_id@ != hold_id@,
            decreases self.holds@.len() - i,
        {
            if str_eq(self.holds[i].hold_id.as_str(), hold_id) {
                return Some(&self.holds[i]);
            }
            i = i + 1;
        }
        None
    }

    /// Number of holds, satisfied or not.
    pub fn total_count(&self) -> (n: usize)
        ensures
            n == self@.holds.len(),
    {
        self.holds.len()
    }
}

/// The hold has a due date that lies before `now`.
pub open spec fn overdue(h: Hold, now: Seq<char>) -> bool {
    match h.due_date {
        Some(d) => seq_lt(d@, now),
        None => false,
    }
}

fn urgency_rank(u: HoldUrgency) -> (r: u8)
    ensures
        r == rank(u),
{
    match u {
        HoldUrgency::Rush => 0,
        HoldUrgency::InterlibraryLoan => 1,
        HoldUrgency::Normal => 2,
    }
}

/// Append the holds of the urgency's rank, in order.
fn append_rank(out: &mut Vec<Hold>, all: &Vec<Hold>, u: HoldUrgency)
    ensures
        final(out)@ == old(out)@ + of_rank(all@, rank(u)),
{
    let r = urgency_rank(u);
    let ghost g = all@;
    let ghost start = out@;
    let ghost p = |h: Hold| rank(h.urgency) == rank(u);
    let mut i: usize = 0;
    while i < all.len()
        invariant
            g == all@,
            i <= g.len(),
            r == rank(u),
            p == (|h: Hold| rank(h.urgency) == rank(u)),
            out@ == start + g.take(i as int).filter(p),
        decreases g.len() - i,
    {
        proof {
            assert(g.take(i + 1).drop_last() =~= g.take(i as int));
            reveal_with_fuel(Seq::filter, 1);
        }
        let ghost before = out@;
        if urgency_rank(all[i].urgency) == r {
            out.push(all[i].clone());
            assert(out@ =~= start + g.take(i + 1).filter(p));
        } else {
            assert(out@ =~= start + g.take(i + 1).filter(p));
        }
        i = i + 1;
    }
    assert(g.take(g.len() as int) =~= g);
    assert(of_rank(g, rank(u)) == g.filter(p));
}

/// Sorting by urgency keeps the number of holds.
proof fn lemma_by_urgency_len(s: Seq<Hold>)
    ensures
        by_urgency(s).len() == s.len(),
    decreases s.len(),
{
    reveal_with_fuel(Seq::filter, 1);
    if s.len() > 0 {
        lemma_by_urgency_len(s.drop_last());
    }
}

/// Number the unsatisfied holds from 1 in order.
fn renumber(v: Vec<Hold>) -> (r: Vec<Hold>)
    requires
        v@.len() + 1 < u32::MAX,
    ensures
        r@ == renumbered(v@),
{
    let mut out: Vec<Hold> = Vec::new();
    let mut pos: u32 = 1;
    let mut i: usize = 0;
    while i < v.len()
        invariant
            i <= v@.len(),
            v@.len() + 1 < u32::MAX,
            out@.len() == i,
            pos == pending_in(v@.take(i as int)) + 1,
            pending_in(v@.take(i as int)) <= i,
            forall|j: int| 0 <= j < i ==> #[trigger] out@[j] == renumbered(v@)[j],
        decreases v@.len() - i,
    {
        assert(v@.take(i + 1).drop_last() =~= v@.take(i as int));
        let mut h = v[i].clone();
        if !h.satisfied {
            h.queue_position = pos;
            pos = pos + 1;
        }
        out.push(h);
        i = i + 1;
    }
    assert(out@ =~= renumbered(v@));
    out
}


/// Holds at different positions have different identifiers.
pub open spec fn distinct_ids(s: Seq<Hold>) -> bool {
    forall|i: int, j: int| 0 <= i < j < s.len() ==> (#[trigger] s[i]).hold_id@ != (#[trigger] s[j]).hold_id@
}

/// Holds come rush first, then interlibrary loans, then normal holds.
pub open spec fn rank_sorted(s: Seq<Hold>) -> bool {
    forall|i: int, j: int| 0 <= i < j < s.len() ==> rank((#[trigger] s[i]).urgency) <= rank((#[trigger] s[j]).urgency)
}

/// Pending holds have positions from 1 upwards, increasing in service order.
pub open spec fn positions_increase(s: Seq<Hold>) -> bool {
    &&& forall|i: int| 0 <= i < s.len() && !(#[trigger] s[i]).satisfied ==> s[i].queue_position >= 1
    &&& forall|i: int, j: int| 0 <= i < j < s.len() && !(#[trigger] s[i]).satisfied && !(#[trigger] s[j]).satisfied
        ==> s[i].queue_position < s[j].queue_position
}

/// `id` names one of the first `n` holds placed.
pub open spec fn named_below(id: Seq<char>, n: u64) -> bool {
    exists|k: u64| 1 <= k <= n && id == hold_name(k)
}

/// What holds of every queue that `new`, `place_hold`, `satisfy`,
/// `satisfy_item` and `purge_satisfied` can reach: identifiers are distinct
/// names of placed holds, holds are in service order (those of one urgency in
/// the order placed), and pending positions
/// increase from 1.
pub open spec fn queue_ok(q: QueueView) -> bool {
    &&& distinct_ids(q.holds)
    &&& forall|i: int| 0 <= i < q.holds.len() ==> named_below((#[trigger] q.holds[i]).hold_id@, q.next_id)
    &&& rank_sorted(q.holds)
    &&& placement_ordered(q.holds)
    &&& positions_increase(q.holds)
}

/// The number in a hold's name.
pub open spec fn hold_number(id: Seq<char>) -> u64 {
    choose|k: u64| id == hold_name(k)
}

/// Holds of the same urgency are in the order they were placed.
pub open spec fn placement_ordered(s: Seq<Hold>) -> bool {
    forall|i: int, j: int| 0 <= i < j < s.len() && (#[trigger] s[i]).urgency == (#[trigger] s[j]).urgency
        ==> hold_number(s[i].hold_id@) < hold_number(s[j].hold_id@)
}

/// Hold names of different numbers differ.
proof fn lemma_hold_name_injective(a: u64, b: u64)
    requires
        hold_name(a) == hold_name(b),
    ensures
        a == b,
{
    reveal_strlit("hold_");
    assert(hold_name(a).skip(5) =~= dec_pad(a as nat, 4));
    assert(hold_name(b).skip(5) =~= dec_pad(b as nat, 4));
    crate::text::lemma_dec_pad_value(a as nat, 4);
    crate::text::lemma_dec_pad_value(b as nat, 4);
}

/// The holds a filter keeps are holds of the sequence that pass the filter.
proof fn lemma_filter_sub(s: Seq<Hold>, p: spec_fn(Hold) -> bool)
    ensures
        forall|i: int| 0 <= i < s.filter(p).len() ==> s.contains(#[trigger] s.filter(p)[i]) && p(s.filter(p)[i]),
    decreases s.len(),
{
    reveal_with_fuel(Seq::filter, 1);
    if s.len() > 0 {
        let d = s.drop_last();
        lemma_filter_sub(d, p);
        let fd = d.filter(p);
        let f = s.filter(p);
        assert forall|i: int| 0 <= i < f.len() implies s.contains(#[trigger] f[i]) && p(f[i]) by {
            if i < fd.len() {
                assert(f[i] == fd[i]);
                let k = choose|k: int| 0 <= k < d.len() && d[k] == fd[i];
                assert(s[k] == fd[i]);
            } else {
                assert(f[i] == s.last());
                assert(s[s.len() - 1] == f[i]);
            }
        }
    }
}

/// A relation between every earlier and later hold holds of a filtered sequence too.
proof fn lemma_filter_pairwise(s: Seq<Hold>, p: spec_fn(Hold) -> bool, rel: spec_fn(Hold, Hold) -> bool)
    requires
        forall|i: int, j: int| 0 <= i < j < s.len() ==> rel(#[trigger] s[i], #[trigger] s[j]),
    ensures
        forall|i: int, j: int| 0 <= i < j < s.filter(p).len() ==> rel(#[trigger] s.filter(p)[i], #[trigger] s.filter(p)[j]),
    decreases s.len(),
{
    reveal_with_fuel(Seq::filter, 1);
    if s.len() > 0 {
        let d = s.drop_last();
        assert forall|i: int, j: int| 0 <= i < j < d.len() implies rel(#[trigger] d[i], #[trigger] d[j]) by {
            assert(d[i] == s[i] && d[j] == s[j]);
        }
        lemma_filter_pairwise(d, p, rel);
        lemma_filter_sub(d, p);
        let fd = d.filter(p);
        let f = s.filter(p);
        if p(s.last()) {
            assert(f == fd.push(s.last()));
            assert forall|i: int, j: int| 0 <= i < j < f.len() implies rel(#[trigger] f[i], #[trigger] f[j]) by {
                if j == fd.len() {
                    assert(d.contains(fd[i]));
                    let k = choose|k: int| 0 <= k < d.len() && d[k] == fd[i];
                    assert(s[k] == fd[i]);
                    assert(rel(s[k], s[s.len() - 1]));
                    assert(f[i] == fd[i]);
                } else {
                    assert(f[i] == fd[i] && f[j] == fd[j]);
                }
            }
        } else {
            assert(f == fd);
        }
    }
}

/// The unsatisfied holds before position `b` are at least those before `a`.
proof fn lemma_pending_mono(s: Seq<Hold>, a: int, b: int)
    requires
        0 <= a <= b <= s.len(),
    ensures
        pending_in(s.take(a)) <= pending_in(s.take(b)),
        a < b && !s[a].satisfied ==> pending_in(s.take(a)) + 1 <= pending_in(s.take(b)),
    decreases b - a,
{
    if a < b {
        lemma_pending_mono(s, a, b - 1);
        assert(s.take(b).drop_last() =~= s.take(b - 1));
        if a == b - 1 {
            assert(s.take(b).last() == s[a]);
        }
    }
}

/// The number in the name of the `k`-th hold is `k`.
proof fn lemma_hold_number(k: u64)
    ensures
        hold_number(hold_name(k)) == k,
{
    let j = choose|j: u64| hold_name(k) == hold_name(j);
    assert(hold_name(k) == hold_name(k));
    lemma_hold_name_injective(j, k);
}

/// The unsatisfied holds of two sequences joined.
proof fn lemma_pending_concat(a: Seq<Hold>, b: Seq<Hold>)
    ensures
        pending_in(a + b) == pending_in(a) + pending_in(b),
    decreases b.len(),
{
    if b.len() > 0 {
        lemma_pending_concat(a, b.drop_last());
        assert((a + b).drop_last() =~= a + b.drop_last());
    } else {
        assert(a + b =~= a);
    }
}

/// Sequences with the same satisfied flags have as many unsatisfied holds.
proof fn lemma_pending_same_flags(a: Seq<Hold>, b: Seq<Hold>)
    requires
        a.len() == b.len(),
        forall|i: int| 0 <= i < a.len() ==> (#[trigger] a[i]).satisfied == b[i].satisfied,
    ensures
        pending_in(a) == pending_in(b),
    decreases a.len(),
{
    if a.len() > 0 {
        lemma_pending_same_flags(a.drop_last(), b.drop_last());
        assert(a[a.len() - 1].satisfied == b[b.len() - 1].satisfied);
    }
}

/// Sorting by urgency keeps the number of unsatisfied holds.
proof fn lemma_pending_by_urgency(s: Seq<Hold>)
    ensures
        pending_in(by_urgency(s)) == pending_in(s),
    decreases s.len(),
{
    reveal_with_fuel(Seq::filter, 1);
    let p0 = |h: Hold| rank(h.urgency) == 0;
    let p1 = |h: Hold| rank(h.urgency) == 1;
    let p2 = |h: Hold| rank(h.urgency) == 2;
    lemma_pending_concat(s.filter(p0) + s.filter(p1), s.filter(p2));
    lemma_pending_concat(s.filter(p0), s.filter(p1));
    if s.len() > 0 {
        let d = s.drop_last();
        let x = s.last();
        lemma_pending_by_urgency(d);
        lemma_pending_concat(d.filter(p0) + d.filter(p1), d.filter(p2));
        lemma_pending_concat(d.filter(p0), d.filter(p1));
        if p0(x) {
            assert(s.filter(p0) == d.filter(p0).push(x));
            assert(s.filter(p0).drop_last() =~= d.filter(p0));
            assert(s.filter(p1) == d.filter(p1));
            assert(s.filter(p2) == d.filter(p2));
        } else if p1(x) {
            assert(s.filter(p1) == d.filter(p1).push(x));
            assert(s.filter(p1).drop_last() =~= d.filter(p1));
            assert(s.filter(p0) == d.filter(p0));
            assert(s.filter(p2) == d.filter(p2));
        } else {
            assert(p2(x));
            assert(s.filter(p2) == d.filter(p2).push(x));
            assert(s.filter(p2).drop_last() =~= d.filter(p2));
            assert(s.filter(p0) == d.filter(p0));
            assert(s.filter(p1) == d.filter(p1));
        }
    } else {
        assert(s.filter(p0).len() == 0 && s.filter(p1).len() == 0 && s.filter(p2).len() == 0);
    }
}

/// The new queue satisfies `queue_ok`.
pub proof fn lemma_new_queue_ok()
    ensures
        queue_ok(QueueView { holds: Seq::empty(), next_id: 0 }),
{
}

/// Placing a hold keeps `queue_ok`; afterwards the pending holds are
/// numbered by how many pending holds precede them, from 1.
pub proof fn lemma_place_hold_keeps(q: QueueView, h: Hold)
    requires
        queue_ok(q),
        q.next_id < u64::MAX,
        q.holds.len() + 2 < u32::MAX,
        h.hold_id@ == hold_name((q.next_id + 1) as u64),
        !h.satisfied,
    ensures
        queue_ok(QueueView { holds: renumbered(by_urgency(q.holds.push(h))), next_id: (q.next_id + 1) as u64 }),
        forall|i: int| 0 <= i < renumbered(by_urgency(q.holds.push(h))).len()
            && !(#[trigger] renumbered(by_urgency(q.holds.push(h)))[i]).satisfied
            ==> renumbered(by_urgency(q.holds.push(h)))[i].queue_position == pending_in(by_urgency(q.holds.push(h)).take(i)) + 1,
{
    let s = q.holds.push(h);
    let n = (q.next_id + 1) as u64;
    let b = by_urgency(s);
    let r = renumbered(b);
    let p0 = |x: Hold| rank(x.urgency) == 0;
    let p1 = |x: Hold| rank(x.urgency) == 1;
    let p2 = |x: Hold| rank(x.urgency) == 2;
    // Every hold of `s` is a named hold up to `n`, and names are distinct.
    assert forall|i: int| 0 <= i < s.len() implies named_below((#[trigger] s[i]).hold_id@, n) by {
        if i < q.holds.len() {
            assert(s[i] == q.holds[i]);
            assert(named_below(q.holds[i].hold_id@, q.next_id));
            let k = choose|k: u64| 1 <= k <= q.next_id && q.holds[i].hold_id@ == hold_name(k);
            assert(1 <= k <= n && s[i].hold_id@ == hold_name(k));
        } else {
            assert(1 <= n <= n && s[i].hold_id@ == hold_name(n));
        }
    }
    assert(distinct_ids(s)) by {
        assert forall|i: int, j: int| 0 <= i < j < s.len() implies (#[trigger] s[i]).hold_id@ != (#[trigger] s[j]).hold_id@ by {
            if j == q.holds.len() {
                assert(s[i] == q.holds[i]);
                assert(named_below(q.holds[i].hold_id@, q.next_id));
                let k = choose|k: u64| 1 <= k <= q.next_id && q.holds[i].hold_id@ == hold_name(k);
                if s[i].hold_id@ == s[j].hold_id@ {
                    lemma_hold_name_injective(k, n);
                }
            } else {
                assert(s[i] == q.holds[i] && s[j] == q.holds[j]);
            }
        }
    }
    let rel_id = |x: Hold, y: Hold| x.hold_id@ != y.hold_id@;
    lemma_filter_pairwise(s, p0, rel_id);
    lemma_filter_pairwise(s, p1, rel_id);
    lemma_filter_pairwise(s, p2, rel_id);
    lemma_filter_sub(s, p0);
    lemma_filter_sub(s, p1);
    lemma_filter_sub(s, p2);
    let f0 = s.filter(p0);
    let f1 = s.filter(p1);
    let f2 = s.filter(p2);
    assert(b == f0 + f1 + f2);
    // Where each hold of `b` comes from.
    assert forall|i: int| 0 <= i < b.len() implies #[trigger] s.contains(b[i]) && rank(b[i].urgency) == (if i < f0.len() { 0int } else if i < f0.len() + f1.len() { 1int } else { 2int }) by {
        if i < f0.len() {
            assert(b[i] == f0[i]);
        } else if i < f0.len() + f1.len() {
            assert(b[i] == f1[i - f0.len()]);
        } else {
            assert(b[i] == f2[i - f0.len() - f1.len()]);
        }
    }
    assert forall|i: int, j: int| 0 <= i < j < b.len() implies (#[trigger] b[i]).hold_id@ != (#[trigger] b[j]).hold_id@ by {
        assert(s.contains(b[i]) && s.contains(b[j]));
        let a1 = choose|a1: int| 0 <= a1 < s.len() && s[a1] == b[i];
        let a2 = choose|a2: int| 0 <= a2 < s.len() && s[a2] == b[j];
        if i < f0.len() && j < f0.len() {
            assert(b[i] == f0[i] && b[j] == f0[j]);
        } else if f0.len() <= i && j < f0.len() + f1.len() {
            assert(b[i] == f1[i - f0.len()] && b[j] == f1[j - f0.len()]);
        } else if f0.len() + f1.len() <= i {
            assert(b[i] == f2[i - f0.len() - f1.len()] && b[j] == f2[j - f0.len() - f1.len()]);
        } else {
            assert(b[i].urgency != b[j].urgency);
            assert(a1 != a2);
            if a1 < a2 {
                assert(s[a1].hold_id@ != s[a2].hold_id@);
            } else {
                assert(s[a2].hold_id@ != s[a1].hold_id@);
            }
        }
    }
    // Holds of one urgency stay in placement order.
    assert(placement_ordered(s)) by {
        lemma_hold_number(n);
        assert forall|i: int, j: int| 0 <= i < j < s.len() && (#[trigger] s[i]).urgency == (#[trigger] s[j]).urgency
            implies hold_number(s[i].hold_id@) < hold_number(s[j].hold_id@) by {
            assert(s[i] == q.holds[i]);
            assert(named_below(q.holds[i].hold_id@, q.next_id));
            let k = choose|k: u64| 1 <= k <= q.next_id && q.holds[i].hold_id@ == hold_name(k);
            lemma_hold_number(k);
            if j < q.holds.len() {
                assert(s[j] == q.holds[j]);
            }
        }
    }
    let rel_order = |x: Hold, y: Hold| x.urgency == y.urgency ==> hold_number(x.hold_id@) < hold_number(y.hold_id@);
    lemma_filter_pairwise(s, p0, rel_order);
    lemma_filter_pairwise(s, p1, rel_order);
    lemma_filter_pairwise(s, p2, rel_order);
    assert forall|i: int, j: int| 0 <= i < j < b.len() && (#[trigger] b[i]).urgency == (#[trigger] b[j]).urgency
        implies hold_number(b[i].hold_id@) < hold_number(b[j].hold_id@) by {
        assert(s.contains(b[i]) && s.contains(b[j]));
        if i < f0.len() && j < f0.len() {
            assert(b[i] == f0[i] && b[j] == f0[j]);
        } else if f0.len() <= i && j < f0.len() + f1.len() {
            assert(b[i] == f1[i - f0.len()] && b[j] == f1[j - f0.len()]);
        } else if f0.len() + f1.len() <= i {
            assert(b[i] == f2[i - f0.len() - f1.len()] && b[j] == f2[j - f0.len() - f1.len()]);
        }
    }
    lemma_by_urgency_len(s);
    assert(r.len() == b.len());
    assert forall|i: int| 0 <= i < r.len() implies (#[trigger] r[i]).hold_id@ == b[i].hold_id@ && r[i].urgency == b[i].urgency && r[i].satisfied == b[i].satisfied by {}
    assert forall|i: int| 0 <= i < r.len() && !(#[trigger] r[i]).satisfied implies r[i].queue_position == pending_in(b.take(i)) + 1 by {
        lemma_pending_bound(b.take(i));
    }
    assert(distinct_ids(r)) by {
        assert forall|i: int, j: int| 0 <= i < j < r.len() implies (#[trigger] r[i]).hold_id@ != (#[trigger] r[j]).hold_id@ by {
            assert(b[i].hold_id@ != b[j].hold_id@);
        }
    }
    assert forall|i: int| 0 <= i < r.len() implies named_below((#[trigger] r[i]).hold_id@, n) by {
        assert(s.contains(b[i]));
        let a = choose|a: int| 0 <= a < s.len() && s[a] == b[i];
        assert(named_below(s[a].hold_id@, n));
    }
    assert(rank_sorted(r)) by {
        assert forall|i: int, j: int| 0 <= i < j < r.len() implies rank((#[trigger] r[i]).urgency) <= rank((#[trigger] r[j]).urgency) by {
            assert(s.contains(b[i]) && s.contains(b[j]));
        }
    }
    assert(placement_ordered(r)) by {
        assert forall|i: int, j: int| 0 <= i < j < r.len() && (#[trigger] r[i]).urgency == (#[trigger] r[j]).urgency
            implies hold_number(r[i].hold_id@) < hold_number(r[j].hold_id@) by {
            assert(b[i].urgency == b[j].urgency);
        }
    }
    assert(positions_increase(r)) by {
        assert forall|i: int, j: int| 0 <= i < j < r.len() && !(#[trigger] r[i]).satisfied && !(#[trigger] r[j]).satisfied
            implies r[i].queue_position < r[j].queue_position by {
            lemma_pending_mono(b, i, j);
            lemma_pending_bound(b.take(j));
        }
        assert forall|i: int| 0 <= i < r.len() && !(#[trigger] r[i]).satisfied implies r[i].queue_position >= 1 by {
            lemma_pending_bound(b.take(i));
        }
    }
}

/// Placing a hold adds one hold, one unsatisfied hold, and an identifier
/// unlike every earlier one.
pub proof fn lemma_place_hold_counts(q: QueueView, h: Hold)
    requires
        queue_ok(q),
        q.next_id < u64::MAX,
        h.hold_id@ == hold_name((q.next_id + 1) as u64),
        !h.satisfied,
    ensures
        renumbered(by_urgency(q.holds.push(h))).len() == q.holds.len() + 1,
        pending_in(renumbered(by_urgency(q.holds.push(h)))) == pending_in(q.holds) + 1,
        forall|i: int| 0 <= i < q.holds.len() ==> (#[trigger] q.holds[i]).hold_id@ != h.hold_id@,
{
    let s = q.holds.push(h);
    let b = by_urgency(s);
    lemma_by_urgency_len(s);
    lemma_pending_by_urgency(s);
    assert(s.drop_last() =~= q.holds);
    lemma_pending_same_flags(renumbered(b), b);
    assert forall|i: int| 0 <= i < q.holds.len() implies (#[trigger] q.holds[i]).hold_id@ != h.hold_id@ by {
        assert(named_below(q.holds[i].hold_id@, q.next_id));
        let k = choose|k: u64| 1 <= k <= q.next_id && q.holds[i].hold_id@ == hold_name(k);
        if q.holds[i].hold_id@ == h.hold_id@ {
            lemma_hold_name_injective(k, (q.next_id + 1) as u64);
        }
    }
}

/// Marking a hold satisfied keeps `queue_ok`.
pub proof fn lemma_satisfy_keeps(q: QueueView, i: int)
    requires
        queue_ok(q),
        0 <= i < q.holds.len(),
    ensures
        queue_ok(QueueView { holds: q.holds.update(i, Hold { satisfied: true, ..q.holds[i] }), ..q }),
{
    let t = q.holds.update(i, Hold { satisfied: true, ..q.holds[i] });
    assert forall|a: int| 0 <= a < t.len() implies named_below((#[trigger] t[a]).hold_id@, q.next_id) by {
        assert(t[a].hold_id@ == q.holds[a].hold_id@);
    }
    assert forall|a: int, b: int| 0 <= a < b < t.len() implies (#[trigger] t[a]).hold_id@ != (#[trigger] t[b]).hold_id@ by {
        assert(q.holds[a].hold_id@ != q.holds[b].hold_id@);
    }
    assert forall|a: int, b: int| 0 <= a < b < t.len() implies rank((#[trigger] t[a]).urgency) <= rank((#[trigger] t[b]).urgency) by {
        assert(rank(q.holds[a].urgency) <= rank(q.holds[b].urgency));
    }
    assert forall|a: int, b: int| 0 <= a < b < t.len() && !(#[trigger] t[a]).satisfied && !(#[trigger] t[b]).satisfied
        implies t[a].queue_position < t[b].queue_position by {
        assert(!q.holds[a].satisfied && !q.holds[b].satisfied);
    }
    assert forall|a: int| 0 <= a < t.len() && !(#[trigger] t[a]).satisfied implies t[a].queue_position >= 1 by {
        assert(!q.holds[a].satisfied);
    }
}

/// Marking every hold on an item satisfied keeps `queue_ok`.
pub proof fn lemma_satisfy_item_keeps(q: QueueView, t: Seq<Hold>, item: Seq<char>)
    requires
        queue_ok(q),
        t.len() == q.holds.len(),
        forall|i: int| 0 <= i < q.holds.len() ==> #[trigger] t[i] == (if q.holds[i].item_id@ == item {
            Hold { satisfied: true, ..q.holds[i] }
        } else {
            q.holds[i]
        }),
    ensures
        queue_ok(QueueView { holds: t, next_id: q.next_id }),
{
    assert forall|a: int| 0 <= a < t.len() implies named_below((#[trigger] t[a]).hold_id@, q.next_id) by {
        assert(t[a].hold_id@ == q.holds[a].hold_id@);
    }
    assert forall|a: int, b: int| 0 <= a < b < t.len() implies (#[trigger] t[a]).hold_id@ != (#[trigger] t[b]).hold_id@ by {
        assert(q.holds[a].hold_id@ != q.holds[b].hold_id@);
    }
    assert forall|a: int, b: int| 0 <= a < b < t.len() implies rank((#[trigger] t[a]).urgency) <= rank((#[trigger] t[b]).urgency) by {
        assert(rank(q.holds[a].urgency) <= rank(q.holds[b].urgency));
    }
    assert forall|a: int, b: int| 0 <= a < b < t.len() && !(#[trigger] t[a]).satisfied && !(#[trigger] t[b]).satisfied
        implies t[a].queue_position < t[b].queue_position by {
        assert(!q.holds[a].satisfied && !q.holds[b].satisfied);
    }
    assert forall|a: int| 0 <= a < t.len() && !(#[trigger] t[a]).satisfied implies t[a].queue_position >= 1 by {
        assert(!q.holds[a].satisfied);
    }
}

/// Dropping the satisfied holds keeps `queue_ok`.
pub proof fn lemma_purge_keeps(q: QueueView)
    requires
        queue_ok(q),
    ensures
        queue_ok(QueueView { holds: q.holds.filter(|h: Hold| !h.satisfied), next_id: q.next_id }),
{
    let p = |h: Hold| !h.satisfied;
    let f = q.holds.filter(p);
    lemma_filter_sub(q.holds, p);
    lemma_filter_pairwise(q.holds, p, |x: Hold, y: Hold| x.hold_id@ != y.hold_id@);
    lemma_filter_pairwise(q.holds, p, |x: Hold, y: Hold| rank(x.urgency) <= rank(y.urgency));
    lemma_filter_pairwise(q.holds, p, |x: Hold, y: Hold| !x.satisfied && !y.satisfied ==> x.queue_position < y.queue_position);
    assert forall|a: int| 0 <= a < f.len() implies named_below((#[trigger] f[a]).hold_id@, q.next_id) by {
        assert(q.holds.contains(f[a]));
        let c = choose|c: int| 0 <= c < q.holds.len() && q.holds[c] == f[a];
    }
    assert forall|a: int| 0 <= a < f.len() && !(#[trigger] f[a]).satisfied implies f[a].queue_position >= 1 by {
        assert(q.holds.contains(f[a]));
        let c = choose|c: int| 0 <= c < q.holds.len() && q.holds[c] == f[a];
    }
}

} // verus!
