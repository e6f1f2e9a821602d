//! What a catalogue search works from, before any scoring: the query
//! expanded through the vocabulary, the highest circulation among active
//! entries, and how many "see also" links separate each item from the
//! nearest entry that matches the query.

use vstd::prelude::*;
use crate::catalog::see_also::{at_distance, bfs_result, hop_views, lemma_within_grows, within, LinkView};
use crate::catalog::{CardCatalog, EntryView};
use crate::ids::ItemId;
use crate::strmap::StrMap;
use crate::text::{has_ignore_case, has_string_ignore_case, views};

verus! {

/// The fewest links, at most `max`, from `s` to `t`.
pub open spec fn link_distance(e: Map<Seq<char>, Seq<LinkView>>, s: Seq<char>, t: Seq<char>, max: nat) -> Option<nat>
    decreases max,
{
    if max == 0 {
        if t == s { Some(0) } else { None }
    } else {
        match link_distance(e, s, t, (max - 1) as nat) {
            Some(d) => Some(d),
            None => if within(e, s, max).contains(t) { Some(max) } else { None },
        }
    }
}

/// The smaller of two optional distances.
pub open spec fn fewer(a: Option<nat>, b: Option<nat>) -> Option<nat> {
    match a {
        None => b,
        Some(x) => match b {
            None => Some(x),
            Some(y) => Some(if y < x { y } else { x }),
        },
    }
}

/// The fewest links, at most `max`, from any of the sources to `t`.
pub open spec fn nearest(e: Map<Seq<char>, Seq<LinkView>>, sources: Seq<Seq<char>>, t: Seq<char>, max: nat) -> Option<nat>
    decreases sources.len(),
{
    if sources.len() == 0 {
        None
    } else {
        fewer(nearest(e, sources.drop_last(), t, max), link_distance(e, sources.last(), t, max))
    }
}

/// An active entry with a subject equal, ignoring ASCII case, to a query term.
pub open spec fn matches_query(e: EntryView, q: Seq<Seq<char>>) -> bool {
    !e.deaccessioned && exists|i: int| 0 <= i < q.len() && has_ignore_case(e.class.subjects, #[trigger] q[i])
}

/// The identifiers, in order, of the entries matching the query.
pub open spec fn ids_matching(order: Seq<Seq<char>>, m: Map<Seq<char>, EntryView>, q: Seq<Seq<char>>) -> Seq<Seq<char>>
    decreases order.len(),
{
    if order.len() == 0 {
        Seq::empty()
    } else {
        let r = ids_matching(order.drop_last(), m, q);
        if matches_query(m[order.last()], q) { r.push(order.last()) } else { r }
    }
}

/// The largest checkout count among the active entries, or 1 when there
/// are none.
pub open spec fn max_active_checkouts(order: Seq<Seq<char>>, m: Map<Seq<char>, EntryView>) -> u64
    decreases order.len(),
{
    if order.len() == 0 {
        1
    } else {
        let rest = max_active_checkouts(order.drop_last(), m);
        let e = m[order.last()];
        if e.deaccessioned {
            rest
        } else if no_active(order.drop_last(), m) || e.checkouts > rest {
            e.checkouts
        } else {
            rest
        }
    }
}

/// No entry of `order` is active.
pub open spec fn no_active(order: Seq<Seq<char>>, m: Map<Seq<char>, EntryView>) -> bool {
    forall|i: int| 0 <= i < order.len() ==> (#[trigger] m[order[i]]).deaccessioned
}

/// The distance in a map of distances.
pub open spec fn held(m: Map<Seq<char>, u32>, t: Seq<char>) -> Option<nat> {
    if m.dom().contains(t) { Some(m[t] as nat) } else { None }
}

/// The distance a walk lists for `t`, if it lists `t`.
pub open spec fn listed(hv: Seq<(Seq<char>, u32)>, t: Seq<char>) -> Option<nat>
    decreases hv.len(),
{
    if hv.len() == 0 {
        None
    } else if hv.last().0 == t {
        Some(hv.last().1 as nat)
    } else {
        listed(hv.drop_last(), t)
    }
}

/// A distance is found within `max` links exactly when the item is within
/// reach.
pub(crate) proof fn lemma_distance_found(e: Map<Seq<char>, Seq<LinkView>>, s: Seq<char>, t: Seq<char>, max: nat)
    ensures
        (link_distance(e, s, t, max) is Some) == within(e, s, max).contains(t),
    decreases max,
{
    if max > 0 {
        lemma_distance_found(e, s, t, (max - 1) as nat);
        lemma_within_grows(e, s, (max - 1) as nat, max);
    } else {
        assert(within(e, s, 0) == Set::<Seq<char>>::empty().insert(s));
    }
}

/// The distance found is the exact one.
pub(crate) proof fn lemma_distance_exact(e: Map<Seq<char>, Seq<LinkView>>, s: Seq<char>, t: Seq<char>, d: nat, max: nat)
    requires
        at_distance(e, s, t, d),
        d <= max,
    ensures
        link_distance(e, s, t, max) == Some(d),
    decreases max,
{
    if max == 0 {
        assert(within(e, s, 0) == Set::<Seq<char>>::empty().insert(s));
    } else if max == d {
        lemma_distance_found(e, s, t, (max - 1) as nat);
    } else {
        lemma_distance_exact(e, s, t, d, (max - 1) as nat);
    }
}

/// With distinct items, the walk's distances taken in turn give the
/// smaller of the start and the one listed.
pub(crate) proof fn lemma_listed_once(hv: Seq<(Seq<char>, u32)>, base: Option<nat>, t: Seq<char>)
    requires
        forall|i: int, j: int| 0 <= i < j < hv.len() ==> #[trigger] hv[i].0 != #[trigger] hv[j].0,
    ensures
        folded(base, hv, t) == fewer(base, listed(hv, t)),
        (listed(hv, t) is Some) == (exists|i: int| 0 <= i < hv.len() && #[trigger] hv[i].0 == t),
        forall|i: int| 0 <= i < hv.len() && #[trigger] hv[i].0 == t ==> listed(hv, t) == Some(hv[i].1 as nat),
    decreases hv.len(),
{
    if hv.len() > 0 {
        let p = hv.drop_last();
        assert forall|i: int, j: int| 0 <= i < j < p.len() implies #[trigger] p[i].0 != #[trigger] p[j].0 by {
            assert(hv[i] == p[i] && hv[j] == p[j]);
        }
        lemma_listed_once(p, base, t);
        if hv.last().0 == t {
            assert forall|i: int| 0 <= i < p.len() implies #[trigger] p[i].0 != t by {
                assert(hv[i] == p[i]);
                assert(hv[i].0 != hv[hv.len() - 1].0);
            }
            assert(!(exists|i: int| 0 <= i < p.len() && #[trigger] p[i].0 == t));
            assert(hv[hv.len() - 1].0 == t);
            assert forall|i: int| 0 <= i < hv.len() && #[trigger] hv[i].0 == t implies listed(hv, t) == Some(hv[i].1 as nat) by {
                if i < hv.len() - 1 {
                    assert(hv[i].0 != hv[hv.len() - 1].0);
                }
            }
        } else {
            assert forall|i: int| 0 <= i < hv.len() && #[trigger] hv[i].0 == t implies listed(hv, t) == Some(hv[i].1 as nat) by {
                assert(i < hv.len() - 1);
                assert(hv[i] == p[i]);
            }
            if exists|i: int| 0 <= i < hv.len() && #[trigger] hv[i].0 == t {
                let i = choose|i: int| 0 <= i < hv.len() && #[trigger] hv[i].0 == t;
                assert(hv[i] == p[i]);
            }
            if exists|i: int| 0 <= i < p.len() && #[trigger] p[i].0 == t {
                let i = choose|i: int| 0 <= i < p.len() && #[trigger] p[i].0 == t;
                assert(hv[i] == p[i]);
            }
        }
    }
}

/// The distances after taking a walk's entries in turn, each kept where
/// it is smaller.
pub open spec fn folded(base: Option<nat>, hv: Seq<(Seq<char>, u32)>, t: Seq<char>) -> Option<nat>
    decreases hv.len(),
{
    if hv.len() == 0 {
        base
    } else {
        let r = folded(base, hv.drop_last(), t);
        if hv.last().0 == t { fewer(r, Some(hv.last().1 as nat)) } else { r }
    }
}

/// A walk from `s` of at most two links lists exactly the distances of the
/// other items within two links.
pub(crate) proof fn lemma_walk_distances(e: Map<Seq<char>, Seq<LinkView>>, s: Seq<char>, hv: Seq<(Seq<char>, u32)>, t: Seq<char>)
    requires
        bfs_result(e, s, 2, hv),
        t != s,
        forall|i: int, j: int| 0 <= i < j < hv.len() ==> #[trigger] hv[i].0 != #[trigger] hv[j].0,
    ensures
        listed(hv, t) == link_distance(e, s, t, 2),
{
    lemma_listed_once(hv, None, t);
    lemma_distance_found(e, s, t, 2);
    if exists|i: int| 0 <= i < hv.len() && #[trigger] hv[i].0 == t {
        let i = choose|i: int| 0 <= i < hv.len() && #[trigger] hv[i].0 == t;
        assert(1 <= hv[i].1 <= 2 && at_distance(e, s, hv[i].0, hv[i].1 as nat));
        lemma_distance_exact(e, s, t, hv[i].1 as nat, 2);
    } else if within(e, s, 2).contains(t) {
        assert(exists|i: int| 0 <= i < hv.len() && #[trigger] hv[i].0 == t);
    }
}

/// The walk never lists its start.
pub(crate) proof fn lemma_walk_skips_start(e: Map<Seq<char>, Seq<LinkView>>, s: Seq<char>, hv: Seq<(Seq<char>, u32)>)
    requires
        bfs_result(e, s, 2, hv),
    ensures
        forall|i: int| 0 <= i < hv.len() ==> #[trigger] hv[i].0 != s,
{
    assert forall|i: int| 0 <= i < hv.len() implies #[trigger] hv[i].0 != s by {
        assert(1 <= hv[i].1 <= 2 && at_distance(e, s, hv[i].0, hv[i].1 as nat));
        lemma_within_grows(e, s, 0, (hv[i].1 - 1) as nat);
        assert(within(e, s, 0).contains(s));
    }
}

/// The number of query subjects that match one of an entry's subject
/// headings, ignoring ASCII case.
pub fn subject_match_count(headings: &Vec<String>, query: &[String]) -> (n: usize)
    ensures
        n == query@.map_values(|q: String| q@).filter(|q: Seq<char>| has_ignore_case(views(headings@), q)).len(),
{
    let ghost qs = query@.map_values(|q: String| q@);
    let ghost p = |q: Seq<char>| has_ignore_case(views(headings@), q);
    let mut n: usize = 0;
    let mut i: usize = 0;
    while i < query.len()
        invariant
            i <= query@.len(),
            qs == query@.map_values(|q: String| q@),
            p == (|q: Seq<char>| has_ignore_case(views(headings@), q)),
            n == qs.take(i as int).filter(p).len(),
            n <= i,
        decreases query@.len() - i,
    {
        proof {
            assert(qs.take(i + 1).drop_last() =~= qs.take(i as int));
            assert(qs.take(i + 1).last() == query@[i as int]@);
            reveal_with_fuel(Seq::filter, 1);
        }
        if has_string_ignore_case(headings, query[i].as_str()) {
            n = n + 1;
        }
        i = i + 1;
    }
    assert(qs.take(query@.len() as int) =~= qs);
    n
}

} // verus!
