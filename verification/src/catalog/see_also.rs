//! The bidirectional "see also" cross-reference graph of the catalog.
//!
//! Each item maps to its outgoing links, in the order they were made. A
//! link made from one item to another is stored in both directions, the
//! reverse one with the inverse relationship.

use vstd::prelude::*;
use crate::ids::ItemId;
use crate::strmap::StrMap;
use crate::text::{contains_string, dec, dec_string, push_str, views};
use crate::manifest::entry::add_missing;

verus! {

/// How two catalogued items relate.
#[derive(Debug, Clone, Copy, PartialEq, Eq, Structural, Hash)]
pub enum Relationship {
    RelatedTo,
    DependsOn,
    ContrastsWith,
    Supersedes,
    NarrowerTerm,
    BroaderTerm,
}

/// The relationship seen from the other end: narrower and broader swap,
/// the others are kept.
pub open spec fn inverse(r: Relationship) -> Relationship {
    match r {
        Relationship::NarrowerTerm => Relationship::BroaderTerm,
        Relationship::BroaderTerm => Relationship::NarrowerTerm,
        _ => r,
    }
}

/// The relationship seen from the other end.
pub fn invert_relationship(rel: Relationship) -> (r: Relationship)
    ensures
        r == inverse(rel),
{
    match rel {
        Relationship::NarrowerTerm => Relationship::BroaderTerm,
        Relationship::BroaderTerm => Relationship::NarrowerTerm,
        other => other,
    }
}

/// A link from an item to another.
#[derive(Debug, PartialEq, Eq)]
pub struct SeeAlsoLink {
    pub target: ItemId,
    pub relationship: Relationship,
    pub note: String,
}

/// A link as plain values.
pub struct LinkView {
    pub target: Seq<char>,
    pub relationship: Relationship,
    pub note: Seq<char>,
}

impl View for SeeAlsoLink {
    type V = LinkView;

    open spec fn view(&self) -> LinkView {
        LinkView { target: self.target@, relationship: self.relationship, note: self.note@ }
    }
}

impl Clone for SeeAlsoLink {
    fn clone(&self) -> (r: Self)
        ensures
            r == *self,
    {
        SeeAlsoLink { target: self.target.clone(), relationship: self.relationship, note: self.note.clone() }
    }
}

/// The views of links.
pub open spec fn link_views(v: Seq<SeeAlsoLink>) -> Seq<LinkView> {
    v.map_values(|l: SeeAlsoLink| l@)
}

/// A graph as plain values: each item's links, the items in the order they
/// entered the graph, and the link limit.
pub struct GraphView {
    pub edges: Map<Seq<char>, Seq<LinkView>>,
    pub order: Seq<Seq<char>>,
    pub max_links: usize,
}

/// Some link in `ls` points at `t`.
pub open spec fn links_to(ls: Seq<LinkView>, t: Seq<char>) -> bool {
    exists|i: int| 0 <= i < ls.len() && (#[trigger] ls[i]).target == t
}

/// The graph with `k` present, given no links if it was absent.
pub open spec fn with_item(g: GraphView, k: Seq<char>) -> GraphView {
    if g.edges.dom().contains(k) {
        g
    } else {
        GraphView { edges: g.edges.insert(k, Seq::empty()), order: g.order.push(k), ..g }
    }
}

/// The graph with one more link from `a`.
pub open spec fn with_link(g: GraphView, a: Seq<char>, l: LinkView) -> GraphView {
    GraphView { edges: g.edges.insert(a, g.edges[a].push(l)), ..g }
}

/// What linking `from` to `to` returns and leaves: `from` is entered and
/// checked against the limit, then `to`; the call fails if either is at the
/// limit, succeeds without change if the link exists, and otherwise adds the
/// link and its reverse.
pub open spec fn add_link_result(g: GraphView, from: Seq<char>, to: Seq<char>, rel: Relationship, note: Seq<char>) -> (bool, GraphView) {
    let g1 = with_item(g, from);
    let g2 = with_item(g1, to);
    if g1.edges[from].len() >= g.max_links {
        (false, g1)
    } else if g2.edges[to].len() >= g.max_links {
        (false, g2)
    } else if links_to(g2.edges[from], to) {
        (true, g2)
    } else {
        let g3 = with_link(g2, from, LinkView { target: to, relationship: rel, note });
        (true, with_link(g3, to, LinkView { target: from, relationship: inverse(rel), note }))
    }
}

/// The links of `ls` that do not point at `t`.
pub open spec fn drop_target(ls: Seq<LinkView>, t: Seq<char>) -> Seq<LinkView> {
    ls.filter(|l: LinkView| l.target != t)
}

/// The graph without `item`: its entry goes, and the items it linked to
/// lose their links back to it.
pub open spec fn remove_result(g: GraphView, item: Seq<char>) -> GraphView {
    if !g.edges.dom().contains(item) {
        g
    } else {
        GraphView {
            edges: Map::new(
                |k: Seq<char>| g.edges.dom().contains(k) && k != item,
                |k: Seq<char>| if links_to(g.edges[item], k) { drop_target(g.edges[k], item) } else { g.edges[k] },
            ),
            order: g.order.remove(g.order.index_of(item)),
            max_links: g.max_links,
        }
    }
}

/// `u` has a link to `t`.
pub open spec fn adjacent(e: Map<Seq<char>, Seq<LinkView>>, u: Seq<char>, t: Seq<char>) -> bool {
    e.dom().contains(u) && links_to(e[u], t)
}

/// The items one link away from an item of `r`.
pub open spec fn step(e: Map<Seq<char>, Seq<LinkView>>, r: Set<Seq<char>>) -> Set<Seq<char>> {
    Set::new(|t: Seq<char>| exists|u: Seq<char>| r.contains(u) && #[trigger] adjacent(e, u, t))
}

/// The items at most `d` links away from `s` (`s` itself included).
pub open spec fn within(e: Map<Seq<char>, Seq<LinkView>>, s: Seq<char>, d: nat) -> Set<Seq<char>>
    decreases d,
{
    if d == 0 {
        Set::empty().insert(s)
    } else {
        within(e, s, (d - 1) as nat) + step(e, within(e, s, (d - 1) as nat))
    }
}

/// `t` is exactly `d` links away from `s`.
pub open spec fn at_distance(e: Map<Seq<char>, Seq<LinkView>>, s: Seq<char>, t: Seq<char>, d: nat) -> bool {
    within(e, s, d).contains(t) && (d == 0 || !within(e, s, (d - 1) as nat).contains(t))
}

/// The items closer than `d` links (none for `d == 0`).
pub open spec fn closer(e: Map<Seq<char>, Seq<LinkView>>, s: Seq<char>, d: nat) -> Set<Seq<char>> {
    if d == 0 { Set::empty() } else { within(e, s, (d - 1) as nat) }
}

/// Nearer items stay within reach of more links.
pub proof fn lemma_within_grows(e: Map<Seq<char>, Seq<LinkView>>, s: Seq<char>, a: nat, b: nat)
    requires
        a <= b,
    ensures
        within(e, s, a).subset_of(within(e, s, b)),
    decreases b - a,
{
    if a < b {
        lemma_within_grows(e, s, a, (b - 1) as nat);
    }
}

/// Only the items first reached at distance `d` can reach new items.
proof fn lemma_next_layer(e: Map<Seq<char>, Seq<LinkView>>, s: Seq<char>, d: nat, f: Set<Seq<char>>)
    requires
        f == within(e, s, d).difference(closer(e, s, d)),
    ensures
        within(e, s, d + 1) == within(e, s, d) + step(e, f),
{
    let w = within(e, s, d);
    assert(within(e, s, d + 1) == w + step(e, w));
    assert forall|t: Seq<char>| step(e, w).contains(t) implies (w + step(e, f)).contains(t) by {
        let u = choose|u: Seq<char>| w.contains(u) && #[trigger] adjacent(e, u, t);
        if !f.contains(u) {
            assert(d > 0 && within(e, s, (d - 1) as nat).contains(u));
            assert(step(e, within(e, s, (d - 1) as nat)).contains(t));
        } else {
            assert(step(e, f).contains(t));
        }
    }
    assert forall|t: Seq<char>| step(e, f).contains(t) implies step(e, w).contains(t) by {
        let u = choose|u: Seq<char>| f.contains(u) && #[trigger] adjacent(e, u, t);
        assert(w.contains(u));
    }
    assert(within(e, s, d + 1) =~= w + step(e, f));
}

/// Once a distance adds nothing, no larger one does.
proof fn lemma_within_settles(e: Map<Seq<char>, Seq<LinkView>>, s: Seq<char>, d: nat, k: nat)
    requires
        within(e, s, d + 1) == within(e, s, d),
        d <= k,
    ensures
        within(e, s, k) == within(e, s, d),
    decreases k - d,
{
    if k > d {
        lemma_within_settles(e, s, d, (k - 1) as nat);
        assert(within(e, s, k) == within(e, s, (k - 1) as nat) + step(e, within(e, s, (k - 1) as nat)));
    }
}

/// Every item some link points at.
pub open spec fn all_targets(e: Map<Seq<char>, Seq<LinkView>>) -> Set<Seq<char>> {
    Set::new(|t: Seq<char>| exists|u: Seq<char>| #[trigger] adjacent(e, u, t))
}

/// The targets of the links of the items `ks`, in order.
pub open spec fn flat_targets(e: Map<Seq<char>, Seq<LinkView>>, ks: Seq<Seq<char>>) -> Seq<Seq<char>>
    decreases ks.len(),
{
    if ks.len() == 0 {
        Seq::empty()
    } else {
        flat_targets(e, ks.drop_last()) + e[ks.last()].map_values(|l: LinkView| l.target)
    }
}

proof fn lemma_flat_targets(e: Map<Seq<char>, Seq<LinkView>>, ks: Seq<Seq<char>>, u: Seq<char>, t: Seq<char>)
    requires
        ks.contains(u),
        adjacent(e, u, t),
    ensures
        flat_targets(e, ks).contains(t),
    decreases ks.len(),
{
    let rest = flat_targets(e, ks.drop_last());
    let tail = e[ks.last()].map_values(|l: LinkView| l.target);
    assert(flat_targets(e, ks) == rest + tail);
    if ks.last() == u {
        let i = choose|i: int| 0 <= i < e[u].len() && (#[trigger] e[u][i]).target == t;
        assert(tail[i] == t);
        assert((rest + tail)[rest.len() + i] == t);
    } else {
        let k = choose|k: int| 0 <= k < ks.len() && ks[k] == u;
        assert(ks.drop_last()[k] == u);
        lemma_flat_targets(e, ks.drop_last(), u, t);
        let j = choose|j: int| 0 <= j < rest.len() && rest[j] == t;
        assert((rest + tail)[j] == t);
    }
}

/// A graph with finitely many items has finitely many targets.
proof fn lemma_targets_finite(e: Map<Seq<char>, Seq<LinkView>>, ks: Seq<Seq<char>>)
    requires
        forall|u: Seq<char>| e.dom().contains(u) ==> ks.contains(u),
    ensures
        all_targets(e).finite(),
{
    let flat = flat_targets(e, ks);
    assert forall|t: Seq<char>| all_targets(e).contains(t) implies flat.to_set().contains(t) by {
        let u = choose|u: Seq<char>| #[trigger] adjacent(e, u, t);
        lemma_flat_targets(e, ks, u, t);
    }
    vstd::set_lib::lemma_len_subset(all_targets(e), flat.to_set());
}

/// Everything within reach of `s` is `s` or a target.
proof fn lemma_within_targets(e: Map<Seq<char>, Seq<LinkView>>, s: Seq<char>, d: nat)
    ensures
        within(e, s, d).subset_of(all_targets(e).insert(s)),
    decreases d,
{
    if d > 0 {
        lemma_within_targets(e, s, (d - 1) as nat);
        assert forall|t: Seq<char>| step(e, within(e, s, (d - 1) as nat)).contains(t) implies all_targets(e).contains(t) by {
            let u = choose|u: Seq<char>| within(e, s, (d - 1) as nat).contains(u) && #[trigger] adjacent(e, u, t);
        }
    }
}

/// The targets of the first `j` links of the `i`-th frontier item, and of
/// all links of the items before it.
pub open spec fn expanded(e: Map<Seq<char>, Seq<LinkView>>, f: Seq<Seq<char>>, i: int, j: int) -> Set<Seq<char>> {
    Set::new(|t: Seq<char>|
        (exists|k: int| 0 <= k < i && #[trigger] adjacent(e, f[k], t))
        || (e.dom().contains(f[i]) && links_to(e[f[i]].take(j), t)))
}

/// The targets of links, in order.
pub open spec fn targets(ls: Seq<LinkView>) -> Seq<Seq<char>> {
    ls.map_values(|l: LinkView| l.target)
}

/// The targets of the links of the items of `f`, item by item, each item's
/// in link order (absent items have none).
pub open spec fn layer_targets(e: Map<Seq<char>, Seq<LinkView>>, f: Seq<Seq<char>>) -> Seq<Seq<char>>
    decreases f.len(),
{
    if f.len() == 0 {
        Seq::empty()
    } else {
        layer_targets(e, f.drop_last()) + (if e.dom().contains(f.last()) { targets(e[f.last()]) } else { Seq::empty() })
    }
}

/// A breadth-first walk from `s` after `k` layers: the items found, in the
/// order found, and the items of the last layer. Each layer holds the
/// targets of the links of the previous layer's items, taken in order, that
/// were not found before.
pub open spec fn walk(e: Map<Seq<char>, Seq<LinkView>>, s: Seq<char>, k: nat) -> (Seq<Seq<char>>, Seq<Seq<char>>)
    decreases k,
{
    if k == 0 {
        (seq![s], seq![s])
    } else {
        let prev = walk(e, s, (k - 1) as nat);
        let v = add_missing(prev.0, layer_targets(e, prev.1));
        (v, v.skip(prev.0.len() as int))
    }
}

/// The items a breadth-first walk of `k` layers reports, in the order
/// found, each with its layer.
pub open spec fn walk_hops(e: Map<Seq<char>, Seq<LinkView>>, s: Seq<char>, k: nat) -> Seq<(Seq<char>, u32)>
    decreases k,
{
    if k == 0 {
        Seq::empty()
    } else {
        walk_hops(e, s, (k - 1) as nat) + walk(e, s, k).1.map_values(|t: Seq<char>| (t, k as u32))
    }
}

/// Once a layer is empty the walk stops changing.
proof fn lemma_walk_settles(e: Map<Seq<char>, Seq<LinkView>>, s: Seq<char>, k: nat, m: nat)
    requires
        walk(e, s, k).1.len() == 0,
        k <= m,
    ensures
        walk(e, s, m) == walk(e, s, k),
        walk_hops(e, s, m) == walk_hops(e, s, k),
    decreases m - k,
{
    if k < m {
        let w = walk(e, s, k);
        assert(layer_targets(e, w.1) =~= Seq::<Seq<char>>::empty());
        assert(add_missing(w.0, Seq::<Seq<char>>::empty()) == w.0);
        assert(walk(e, s, k + 1).0 == w.0);
        assert(walk(e, s, k + 1).1 =~= Seq::<Seq<char>>::empty());
        assert(walk(e, s, k + 1) == w);
        assert(walk_hops(e, s, k + 1) =~= walk_hops(e, s, k));
        lemma_walk_settles(e, s, k + 1, m);
    }
}

/// The views of traversal results.
pub open spec fn hop_views(r: Seq<(ItemId, u32)>) -> Seq<(Seq<char>, u32)> {
    r.map_values(|p: (ItemId, u32)| (p.0@, p.1))
}

/// The problems `validate` reports for the links `ls` of `item`.
pub open spec fn link_errors(g: GraphView, item: Seq<char>, ls: Seq<LinkView>) -> Seq<Seq<char>>
    decreases ls.len(),
{
    if ls.len() == 0 {
        Seq::empty()
    } else {
        let rest = link_errors(g, item, ls.drop_last());
        let t = ls.last().target;
        if !g.edges.dom().contains(t) {
            rest.push("link from "@ + item + " to "@ + t + " points to non-existent item"@)
        } else if !links_to(g.edges[t], item) {
            rest.push("link from "@ + item + " to "@ + t + " has no reverse link"@)
        } else {
            rest
        }
    }
}

/// The problems `validate` reports for `item`: its links, then its count.
pub open spec fn item_errors(g: GraphView, item: Seq<char>) -> Seq<Seq<char>> {
    let ls = g.edges[item];
    link_errors(g, item, ls) + if ls.len() > g.max_links {
        seq!["item "@ + item + " has "@ + dec(ls.len()) + " links, exceeding max "@ + dec(g.max_links as nat)]
    } else {
        Seq::<Seq<char>>::empty()
    }
}

/// The problems of the items `ks`, in order.
pub open spec fn graph_errors(g: GraphView, ks: Seq<Seq<char>>) -> Seq<Seq<char>>
    decreases ks.len(),
{
    if ks.len() == 0 {
        Seq::empty()
    } else {
        graph_errors(g, ks.drop_last()) + item_errors(g, ks.last())
    }
}

/// Every link has a link back, every target is an item, and no item is
/// over the limit.
pub open spec fn well_linked(g: GraphView) -> bool {
    &&& forall|k: Seq<char>, i: int| #![trigger g.edges[k][i]] g.edges.dom().contains(k) && 0 <= i < g.edges[k].len() ==> {
        &&& g.edges.dom().contains(g.edges[k][i].target)
        &&& links_to(g.edges[g.edges[k][i].target], k)
    }
    &&& forall|k: Seq<char>| #[trigger] g.edges.dom().contains(k) ==> g.edges[k].len() <= g.max_links
}

/// The number of links of the items `ks`.
pub open spec fn link_total(g: GraphView, ks: Seq<Seq<char>>) -> nat
    decreases ks.len(),
{
    if ks.len() == 0 { 0 } else { link_total(g, ks.drop_last()) + g.edges[ks.last()].len() }
}

proof fn lemma_link_total_prefix(g: GraphView, ks: Seq<Seq<char>>, i: int)
    requires
        0 <= i <= ks.len(),
    ensures
        link_total(g, ks.take(i)) <= link_total(g, ks),
    decreases ks.len(),
{
    if i < ks.len() {
        assert(ks.drop_last().take(i) =~= ks.take(i));
        lemma_link_total_prefix(g, ks.drop_last(), i);
    } else {
        assert(ks.take(i) =~= ks);
    }
}

proof fn lemma_link_errors_empty(g: GraphView, item: Seq<char>, ls: Seq<LinkView>)
    ensures
        link_errors(g, item, ls).len() == 0 <==> forall|i: int| 0 <= i < ls.len() ==> g.edges.dom().contains(#[trigger] ls[i].target)
            && links_to(g.edges[ls[i].target], item),
    decreases ls.len(),
{
    if ls.len() > 0 {
        lemma_link_errors_empty(g, item, ls.drop_last());
        let rest = link_errors(g, item, ls.drop_last());
        assert forall|i: int| 0 <= i < ls.len() - 1 implies ls.drop_last()[i] == #[trigger] ls[i] by {}
        if link_errors(g, item, ls).len() == 0 {
            assert(rest.len() == 0);
        }
    }
}

proof fn lemma_graph_errors_empty(g: GraphView, ks: Seq<Seq<char>>)
    ensures
        graph_errors(g, ks).len() == 0 <==> forall|j: int| 0 <= j < ks.len() ==> (#[trigger] item_errors(g, ks[j])).len() == 0,
    decreases ks.len(),
{
    if ks.len() > 0 {
        lemma_graph_errors_empty(g, ks.drop_last());
        assert forall|j: int| 0 <= j < ks.len() - 1 implies ks.drop_last()[j] == #[trigger] ks[j] by {}
    }
}

/// The graph reports no problems exactly when it is well linked.
pub proof fn lemma_validate_clean(g: GraphView)
    requires
        forall|k: Seq<char>| #[trigger] g.edges.dom().contains(k) <==> g.order.contains(k),
    ensures
        graph_errors(g, g.order).len() == 0 <==> well_linked(g),
{
    lemma_graph_errors_empty(g, g.order);
    assert forall|k: Seq<char>| g.edges.dom().contains(k) implies (item_errors(g, k).len() == 0 <==> (
        (forall|i: int| 0 <= i < g.edges[k].len() ==> g.edges.dom().contains(#[trigger] g.edges[k][i].target)
            && links_to(g.edges[g.edges[k][i].target], k)) && g.edges[k].len() <= g.max_links)) by {
        lemma_link_errors_empty(g, k, g.edges[k]);
    }
    if graph_errors(g, g.order).len() == 0 {
        assert forall|k: Seq<char>, i: int| #![trigger g.edges[k][i]] g.edges.dom().contains(k) && 0 <= i < g.edges[k].len() implies
            g.edges.dom().contains(g.edges[k][i].target) && links_to(g.edges[g.edges[k][i].target], k) by {
            let j = choose|j: int| 0 <= j < g.order.len() && g.order[j] == k;
            assert(item_errors(g, g.order[j]).len() == 0);
        }
        assert forall|k: Seq<char>| #[trigger] g.edges.dom().contains(k) implies g.edges[k].len() <= g.max_links by {
            let j = choose|j: int| 0 <= j < g.order.len() && g.order[j] == k;
            assert(item_errors(g, g.order[j]).len() == 0);
        }
    }
    if well_linked(g) {
        assert forall|j: int| 0 <= j < g.order.len() implies (#[trigger] item_errors(g, g.order[j])).len() == 0 by {
            let k = g.order[j];
            assert(g.edges.dom().contains(k));
            assert forall|i: int| 0 <= i < g.edges[k].len() implies g.edges.dom().contains(#[trigger] g.edges[k][i].target)
                && links_to(g.edges[g.edges[k][i].target], k) by {
            }
        }
    }
}

proof fn lemma_links_to_push(ls: Seq<LinkView>, l: LinkView, x: Seq<char>)
    ensures
        links_to(ls.push(l), x) <==> links_to(ls, x) || l.target == x,
{
    if links_to(ls.push(l), x) {
        let i = choose|i: int| 0 <= i < ls.push(l).len() && (#[trigger] ls.push(l)[i]).target == x;
        if i < ls.len() {
            assert(ls[i] == ls.push(l)[i]);
        }
    }
    if links_to(ls, x) {
        let i = choose|i: int| 0 <= i < ls.len() && (#[trigger] ls[i]).target == x;
        assert(ls.push(l)[i] == ls[i]);
    }
    if l.target == x {
        assert(ls.push(l)[ls.len() as int] == l);
    }
}

/// Dropping the links to `t` keeps the others and adds none.
pub proof fn lemma_drop_target(ls: Seq<LinkView>, t: Seq<char>, x: Seq<char>)
    ensures
        links_to(drop_target(ls, t), x) <==> links_to(ls, x) && x != t,
        drop_target(ls, t).len() <= ls.len(),
        forall|l: LinkView| #[trigger] drop_target(ls, t).contains(l) ==> ls.contains(l),
{
    assert forall|l: LinkView| #[trigger] drop_target(ls, t).contains(l) implies ls.contains(l) by {
        ls.lemma_filter_contains_rev(|l: LinkView| l.target != t, l);
    }
    let p = |l: LinkView| l.target != t;
    let f = ls.filter(p);
    ls.lemma_filter_len(p);
    if links_to(f, x) {
        let i = choose|i: int| 0 <= i < f.len() && (#[trigger] f[i]).target == x;
        ls.lemma_filter_pred(p, i);
        assert(f.contains(f[i]));
        ls.lemma_filter_contains_rev(p, f[i]);
        let k = choose|k: int| 0 <= k < ls.len() && ls[k] == f[i];
        assert(ls[k].target == x);
    }
    if links_to(ls, x) && x != t {
        let i = choose|i: int| 0 <= i < ls.len() && (#[trigger] ls[i]).target == x;
        ls.lemma_filter_contains(p, i);
        let k = choose|k: int| 0 <= k < f.len() && f[k] == ls[i];
        assert(f[k].target == x);
    }
}

/// A new graph is well linked.
pub proof fn lemma_new_well_linked(max_links: usize)
    ensures
        well_linked(GraphView { edges: Map::empty(), order: Seq::empty(), max_links }),
{
}

/// Linking two different items keeps a well linked graph well linked, and
/// when it succeeds each of the two then links to the other.
pub proof fn lemma_add_link_keeps(g: GraphView, from: Seq<char>, to: Seq<char>, rel: Relationship, note: Seq<char>)
    requires
        well_linked(g),
        from != to,
    ensures
        well_linked(add_link_result(g, from, to, rel, note).1),
        add_link_result(g, from, to, rel, note).0 ==> {
            let h = add_link_result(g, from, to, rel, note).1;
            links_to(h.edges[from], to) && links_to(h.edges[to], from)
        },
{
    let g1 = with_item(g, from);
    let g2 = with_item(g1, to);
    assert(well_linked(g1)) by {
        assert forall|k: Seq<char>, i: int| #![trigger g1.edges[k][i]] g1.edges.dom().contains(k) && 0 <= i < g1.edges[k].len() implies
            g1.edges.dom().contains(g1.edges[k][i].target) && links_to(g1.edges[g1.edges[k][i].target], k) by {
            assert(g.edges[k][i] == g1.edges[k][i]);
        }
        assert forall|k: Seq<char>| #[trigger] g1.edges.dom().contains(k) implies g1.edges[k].len() <= g1.max_links by {
            if g.edges.dom().contains(k) {
                assert(g.edges[k].len() <= g.max_links);
                assert(g1.edges[k] == g.edges[k]);
            }
        }
    }
    assert(well_linked(g2)) by {
        assert forall|k: Seq<char>, i: int| #![trigger g2.edges[k][i]] g2.edges.dom().contains(k) && 0 <= i < g2.edges[k].len() implies
            g2.edges.dom().contains(g2.edges[k][i].target) && links_to(g2.edges[g2.edges[k][i].target], k) by {
            assert(g1.edges[k][i] == g2.edges[k][i]);
        }
        assert forall|k: Seq<char>| #[trigger] g2.edges.dom().contains(k) implies g2.edges[k].len() <= g2.max_links by {
            if g1.edges.dom().contains(k) {
                assert(g1.edges[k].len() <= g1.max_links);
                assert(g2.edges[k] == g1.edges[k]);
            }
        }
    }
    if g1.edges[from].len() < g.max_links && g2.edges[to].len() < g.max_links && !links_to(g2.edges[from], to) {
        let fwd = LinkView { target: to, relationship: rel, note };
        let back = LinkView { target: from, relationship: inverse(rel), note };
        let g3 = with_link(g2, from, fwd);
        let g4 = with_link(g3, to, back);
        assert(g2.edges[from] == g1.edges[from]);
        assert(g4.edges[from] == g2.edges[from].push(fwd));
        assert(g4.edges[to] == g2.edges[to].push(back));
        lemma_links_to_push(g2.edges[from], fwd, to);
        lemma_links_to_push(g2.edges[to], back, from);
        assert forall|k: Seq<char>, i: int| #![trigger g4.edges[k][i]] g4.edges.dom().contains(k) && 0 <= i < g4.edges[k].len() implies
            g4.edges.dom().contains(g4.edges[k][i].target) && links_to(g4.edges[g4.edges[k][i].target], k) by {
            let t = g4.edges[k][i].target;
            if k == from && i == g2.edges[from].len() {
            } else if k == to && i == g2.edges[to].len() {
            } else {
                assert(g4.edges[k][i] == g2.edges[k][i]);
                assert(links_to(g2.edges[t], k));
                if t == from {
                    lemma_links_to_push(g2.edges[from], fwd, k);
                } else if t == to {
                    lemma_links_to_push(g2.edges[to], back, k);
                }
            }
        }
        assert forall|k: Seq<char>| #[trigger] g4.edges.dom().contains(k) implies g4.edges[k].len() <= g4.max_links by {
            assert(g2.edges.dom().contains(k));
            assert(g2.edges[k].len() <= g2.max_links);
            if k != to && k != from { assert(g4.edges[k] == g2.edges[k]); }
        }
        assert(well_linked(g4));
    }
}

/// The links of an item, none when it is absent (what `get_links` returns).
pub open spec fn links_at(g: GraphView, x: Seq<char>) -> Seq<LinkView> {
    if g.edges.dom().contains(x) { g.edges[x] } else { Seq::empty() }
}

/// Items of `ks` whose link counts agree in two graphs give the same total.
proof fn lemma_total_agree(g: GraphView, h: GraphView, ks: Seq<Seq<char>>)
    requires
        forall|i: int| 0 <= i < ks.len() ==> h.edges[#[trigger] ks[i]].len() == g.edges[ks[i]].len(),
    ensures
        link_total(h, ks) == link_total(g, ks),
    decreases ks.len(),
{
    if ks.len() > 0 {
        assert forall|i: int| 0 <= i < ks.drop_last().len() implies h.edges[#[trigger] ks.drop_last()[i]].len() == g.edges[ks.drop_last()[i]].len() by {
            assert(ks.drop_last()[i] == ks[i]);
        }
        lemma_total_agree(g, h, ks.drop_last());
        assert(h.edges[ks[ks.len() - 1]].len() == g.edges[ks[ks.len() - 1]].len());
    }
}

/// One more link at an item listed once raises the total by one.
proof fn lemma_total_bump(g: GraphView, h: GraphView, ks: Seq<Seq<char>>, a: Seq<char>)
    requires
        ks.no_duplicates(),
        ks.contains(a),
        h.edges[a].len() == g.edges[a].len() + 1,
        forall|i: int| 0 <= i < ks.len() && ks[i] != a ==> h.edges[#[trigger] ks[i]].len() == g.edges[ks[i]].len(),
    ensures
        link_total(h, ks) == link_total(g, ks) + 1,
    decreases ks.len(),
{
    let d = ks.drop_last();
    if ks.last() == a {
        assert forall|i: int| 0 <= i < d.len() implies h.edges[#[trigger] d[i]].len() == g.edges[d[i]].len() by {
            assert(d[i] == ks[i]);
            assert(ks[i] != ks[ks.len() - 1]);
        }
        lemma_total_agree(g, h, d);
    } else {
        let k = choose|k: int| 0 <= k < ks.len() && ks[k] == a;
        assert(k < ks.len() - 1);
        assert(d[k] == a);
        assert forall|i: int| 0 <= i < d.len() && d[i] != a implies h.edges[#[trigger] d[i]].len() == g.edges[d[i]].len() by {
            assert(d[i] == ks[i]);
        }
        assert forall|x: int, y: int| 0 <= x < y < d.len() implies d[x] != d[y] by {
            assert(d[x] == ks[x] && d[y] == ks[y]);
        }
        lemma_total_bump(g, h, d, a);
        assert(ks[ks.len() - 1] != a);
    }
}

/// Entering an absent item adds it with no links and leaves the total.
proof fn lemma_total_with_item(g: GraphView, k: Seq<char>)
    requires
        forall|x: Seq<char>| #[trigger] g.edges.dom().contains(x) <==> g.order.contains(x),
    ensures
        link_total(with_item(g, k), with_item(g, k).order) == link_total(g, g.order),
{
    if !g.edges.dom().contains(k) {
        let g1 = with_item(g, k);
        assert(g1.order.drop_last() =~= g.order);
        assert forall|i: int| 0 <= i < g.order.len() implies g1.edges[#[trigger] g.order[i]].len() == g.edges[g.order[i]].len() by {
            assert(g.order.contains(g.order[i]));
        }
        lemma_total_agree(g, g1, g.order);
    }
}

/// What linking two different items of a well linked graph does, as
/// `get_links`, `validate` and `edge_count` see it: it succeeds exactly when
/// neither item is at the limit; the graph stays well linked; a new link
/// adds the link to `from` and its inverse to `to` (two more links in all)
/// and changes no other item; a failure or an existing link changes no
/// item's links.
pub proof fn lemma_add_link_law(g: GraphView, from: Seq<char>, to: Seq<char>, rel: Relationship, note: Seq<char>)
    requires
        well_linked(g),
        g.order.no_duplicates(),
        forall|x: Seq<char>| #[trigger] g.edges.dom().contains(x) <==> g.order.contains(x),
        from != to,
    ensures
        ({
            let (r, h) = add_link_result(g, from, to, rel, note);
            let linked = links_to(links_at(g, from), to);
            &&& r == (links_at(g, from).len() < g.max_links && links_at(g, to).len() < g.max_links)
            &&& well_linked(h)
            &&& (r && !linked) ==> {
                &&& links_at(h, from) == links_at(g, from).push(LinkView { target: to, relationship: rel, note })
                &&& links_at(h, to) == links_at(g, to).push(LinkView { target: from, relationship: inverse(rel), note })
                &&& forall|x: Seq<char>| x != from && x != to ==> #[trigger] links_at(h, x) == links_at(g, x)
                &&& link_total(h, h.order) == link_total(g, g.order) + 2
            }
            &&& !(r && !linked) ==> forall|x: Seq<char>| #[trigger] links_at(h, x) == links_at(g, x)
        }),
{
    lemma_add_link_keeps(g, from, to, rel, note);
    let g1 = with_item(g, from);
    let g2 = with_item(g1, to);
    assert(g2.edges[from] == links_at(g, from));
    assert(g2.edges[to] == links_at(g, to));
    assert forall|x: Seq<char>| #[trigger] links_at(g2, x) == links_at(g, x) by {}
    assert forall|x: Seq<char>| #[trigger] g1.edges.dom().contains(x) <==> g1.order.contains(x) by {
        if !g.edges.dom().contains(from) && x == from {
            assert(g1.order[g1.order.len() - 1] == from);
        }
        if g1.order.contains(x) && x != from {
            let i = choose|i: int| 0 <= i < g1.order.len() && g1.order[i] == x;
            if !g.edges.dom().contains(from) {
                assert(g.order[i] == x);
            }
        }
        if g.order.contains(x) {
            let i = choose|i: int| 0 <= i < g.order.len() && g.order[i] == x;
            assert(g1.order[i] == x);
        }
    }
    let r = add_link_result(g, from, to, rel, note).0;
    let linked = links_to(links_at(g, from), to);
    if r && !linked {
        lemma_total_with_item(g, from);
        lemma_total_with_item(g1, to);
        let fwd = LinkView { target: to, relationship: rel, note };
        let back = LinkView { target: from, relationship: inverse(rel), note };
        let g3 = with_link(g2, from, fwd);
        let g4 = with_link(g3, to, back);
        assert forall|x: Seq<char>| #[trigger] g2.edges.dom().contains(x) <==> g2.order.contains(x) by {
            if !g1.edges.dom().contains(to) && x == to {
                assert(g2.order[g2.order.len() - 1] == to);
            }
            if g2.order.contains(x) && x != to {
                let i = choose|i: int| 0 <= i < g2.order.len() && g2.order[i] == x;
                if !g1.edges.dom().contains(to) {
                    assert(g1.order[i] == x);
                }
            }
            if g1.order.contains(x) {
                let i = choose|i: int| 0 <= i < g1.order.len() && g1.order[i] == x;
                assert(g2.order[i] == x);
            }
        }
        assert(g1.order.no_duplicates()) by {
            if !g.edges.dom().contains(from) {
                assert forall|a: int, b: int| 0 <= a < b < g1.order.len() implies g1.order[a] != g1.order[b] by {
                    if b == g.order.len() {
                        assert(g.order.contains(g.order[a]));
                    }
                }
            }
        }
        assert(g2.order.no_duplicates()) by {
            if !g1.edges.dom().contains(to) {
                assert forall|a: int, b: int| 0 <= a < b < g2.order.len() implies g2.order[a] != g2.order[b] by {
                    if b == g1.order.len() {
                        assert(g1.order.contains(g1.order[a]));
                    }
                }
            }
        }
        assert(g1.edges.dom().contains(from));
        assert(g2.edges.dom().contains(from));
        assert(g2.edges.dom().contains(to));
        assert(g2.order.contains(from) && g2.order.contains(to));
        lemma_total_bump(g2, g3, g2.order, from);
        lemma_total_bump(g3, g4, g2.order, to);
        assert forall|x: Seq<char>| x != from && x != to implies #[trigger] links_at(g4, x) == links_at(g, x) by {
            assert(links_at(g2, x) == links_at(g, x));
        }
    }
}

/// Removing an item from a well linked graph keeps it well linked and
/// leaves no link to the item.
pub proof fn lemma_remove_keeps(g: GraphView, item: Seq<char>)
    requires
        well_linked(g),
    ensures
        well_linked(remove_result(g, item)),
        forall|k: Seq<char>| #[trigger] remove_result(g, item).edges.dom().contains(k) ==> !links_to(remove_result(g, item).edges[k], item),
{
    let h = remove_result(g, item);
    if g.edges.dom().contains(item) {
        assert forall|k: Seq<char>| #[trigger] h.edges.dom().contains(k) implies !links_to(h.edges[k], item) && h.edges[k].len() <= g.edges[k].len()
            && forall|x: Seq<char>| links_to(h.edges[k], x) <==> links_to(g.edges[k], x) && x != item by {
            assert forall|x: Seq<char>| links_to(h.edges[k], x) <==> links_to(g.edges[k], x) && x != item by {
                lemma_drop_target(g.edges[k], item, x);
                if !links_to(g.edges[item], k) && links_to(g.edges[k], item) {
                    let i = choose|i: int| 0 <= i < g.edges[k].len() && (#[trigger] g.edges[k][i]).target == item;
                    assert(links_to(g.edges[g.edges[k][i].target], k));
                }
            }
            lemma_drop_target(g.edges[k], item, item);
        }
        assert forall|k: Seq<char>, i: int| #![trigger h.edges[k][i]] h.edges.dom().contains(k) && 0 <= i < h.edges[k].len() implies
            h.edges.dom().contains(h.edges[k][i].target) && links_to(h.edges[h.edges[k][i].target], k) by {
            let t = h.edges[k][i].target;
            assert(links_to(h.edges[k], t));
            assert(links_to(g.edges[k], t) && t != item);
            let j = choose|j: int| 0 <= j < g.edges[k].len() && (#[trigger] g.edges[k][j]).target == t;
            assert(links_to(g.edges[t], k));
            assert(h.edges.dom().contains(t));
        }
    }
}

/// The views of exported edges.
pub open spec fn edge_list_views(v: Seq<(ItemId, Vec<SeeAlsoLink>)>) -> Seq<(Seq<char>, Seq<LinkView>)> {
    v.map_values(|p: (ItemId, Vec<SeeAlsoLink>)| (p.0@, link_views(p.1@)))
}

/// The graph that imported edges make: later entries for an item replace
/// earlier ones, and items keep the order of their first entry.
pub open spec fn imported(ps: Seq<(Seq<char>, Seq<LinkView>)>, max_links: usize) -> GraphView
    decreases ps.len(),
{
    if ps.len() == 0 {
        GraphView { edges: Map::empty(), order: Seq::empty(), max_links }
    } else {
        let g = imported(ps.drop_last(), max_links);
        let (k, ls) = ps.last();
        GraphView {
            edges: g.edges.insert(k, ls),
            order: if g.order.contains(k) { g.order } else { g.order.push(k) },
            max_links,
        }
    }
}

/// What a breadth-first walk from `s` over at most `max_hops` links
/// reports: every other item in reach once, with its distance, nearer
/// items first.
pub open spec fn bfs_result(e: Map<Seq<char>, Seq<LinkView>>, s: Seq<char>, max_hops: u32, hv: Seq<(Seq<char>, u32)>) -> bool {
    &&& forall|i: int| 0 <= i < hv.len() ==> 1 <= #[trigger] hv[i].1 <= max_hops && at_distance(e, s, hv[i].0, hv[i].1 as nat)
    &&& forall|i: int, j: int| 0 <= i < j < hv.len() ==> #[trigger] hv[i].0 != #[trigger] hv[j].0 && hv[i].1 <= hv[j].1
    &&& forall|t: Seq<char>| #[trigger] within(e, s, max_hops as nat).contains(t) && t != s ==> exists|i: int| 0 <= i < hv.len() && #[trigger] hv[i].0 == t
}

/// The "see also" graph.
pub struct SeeAlsoGraph {
    edges: StrMap<Vec<SeeAlsoLink>>,
    max_links: usize,
}

/// Copy links.
pub(crate) fn copy_links(v: &Vec<SeeAlsoLink>) -> (r: Vec<SeeAlsoLink>)
    ensures
        r@ == v@,
{
    let mut r: Vec<SeeAlsoLink> = Vec::new();
    let mut i: usize = 0;
    while i < v.len()
        invariant
            i <= v@.len(),
            r@ == v@.take(i as int),
        decreases v@.len() - i,
    {
        r.push(v[i].clone());
        i = i + 1;
        assert(r@ =~= v@.take(i as int));
    }
    assert(v@.take(v@.len() as int) =~= v@);
    r
}

/// Whether some link points at `t`.
fn has_target(v: &Vec<SeeAlsoLink>, t: &ItemId) -> (r: bool)
    ensures
        r == links_to(link_views(v@), t@),
{
    let mut i: usize = 0;
    while i < v.len()
        invariant
            i <= v@.len(),
            forall|j: int| 0 <= j < i ==> v@[j].target@ != t@,
        decreases v@.len() - i,
    {
        if crate::text::str_eq(v[i].target.0.as_str(), t.0.as_str()) {
            assert(link_views(v@)[i as int].target == t@);
            return true;
        }
        i = i + 1;
    }
    proof {
        if links_to(link_views(v@), t@) {
            let j = choose|j: int| 0 <= j < link_views(v@).len() && (#[trigger] link_views(v@)[j]).target == t@;
            assert(v@[j].target@ == t@);
        }
    }
    false
}

impl View for SeeAlsoGraph {
    type V = GraphView;

    closed spec fn view(&self) -> GraphView {
        GraphView {
            edges: self.edges.map().map_values(|v: Vec<SeeAlsoLink>| link_views(v@)),
            order: self.edges.key_seq(),
            max_links: self.max_links,
        }
    }
}

impl SeeAlsoGraph {
    #[verifier::type_invariant]
    spec fn inv(self) -> bool {
        self.edges.wf()
    }

    /// An empty graph with a link limit per item.
    pub fn new(max_links: usize) -> (g: Self)
        ensures
            g@.edges == Map::<Seq<char>, Seq<LinkView>>::empty(),
            g@.order == Seq::<Seq<char>>::empty(),
            g@.max_links == max_links,
    {
        let g = SeeAlsoGraph { edges: StrMap::new(), max_links };
        assert(g@.edges =~= Map::<Seq<char>, Seq<LinkView>>::empty());
        g
    }

    /// Enter an item with no links if it is absent; its position.
    fn enter(&mut self, k: &ItemId) -> (i: usize)
        ensures
            final(self)@ == with_item(old(self)@, k@),
            i < final(self)@.order.len(),
            final(self)@.order[i as int] == k@,
    {
        proof { use_type_invariant(&*self); self.edges.lemma_wf(); }
        let ghost g0 = self@;
        match self.edges.find(k.0.as_str()) {
            Some(i) => {
                assert(self@.edges.dom().contains(k@));
                i
            },
            None => {
                let mut m = StrMap::new();
                std::mem::swap(&mut m, &mut self.edges);
                let empty: Vec<SeeAlsoLink> = Vec::new();
                assert(link_views(empty@) =~= Seq::<LinkView>::empty());
                m.insert(k.0.clone(), empty);
                self.edges = m;
                proof {
                    self.edges.lemma_wf();
                    assert(self@.edges =~= g0.edges.insert(k@, Seq::empty()));
                    assert(!g0.edges.dom().contains(k@));
                }
                let n = self.edges.len();
                n - 1
            },
        }
    }

    /// Append a link to the item at position `i`.
    fn append(&mut self, i: usize, l: SeeAlsoLink)
        requires
            i < old(self)@.order.len(),
        ensures
            final(self)@ == with_link(old(self)@, old(self)@.order[i as int], l@),
    {
        proof { use_type_invariant(&*self); self.edges.lemma_wf(); }
        let ghost g0 = self@;
        let ghost key = self@.order[i as int];
        let mut v = copy_links(self.edges.val_at(i));
        let ghost lv = l@;
        v.push(l);
        let mut m = StrMap::new();
        std::mem::swap(&mut m, &mut self.edges);
        let ghost vs = link_views(v@);
        m.set_at(i, v);
        self.edges = m;
        proof {
            assert(g0.edges[key] == link_views(old(self).edges.val_seq()[i as int]@));
            assert(vs =~= g0.edges[key].push(lv));
            assert(self@.edges =~= g0.edges.insert(key, g0.edges[key].push(lv)));
        }
    }

    /// Link `from` to `to` both ways (the reverse with the inverse
    /// relationship). Fails if either item is at its link limit; otherwise an
    /// existing link counts as success. Both items are entered either way.
    pub fn add_link(&mut self, from: ItemId, to: ItemId, relationship: Relationship, note: String) -> (r: bool)
        ensures
            (r, final(self)@) == add_link_result(old(self)@, from@, to@, relationship, note@),
    {
        let fi = self.enter(&from);
        proof { use_type_invariant(&*self); self.edges.lemma_wf(); }
        assert(self@.edges[from@] == link_views(self.edges.val_seq()[fi as int]@));
        if self.edges.val_at(fi).len() >= self.max_links {
            return false;
        }
        let ti = self.enter(&to);
        proof { use_type_invariant(&*self); self.edges.lemma_wf(); }
        assert(self@.edges[to@] == link_views(self.edges.val_seq()[ti as int]@));
        if self.edges.val_at(ti).len() >= self.max_links {
            return false;
        }
        let fi2 = self.enter(&from);
        proof {
            assert(with_item(self@, from@) == self@);
            use_type_invariant(&*self);
            self.edges.lemma_wf();
        }
        assert(self@.edges[from@] == link_views(self.edges.val_seq()[fi2 as int]@));
        if has_target(self.edges.val_at(fi2), &to) {
            return true;
        }
        let back = invert_relationship(relationship);
        self.append(fi2, SeeAlsoLink { target: to.clone(), relationship, note: note.clone() });
        let ti2 = self.enter(&to);
        proof { assert(with_item(self@, to@) == self@); }
        self.append(ti2, SeeAlsoLink { target: from, relationship: back, note });
        true
    }

    /// The links of an item (none if it is absent).
    pub fn get_links(&self, item: &ItemId) -> (r: &[SeeAlsoLink])
        ensures
            self@.edges.dom().contains(item@) ==> link_views(r@) == self@.edges[item@],
            !self@.edges.dom().contains(item@) ==> r@.len() == 0,
    {
        proof { use_type_invariant(self); }
        match self.edges.get(item.0.as_str()) {
            Some(v) => v.as_slice(),
            None => &[],
        }
    }

    /// Remove an item and every link back to it.
    pub fn remove_item(&mut self, item: &ItemId)
        ensures
            final(self)@ == remove_result(old(self)@, item@),
    {
        proof { use_type_invariant(&*self); self.edges.lemma_wf(); }
        let ghost g0 = self@;
        let mut m = StrMap::new();
        std::mem::swap(&mut m, &mut self.edges);
        let removed = m.remove(item.0.as_str());
        match removed {
            None => {
                self.edges = m;
                proof {
                    assert(self@.edges =~= g0.edges);
                    assert(!g0.edges.dom().contains(item@));
                }
            },
            Some(links) => {
                let ghost lv = link_views(links@);
                assert(lv == g0.edges[item@]);
                proof {
                    m.lemma_wf();
                    assert(old(self).edges.key_seq().contains(item@));
                    assert forall|j: int| 0 <= j < m.key_seq().len() implies #[trigger] link_views(m.val_seq()[j]@) == g0.edges[m.key_seq()[j]] by {
                        assert(m.map()[m.key_seq()[j]] == m.val_seq()[j]);
                        assert(m.map().dom().contains(m.key_seq()[j]));
                    }
                }
                // Walk the remaining items in order, dropping links to `item`
                // from those `item` linked to.
                let n = m.len();
                let mut i: usize = 0;
                while i < n
                    invariant
                        m.wf(),
                        n == m.key_seq().len(),
                        i <= n,
                        lv == g0.edges[item@],
                        lv == link_views(links@),
                        g0.edges.dom().contains(item@),
                        forall|k: Seq<char>| #[trigger] m.map().dom().contains(k) <==> g0.edges.dom().contains(k) && k != item@,
                        m.key_seq() == g0.order.remove(g0.order.index_of(item@)),
                        m.key_seq().no_duplicates(),
                        forall|j: int| 0 <= j < n ==> #[trigger] link_views(m.val_seq()[j]@) == (if j < i && links_to(lv, m.key_seq()[j]) {
                            drop_target(g0.edges[m.key_seq()[j]], item@)
                        } else {
                            g0.edges[m.key_seq()[j]]
                        }),
                    decreases n - i,
                {
                    proof { m.lemma_wf(); }
                    let key = m.key_at(i);
                    let k = ItemId(key.clone());
                    if has_target(&links, &k) {
                        let old_links = m.val_at(i);
                        let mut kept: Vec<SeeAlsoLink> = Vec::new();
                        let mut j: usize = 0;
                        while j < old_links.len()
                            invariant
                                j <= old_links@.len(),
                                link_views(kept@) == drop_target(link_views(old_links@.take(j as int)), item@),
                            decreases old_links@.len() - j,
                        {
                            let ghost before = link_views(kept@);
                            if !crate::text::str_eq(old_links[j].target.0.as_str(), item.0.as_str()) {
                                kept.push(old_links[j].clone());
                                assert(link_views(kept@) =~= before.push(old_links@[j as int]@));
                            }
                            proof {
                                let s = link_views(old_links@.take(j + 1));
                                assert(s =~= link_views(old_links@.take(j as int)).push(old_links@[j as int]@));
                                assert(s.drop_last() =~= link_views(old_links@.take(j as int)));
                                reveal(Seq::filter);
                            }
                            j = j + 1;
                        }
                        assert(old_links@.take(old_links@.len() as int) =~= old_links@);
                        let ghost kv = link_views(kept@);
                        let ghost vs0 = m.val_seq();
                        let ghost ks0 = m.key_seq();
                        let ghost mp0 = m.map();
                        assert(k@ == ks0[i as int]);
                        assert(links_to(lv, ks0[i as int]));
                        proof {
                            assert(link_views(vs0[i as int]@) == g0.edges[ks0[i as int]]);
                            assert(kv == drop_target(g0.edges[ks0[i as int]], item@));
                            assert forall|j2: int| 0 <= j2 < n && j2 != i implies link_views(vs0[j2]@) == (if j2 < i + 1 && links_to(lv, ks0[j2]) {
                                drop_target(g0.edges[ks0[j2]], item@)
                            } else {
                                g0.edges[ks0[j2]]
                            }) by {
                                assert(link_views(vs0[j2]@) == (if j2 < i && links_to(lv, ks0[j2]) {
                                    drop_target(g0.edges[ks0[j2]], item@)
                                } else {
                                    g0.edges[ks0[j2]]
                                }));
                            }
                        }
                        m.set_at(i, kept);
                        proof {
                            m.lemma_wf();
                            assert forall|j2: int| 0 <= j2 < n implies #[trigger] link_views(m.val_seq()[j2]@) == (if j2 < i + 1 && links_to(lv, m.key_seq()[j2]) {
                                drop_target(g0.edges[m.key_seq()[j2]], item@)
                            } else {
                                g0.edges[m.key_seq()[j2]]
                            }) by {
                                if j2 == i {
                                    assert(m.key_seq()[j2] == ks0[j2]);
                                    assert(link_views(m.val_seq()[j2]@) == kv);
                                } else {
                                    assert(m.val_seq()[j2] == vs0[j2]);
                                }
                            }
                            assert(mp0.dom().contains(ks0[i as int]));
                            assert(m.map().dom() =~= mp0.dom());
                        }
                    }
                    i = i + 1;
                }
                self.edges = m;
                proof {
                    self.edges.lemma_wf();
                    let r = remove_result(g0, item@);
                    assert forall|k: Seq<char>| #[trigger] self@.edges.dom().contains(k) implies self@.edges[k] == r.edges[k] by {
                        let j = self.edges.key_seq().index_of(k);
                        assert(self.edges.key_seq()[j] == k);
                        assert(self.edges.map()[k] == self.edges.val_seq()[j]);
                    }
                    assert(self@.edges =~= r.edges);
                }
            },
        }
    }

    /// Visit the items one link beyond the frontier, in frontier and link
    /// order: each target not seen before is appended to `visited`, `next`
    /// and `results` (with `hop`).
    fn expand_layer(
        &self,
        frontier: &Vec<String>,
        visited: &mut Vec<String>,
        next: &mut Vec<String>,
        results: &mut Vec<(ItemId, u32)>,
        hop: u32,
    )
        requires
            views(old(next)@) == Seq::<Seq<char>>::empty(),
            views(old(visited)@).no_duplicates(),
        ensures
            views(final(visited)@) == views(old(visited)@) + views(final(next)@),
            views(final(visited)@).no_duplicates(),
            views(final(visited)@).to_set() == views(old(visited)@).to_set() + step(self@.edges, views(frontier@).to_set()),
            hop_views(final(results)@) == hop_views(old(results)@) + views(final(next)@).map_values(|t: Seq<char>| (t, hop)),
            views(final(visited)@) == add_missing(views(old(visited)@), layer_targets(self@.edges, views(frontier@))),
    {
        proof { use_type_invariant(self); self.edges.lemma_wf(); }
        let ghost e = self@.edges;
        let ghost f = views(frontier@);
        let ghost v0 = views(visited@);
        let ghost r0 = hop_views(results@);
        let mut i: usize = 0;
        assert(layer_targets(e, f.take(0)) =~= Seq::<Seq<char>>::empty());
        while i < frontier.len()
            invariant
                i <= frontier@.len(),
                e == self@.edges,
                f == views(frontier@),
                self.edges.wf(),
                views(visited@) == v0 + views(next@),
                views(visited@).no_duplicates(),
                views(visited@).to_set() == v0.to_set() + expanded(e, f, i as int, 0),
                hop_views(results@) == r0 + views(next@).map_values(|t: Seq<char>| (t, hop)),
                views(visited@) == add_missing(v0, layer_targets(e, f.take(i as int))),
            decreases frontier@.len() - i,
        {
            let item = frontier[i].as_str();
            assert(f[i as int] == item@);
            match self.edges.get(item) {
                Some(links) => {
                    let ghost ls = link_views(links@);
                    assert(e[item@] == ls);
                    let mut j: usize = 0;
                    assert(layer_targets(e, f.take(i as int)) + targets(ls.take(0)) =~= layer_targets(e, f.take(i as int)));
                    while j < links.len()
                        invariant
                            j <= links@.len(),
                            e == self@.edges,
                            f == views(frontier@),
                            i < f.len(),
                            f[i as int] == item@,
                            e.dom().contains(item@),
                            e[item@] == ls,
                            ls == link_views(links@),
                            views(visited@) == v0 + views(next@),
                            views(visited@).no_duplicates(),
                            views(visited@).to_set() == v0.to_set() + expanded(e, f, i as int, j as int),
                            hop_views(results@) == r0 + views(next@).map_values(|t: Seq<char>| (t, hop)),
                            views(visited@) == add_missing(v0, layer_targets(e, f.take(i as int)) + targets(ls.take(j as int))),
                        decreases links@.len() - j,
                    {
                        let t = &links[j].target.0;
                        assert(ls[j as int].target == t@);
                        let ghost vs = views(visited@);
                        let ghost ns = views(next@);
                        let ghost rs = hop_views(results@);
                        proof {
                            let pre = layer_targets(e, f.take(i as int)) + targets(ls.take(j as int));
                            assert(layer_targets(e, f.take(i as int)) + targets(ls.take(j + 1)) =~= pre.push(t@));
                            assert(pre.push(t@).drop_last() =~= pre);
                            assert forall|x: Seq<char>| #[trigger] expanded(e, f, i as int, j + 1).contains(x) <==> expanded(e, f, i as int, j as int).insert(t@).contains(x) by {
                                    let a = ls.take(j + 1);
                                    let b = ls.take(j as int);
                                    if links_to(a, x) {
                                        let k = choose|k: int| 0 <= k < a.len() && (#[trigger] a[k]).target == x;
                                        if k < j { assert(b[k] == a[k]); }
                                    }
                                    if links_to(b, x) {
                                        let k = choose|k: int| 0 <= k < b.len() && (#[trigger] b[k]).target == x;
                                        assert(a[k] == b[k]);
                                    }
                                    if x == t@ {
                                        assert(a[j as int].target == x);
                                    }
                            }
                            assert(expanded(e, f, i as int, j + 1) =~= expanded(e, f, i as int, j as int).insert(t@));
                        }
                        if !contains_string(visited, t) {
                            visited.push(t.clone());
                            next.push(t.clone());
                            results.push((ItemId(t.clone()), hop));
                            proof {
                                assert(views(visited@) =~= vs.push(t@));
                                assert(views(next@) =~= ns.push(t@));
                                assert(hop_views(results@) =~= rs.push((t@, hop)));
                                assert(views(visited@) =~= v0 + views(next@));
                                assert(views(next@).map_values(|t: Seq<char>| (t, hop)) =~= ns.map_values(|t: Seq<char>| (t, hop)).push((t@, hop)));
                                assert(hop_views(results@) =~= r0 + views(next@).map_values(|t: Seq<char>| (t, hop)));
                                vs.lemma_push_to_set_commute(t@);
                                assert forall|a: int, b: int| 0 <= a < b < views(visited@).len() implies views(visited@)[a] != views(visited@)[b] by {
                                    if b == vs.len() {
                                        assert(vs.contains(vs[a]));
                                    }
                                }
                                assert(views(visited@).to_set() =~= v0.to_set() + expanded(e, f, i as int, j + 1));
                            }
                        } else {
                            proof {
                                assert(vs.to_set().contains(t@));
                                assert(views(visited@).to_set() =~= v0.to_set() + expanded(e, f, i as int, j + 1));
                            }
                        }
                        j = j + 1;
                    }
                    proof {
                        assert(ls.take(ls.len() as int) =~= ls);
                        assert(f.take(i + 1).drop_last() =~= f.take(i as int));
                        assert(f.take(i + 1).last() == item@);
                        assert(layer_targets(e, f.take(i + 1)) == layer_targets(e, f.take(i as int)) + targets(ls));
                        assert forall|x: Seq<char>| expanded(e, f, i as int, j as int).contains(x) <==> expanded(e, f, i + 1, 0).contains(x) by {
                            if links_to(ls.take(j as int), x) {
                                assert(adjacent(e, f[i as int], x));
                            }
                            if exists|k: int| 0 <= k < i + 1 && #[trigger] adjacent(e, f[k], x) {
                                let k = choose|k: int| 0 <= k < i + 1 && #[trigger] adjacent(e, f[k], x);
                                if k == i {
                                    assert(links_to(ls.take(j as int), x));
                                }
                            }
                            assert(ls.take(0).len() == 0);
                            assert(!links_to(e[f[i + 1]].take(0), x));
                        }
                        assert(expanded(e, f, i as int, j as int) =~= expanded(e, f, i + 1, 0));
                    }
                },
                None => {
                    proof {
                        assert(f.take(i + 1).drop_last() =~= f.take(i as int));
                        assert(f.take(i + 1).last() == item@);
                        assert(layer_targets(e, f.take(i + 1)) =~= layer_targets(e, f.take(i as int)));
                        assert forall|x: Seq<char>| expanded(e, f, i as int, 0).contains(x) <==> expanded(e, f, i + 1, 0).contains(x) by {
                            if exists|k: int| 0 <= k < i + 1 && #[trigger] adjacent(e, f[k], x) {
                                let k = choose|k: int| 0 <= k < i + 1 && #[trigger] adjacent(e, f[k], x);
                                assert(k != i);
                            }
                            assert(!links_to(e[f[i as int]].take(0), x));
                            assert(!links_to(e[f[i + 1]].take(0), x));
                        }
                        assert(expanded(e, f, i as int, 0) =~= expanded(e, f, i + 1, 0));
                    }
                },
            }
            i = i + 1;
        }
        proof {
            assert(f.take(f.len() as int) =~= f);
            assert forall|x: Seq<char>| expanded(e, f, f.len() as int, 0).contains(x) <==> step(e, f.to_set()).contains(x) by {
                assert(!links_to(e[f[f.len() as int]].take(0), x));
                if exists|k: int| 0 <= k < f.len() && #[trigger] adjacent(e, f[k], x) {
                    let k = choose|k: int| 0 <= k < f.len() && #[trigger] adjacent(e, f[k], x);
                    assert(f.to_set().contains(f[k]));
                }
                if step(e, f.to_set()).contains(x) {
                    let u = choose|u: Seq<char>| f.to_set().contains(u) && #[trigger] adjacent(e, u, x);
                    let k = choose|k: int| 0 <= k < f.len() && f[k] == u;
                    assert(adjacent(e, f[k], x));
                }
            }
            assert(expanded(e, f, f.len() as int, 0) =~= step(e, f.to_set()));
        }
    }

    /// Breadth-first walk from `start` over at most `max_hops` links: every
    /// other item within that many links, once, with its distance, nearer
    /// items first; within a distance, in the order of the items of the
    /// layer before and then of their links (`walk_hops`).
    pub fn traverse(&self, start: &ItemId, max_hops: u32) -> (r: Vec<(ItemId, u32)>)
        ensures
            bfs_result(self@.edges, start@, max_hops, hop_views(r@)),
            hop_views(r@) == walk_hops(self@.edges, start@, max_hops as nat),
    {
        let ghost e = self@.edges;
        let ghost s = start@;
        let mut visited: Vec<String> = Vec::new();
        visited.push(start.0.clone());
        let mut frontier: Vec<String> = Vec::new();
        frontier.push(start.0.clone());
        let mut results: Vec<(ItemId, u32)> = Vec::new();
        let mut d: u32 = 0;
        proof {
            assert(views(visited@) =~= seq![s]);
            assert(views(frontier@) =~= seq![s]);
            assert forall|x: Seq<char>| seq![s].to_set().contains(x) <==> within(e, s, 0).contains(x) by {
                assert(seq![s][0] == s);
                if seq![s].contains(x) {
                    let k = choose|k: int| 0 <= k < 1 && seq![s][k] == x;
                }
            }
            assert(seq![s].to_set() =~= within(e, s, 0));
            assert(within(e, s, 0).difference(closer(e, s, 0)) =~= within(e, s, 0));
            assert(hop_views(results@).map_values(|p: (Seq<char>, u32)| p.0) =~= Seq::<Seq<char>>::empty());
            assert(views(visited@) =~= seq![s] + hop_views(results@).map_values(|p: (Seq<char>, u32)| p.0));
        }
        while d < max_hops && frontier.len() > 0
            invariant
                e == self@.edges,
                s == start@,
                d <= max_hops,
                views(visited@) == seq![s] + hop_views(results@).map_values(|p: (Seq<char>, u32)| p.0),
                views(visited@).no_duplicates(),
                views(visited@).to_set() == within(e, s, d as nat),
                views(frontier@).to_set() == within(e, s, d as nat).difference(closer(e, s, d as nat)),
                forall|i: int| 0 <= i < results@.len() ==> 1 <= #[trigger] hop_views(results@)[i].1 <= d
                    && at_distance(e, s, hop_views(results@)[i].0, hop_views(results@)[i].1 as nat),
                forall|i: int, j: int| 0 <= i < j < results@.len() ==> #[trigger] hop_views(results@)[i].1 <= #[trigger] hop_views(results@)[j].1,
                walk(e, s, d as nat) == (views(visited@), views(frontier@)),
                hop_views(results@) == walk_hops(e, s, d as nat),
            decreases max_hops - d,
        {
            let ghost v0 = views(visited@);
            let ghost r0 = hop_views(results@);
            let ghost f = views(frontier@);
            let mut next: Vec<String> = Vec::new();
            assert(views(next@) =~= Seq::<Seq<char>>::empty());
            self.expand_layer(&frontier, &mut visited, &mut next, &mut results, d + 1);
            proof {
                let n = views(next@);
                assert(walk(e, s, (d + 1) as nat).0 == views(visited@));
                assert(views(visited@).skip(v0.len() as int) =~= n);
                assert(walk(e, s, (d + 1) as nat) == (views(visited@), n));
                assert(walk_hops(e, s, (d + 1) as nat) == walk_hops(e, s, d as nat) + n.map_values(|t: Seq<char>| (t, (d + 1) as u32)));
                lemma_next_layer(e, s, d as nat, f.to_set());
                lemma_within_grows(e, s, d as nat, (d + 1) as nat);
                vstd::seq_lib::seq_to_set_distributes_over_add(v0, n);
                let tv = |p: (Seq<char>, u32)| p.0;
                let nh = n.map_values(|t: Seq<char>| (t, (d + 1) as u32));
                assert(hop_views(results@) == r0 + nh);
                assert((r0 + nh).map_values(tv) =~= r0.map_values(tv) + nh.map_values(tv));
                assert(nh.map_values(tv) =~= n);
                assert(views(visited@) =~= seq![s] + hop_views(results@).map_values(tv));
                // The new frontier is what this layer added.
                assert forall|x: Seq<char>| n.to_set().contains(x) <==> within(e, s, (d + 1) as nat).difference(closer(e, s, (d + 1) as nat)).contains(x) by {
                    let all = views(visited@);
                    if n.contains(x) {
                        let k = choose|k: int| 0 <= k < n.len() && n[k] == x;
                        assert(all[v0.len() + k] == x);
                        if v0.contains(x) {
                            let k0 = choose|k0: int| 0 <= k0 < v0.len() && v0[k0] == x;
                            assert(all[k0] == x);
                        }
                        assert(all.to_set().contains(x));
                    }
                    if within(e, s, (d + 1) as nat).contains(x) && !within(e, s, d as nat).contains(x) {
                        assert(all.to_set().contains(x));
                        let k = choose|k: int| 0 <= k < all.len() && all[k] == x;
                        if k < v0.len() {
                            assert(v0[k] == x);
                            assert(v0.to_set().contains(x));
                        } else {
                            assert(n[k - v0.len()] == x);
                        }
                    }
                }
                assert(n.to_set() =~= within(e, s, (d + 1) as nat).difference(closer(e, s, (d + 1) as nat)));
                // Each new result is at its distance.
                assert forall|i: int| 0 <= i < results@.len() implies 1 <= #[trigger] hop_views(results@)[i].1 <= d + 1
                    && at_distance(e, s, hop_views(results@)[i].0, hop_views(results@)[i].1 as nat) by {
                    if i >= r0.len() {
                        let x = n[i - r0.len()];
                        assert(hop_views(results@)[i] == (x, (d + 1) as u32));
                        assert(n.to_set().contains(x));
                    } else {
                        assert(hop_views(results@)[i] == r0[i]);
                    }
                }
                assert forall|i: int, j: int| 0 <= i < j < results@.len() implies #[trigger] hop_views(results@)[i].1 <= #[trigger] hop_views(results@)[j].1 by {
                    if j >= r0.len() {
                        assert(hop_views(results@)[j].1 == d + 1);
                        if i < r0.len() {
                            assert(hop_views(results@)[i] == r0[i]);
                        }
                    } else {
                        assert(hop_views(results@)[i] == r0[i] && hop_views(results@)[j] == r0[j]);
                    }
                }
            }
            frontier = next;
            d = d + 1;
        }
        proof {
            let hv = hop_views(results@);
            let all = views(visited@);
            let tv = |p: (Seq<char>, u32)| p.0;
            if d < max_hops {
                // The walk ran out of new items: nothing further is in reach.
                assert(views(frontier@).len() == 0);
                assert(views(frontier@).to_set() =~= Set::<Seq<char>>::empty());
                if d == 0 {
                    assert(within(e, s, 0).contains(s));
                    assert(views(frontier@).to_set().contains(s));
                }
                assert(d > 0);
                lemma_within_grows(e, s, (d - 1) as nat, d as nat);
                assert forall|x: Seq<char>| within(e, s, d as nat).contains(x) implies within(e, s, (d - 1) as nat).contains(x) by {
                    assert(!views(frontier@).to_set().contains(x));
                    assert(!within(e, s, d as nat).difference(closer(e, s, d as nat)).contains(x));
                }
                assert(within(e, s, d as nat) =~= within(e, s, (d - 1) as nat));
                lemma_within_settles(e, s, (d - 1) as nat, max_hops as nat);
                lemma_walk_settles(e, s, d as nat, max_hops as nat);
            }
            assert forall|t: Seq<char>| #[trigger] within(e, s, max_hops as nat).contains(t) && t != s implies exists|i: int| 0 <= i < results@.len() && #[trigger] hop_views(results@)[i].0 == t by {
                assert(all.to_set().contains(t));
                let k = choose|k: int| 0 <= k < all.len() && all[k] == t;
                assert(k > 0);
                assert(hv.map_values(tv)[k - 1] == t);
                assert(hv[k - 1].0 == t);
            }
            assert forall|i: int, j: int| 0 <= i < j < results@.len() implies #[trigger] hop_views(results@)[i].0 != #[trigger] hop_views(results@)[j].0 by {
                assert(all[i + 1] == hv[i].0);
                assert(all[j + 1] == hv[j].0);
            }
        }
        results
    }

    /// The number of links on a shortest path from `from` to `to`, if any.
    pub fn shortest_path(&self, from: &ItemId, to: &ItemId) -> (r: Option<u32>)
        requires
            all_targets(self@.edges).len() < u32::MAX,
        ensures
            match r {
                Some(d) => at_distance(self@.edges, from@, to@, d as nat),
                None => forall|k: nat| !(#[trigger] within(self@.edges, from@, k)).contains(to@),
            },
    {
        let ghost e = self@.edges;
        let ghost s = from@;
        if crate::text::str_eq(from.0.as_str(), to.0.as_str()) {
            assert(within(e, s, 0).contains(to@));
            return Some(0);
        }
        let ghost u = all_targets(e).insert(s);
        proof {
            use_type_invariant(self);
            self.edges.lemma_wf();
            lemma_targets_finite(e, self@.order);
        }
        let ghost ulen = u.len();
        let mut visited: Vec<String> = Vec::new();
        visited.push(from.0.clone());
        let mut frontier: Vec<String> = Vec::new();
        frontier.push(from.0.clone());
        let mut d: u32 = 0;
        proof {
            assert(views(visited@) =~= seq![s]);
            assert(views(frontier@) =~= seq![s]);
            assert forall|x: Seq<char>| seq![s].to_set().contains(x) <==> within(e, s, 0).contains(x) by {
                assert(seq![s][0] == s);
                if seq![s].contains(x) {
                    let k = choose|k: int| 0 <= k < 1 && seq![s][k] == x;
                }
            }
            assert(seq![s].to_set() =~= within(e, s, 0));
            assert(within(e, s, 0).difference(closer(e, s, 0)) =~= within(e, s, 0));
        }
        while frontier.len() > 0
            invariant
                e == self@.edges,
                s == from@,
                s != to@,
                u == all_targets(e).insert(s),
                u.finite(),
                ulen == u.len(),
                ulen <= u32::MAX,
                views(visited@).no_duplicates(),
                views(visited@).to_set() == within(e, s, d as nat),
                views(frontier@).to_set() == within(e, s, d as nat).difference(closer(e, s, d as nat)),
                !within(e, s, d as nat).contains(to@),
                views(visited@).len() <= ulen,
                views(visited@).len() >= d,
                frontier@.len() > 0 ==> views(visited@).len() >= d + 1,
            decreases ulen - views(visited@).len(), frontier@.len(),
        {
            let ghost v0 = views(visited@);
            let ghost f = views(frontier@);
            let mut next: Vec<String> = Vec::new();
            let mut results: Vec<(ItemId, u32)> = Vec::new();
            assert(views(next@) =~= Seq::<Seq<char>>::empty());
            assert(d + 1 <= u32::MAX);
            self.expand_layer(&frontier, &mut visited, &mut next, &mut results, d + 1);
            proof {
                let n = views(next@);
                let all = views(visited@);
                lemma_next_layer(e, s, d as nat, f.to_set());
                lemma_within_grows(e, s, d as nat, (d + 1) as nat);
                lemma_within_targets(e, s, (d + 1) as nat);
                vstd::seq_lib::seq_to_set_distributes_over_add(v0, n);
                all.unique_seq_to_set();
                vstd::set_lib::lemma_len_subset(all.to_set(), u);
                assert forall|x: Seq<char>| n.to_set().contains(x) <==> within(e, s, (d + 1) as nat).difference(closer(e, s, (d + 1) as nat)).contains(x) by {
                    if n.contains(x) {
                        let k = choose|k: int| 0 <= k < n.len() && n[k] == x;
                        assert(all[v0.len() + k] == x);
                        if v0.contains(x) {
                            let k0 = choose|k0: int| 0 <= k0 < v0.len() && v0[k0] == x;
                            assert(all[k0] == x);
                        }
                        assert(all.to_set().contains(x));
                    }
                    if within(e, s, (d + 1) as nat).contains(x) && !within(e, s, d as nat).contains(x) {
                        assert(all.to_set().contains(x));
                        let k = choose|k: int| 0 <= k < all.len() && all[k] == x;
                        if k < v0.len() {
                            assert(v0[k] == x);
                            assert(v0.to_set().contains(x));
                        } else {
                            assert(n[k - v0.len()] == x);
                        }
                    }
                }
                assert(n.to_set() =~= within(e, s, (d + 1) as nat).difference(closer(e, s, (d + 1) as nat)));
            }
            if contains_string(&next, &to.0) {
                proof {
                    assert(views(next@).to_set().contains(to@));
                }
                return Some(d + 1);
            }
            proof {
                let n = views(next@);
                if within(e, s, (d + 1) as nat).contains(to@) {
                    assert(n.to_set().contains(to@));
                }
            }
            frontier = next;
            d = d + 1;
        }
        proof {
            assert(views(frontier@).to_set() =~= Set::<Seq<char>>::empty());
            if d == 0 {
                assert(within(e, s, 0).contains(s));
                assert(views(frontier@).to_set().contains(s));
            }
            lemma_within_grows(e, s, (d - 1) as nat, d as nat);
            assert forall|x: Seq<char>| within(e, s, d as nat).contains(x) implies within(e, s, (d - 1) as nat).contains(x) by {
                assert(!views(frontier@).to_set().contains(x));
                assert(!within(e, s, d as nat).difference(closer(e, s, d as nat)).contains(x));
            }
            assert(within(e, s, d as nat) =~= within(e, s, (d - 1) as nat));
            assert forall|k: nat| !(#[trigger] within(e, s, k)).contains(to@) by {
                if k >= d {
                    lemma_within_settles(e, s, (d - 1) as nat, k);
                } else {
                    lemma_within_grows(e, s, k, d as nat);
                }
            }
        }
        None
    }

    /// The links of an item as plain text problems: targets that are not
    /// items, links without a link back, and items over the limit, item by
    /// item in the order they entered the graph.
    pub fn validate(&self) -> (errors: Vec<String>)
        ensures
            views(errors@) == graph_errors(self@, self@.order),
    {
        proof {
            use_type_invariant(self);
            self.edges.lemma_wf();
            reveal_strlit("link from ");
            reveal_strlit(" to ");
            reveal_strlit(" points to non-existent item");
            reveal_strlit(" has no reverse link");
            reveal_strlit("item ");
            reveal_strlit(" has ");
            reveal_strlit(" links, exceeding max ");
            reveal_strlit("");
        }
        let ghost g = self@;
        let mut errors: Vec<String> = Vec::new();
        let n = self.edges.len();
        let mut i: usize = 0;
        while i < n
            invariant
                g == self@,
                self.edges.wf(),
                n == g.order.len(),
                i <= n,
                views(errors@) == graph_errors(g, g.order.take(i as int)),
            decreases n - i,
        {
            proof { self.edges.lemma_wf(); }
            let item = self.edges.key_at(i);
            let links = self.edges.val_at(i);
            let ghost ls = link_views(links@);
            assert(g.edges[item@] == ls) by {
                assert(self.edges.map()[self.edges.key_seq()[i as int]] == self.edges.val_seq()[i as int]);
            }
            let ghost base = views(errors@);
            let mut j: usize = 0;
            while j < links.len()
                invariant
                    g == self@,
                    self.edges.wf(),
                    j <= links@.len(),
                    ls == link_views(links@),
                    views(errors@) == base + link_errors(g, item@, ls.take(j as int)),
                decreases links@.len() - j,
            {
                proof { self.edges.lemma_wf(); }
                let t = &links[j].target;
                let ghost before = views(errors@);
                assert(ls.take(j + 1).drop_last() =~= ls.take(j as int));
                assert(ls.take(j + 1).last().target == t@);
                match self.edges.get(t.0.as_str()) {
                    None => {
                        let mut m = String::new();
                        push_str(&mut m, "link from ");
                        push_str(&mut m, item.as_str());
                        push_str(&mut m, " to ");
                        push_str(&mut m, t.0.as_str());
                        push_str(&mut m, " points to non-existent item");
                        let ghost mv = m@;
                        errors.push(m);
                        assert(views(errors@) =~= before.push(mv));
                    },
                    Some(back) => {
                        let it = ItemId(item.clone());
                        if !has_target(back, &it) {
                            let mut m = String::new();
                            push_str(&mut m, "link from ");
                            push_str(&mut m, item.as_str());
                            push_str(&mut m, " to ");
                            push_str(&mut m, t.0.as_str());
                            push_str(&mut m, " has no reverse link");
                            let ghost mv = m@;
                            errors.push(m);
                            assert(views(errors@) =~= before.push(mv));
                        }
                    },
                }
                j = j + 1;
            }
            assert(ls.take(ls.len() as int) =~= ls);
            if links.len() > self.max_links {
                let mut m = String::new();
                push_str(&mut m, "item ");
                push_str(&mut m, item.as_str());
                push_str(&mut m, " has ");
                let a = dec_string(links.len() as u64);
                push_str(&mut m, a.as_str());
                push_str(&mut m, " links, exceeding max ");
                let b = dec_string(self.max_links as u64);
                push_str(&mut m, b.as_str());
                let ghost mv = m@;
                let ghost before = views(errors@);
                errors.push(m);
                assert(views(errors@) =~= before.push(mv));
            }
            proof {
                assert(g.order.take(i + 1).drop_last() =~= g.order.take(i as int));
                assert(g.order.take(i + 1).last() == item@);
                assert(views(errors@) =~= graph_errors(g, g.order.take(i + 1)));
            }
            i = i + 1;
        }
        assert(g.order.take(n as int) =~= g.order);
        errors
    }

    /// The total number of links.
    pub fn edge_count(&self) -> (n: usize)
        requires
            link_total(self@, self@.order) <= usize::MAX,
        ensures
            n == link_total(self@, self@.order),
    {
        proof { use_type_invariant(self); self.edges.lemma_wf(); }
        let ghost g = self@;
        let len = self.edges.len();
        let mut total: usize = 0;
        let mut i: usize = 0;
        while i < len
            invariant
                g == self@,
                self.edges.wf(),
                len == g.order.len(),
                i <= len,
                total == link_total(g, g.order.take(i as int)),
                link_total(g, g.order) <= usize::MAX,
            decreases len - i,
        {
            proof {
                self.edges.lemma_wf();
                assert(g.order.take(i + 1).drop_last() =~= g.order.take(i as int));
                lemma_link_total_prefix(g, g.order, i + 1);
                assert(self.edges.map()[self.edges.key_seq()[i as int]] == self.edges.val_seq()[i as int]);
            }
            total = total + self.edges.val_at(i).len();
            i = i + 1;
        }
        assert(g.order.take(len as int) =~= g.order);
        total
    }

    /// Every item with its links, in the order the items entered.
    pub fn all_edges(&self) -> (r: Vec<(ItemId, Vec<SeeAlsoLink>)>)
        ensures
            edge_list_views(r@).len() == self@.order.len(),
            forall|i: int| 0 <= i < self@.order.len() ==> #[trigger] edge_list_views(r@)[i] == (self@.order[i], self@.edges[self@.order[i]]),
    {
        proof { use_type_invariant(self); self.edges.lemma_wf(); }
        let ghost g = self@;
        let n = self.edges.len();
        let mut r: Vec<(ItemId, Vec<SeeAlsoLink>)> = Vec::new();
        let mut i: usize = 0;
        while i < n
            invariant
                g == self@,
                self.edges.wf(),
                n == g.order.len(),
                i <= n,
                edge_list_views(r@).len() == i,
                forall|j: int| 0 <= j < i ==> #[trigger] edge_list_views(r@)[j] == (g.order[j], g.edges[g.order[j]]),
            decreases n - i,
        {
            proof {
                self.edges.lemma_wf();
                assert(self.edges.map()[self.edges.key_seq()[i as int]] == self.edges.val_seq()[i as int]);
            }
            let k = ItemId(self.edges.key_at(i).clone());
            let ls = copy_links(self.edges.val_at(i));
            let ghost before = edge_list_views(r@);
            let ghost pv = (k@, link_views(ls@));
            r.push((k, ls));
            assert(edge_list_views(r@) =~= before.push(pv));
            i = i + 1;
        }
        r
    }

    /// Replace all edges with imported ones.
    pub fn import_edges(&mut self, edges: Vec<(ItemId, Vec<SeeAlsoLink>)>)
        ensures
            final(self)@ == imported(edge_list_views(edges@), old(self)@.max_links),
    {
        let ghost ps = edge_list_views(edges@);
        let ghost max = self.max_links;
        let mut m: StrMap<Vec<SeeAlsoLink>> = StrMap::new();
        let mut i: usize = 0;
        let n = edges.len();
        proof {
            assert(ps.take(0) =~= Seq::<(Seq<char>, Seq<LinkView>)>::empty());
            assert(m.map().map_values(|v: Vec<SeeAlsoLink>| link_views(v@)) =~= Map::<Seq<char>, Seq<LinkView>>::empty());
        }
        let mut src = edges;
        let mut taken: Vec<(ItemId, Vec<SeeAlsoLink>)> = Vec::new();
        while i < n
            invariant
                n == ps.len(),
                i <= n,
                m.wf(),
                edge_list_views(src@) == ps.skip(i as int),
                (GraphView { edges: m.map().map_values(|v: Vec<SeeAlsoLink>| link_views(v@)), order: m.key_seq(), max_links: max })
                    == imported(ps.take(i as int), max),
            decreases n - i,
        {
            let ghost before = m.map();
            let ghost ko = m.key_seq();
            let ghost old_src = src@;
            assert(edge_list_views(src@).len() == src@.len());
            let (k, ls) = src.remove(0);
            assert(edge_list_views(src@) =~= edge_list_views(old_src).skip(1));
            assert(edge_list_views(old_src)[0] == (k@, link_views(ls@)));
            let ghost kv = k@;
            let ghost lv = link_views(ls@);
            proof {
                assert(edge_list_views(src@) =~= ps.skip(i + 1));
                assert(ps[i as int] == (kv, lv));
                assert(ps.take(i + 1).drop_last() =~= ps.take(i as int));
                assert(ps.take(i + 1).last() == (kv, lv));
            }
            m.insert(k.0, ls);
            proof {
                m.lemma_wf();
                assert(m.map().map_values(|v: Vec<SeeAlsoLink>| link_views(v@)) =~= before.map_values(|v: Vec<SeeAlsoLink>| link_views(v@)).insert(kv, lv));
            }
            i = i + 1;
        }
        assert(ps.take(n as int) =~= ps);
        self.edges = m;
    }

    /// Number of items.
    pub fn item_count(&self) -> (n: usize)
        ensures
            n == self@.edges.dom().len(),
    {
        proof {
            use_type_invariant(self);
            self.edges.lemma_wf();
            self.edges.key_seq().unique_seq_to_set();
            assert(self@.edges.dom() =~= self.edges.key_seq().to_set());
        }
        self.edges.len()
    }
}

impl Default for SeeAlsoGraph {
    /// An empty graph that allows no links.
    fn default() -> (g: Self)
        ensures
            g@.edges == Map::<Seq<char>, Seq<LinkView>>::empty(),
            g@.order == Seq::<Seq<char>>::empty(),
            g@.max_links == 0,
    {
        SeeAlsoGraph::new(0)
    }
}

/// Seen from the other end, a narrower term is a broader one and a broader
/// term a narrower one; every other relationship reads the same both ways;
/// and turning a relationship round twice gives it back.
pub proof fn lemma_inverse_swaps_narrower_broader(r: Relationship)
    ensures
        inverse(inverse(r)) == r,
        inverse(Relationship::NarrowerTerm) == Relationship::BroaderTerm,
        inverse(Relationship::BroaderTerm) == Relationship::NarrowerTerm,
        r != Relationship::NarrowerTerm && r != Relationship::BroaderTerm ==> inverse(r) == r,
        (r == Relationship::NarrowerTerm) == (inverse(r) == Relationship::BroaderTerm),
{
}

/// A new link of a narrower term from `from` to `to` gives `to` a link back
/// to `from` as the broader term, and the reverse.
pub proof fn lemma_reverse_link_relationship(g: GraphView, from: Seq<char>, to: Seq<char>, rel: Relationship, note: Seq<char>)
    requires
        well_linked(g),
        g.order.no_duplicates(),
        forall|x: Seq<char>| #[trigger] g.edges.dom().contains(x) <==> g.order.contains(x),
        from != to,
        add_link_result(g, from, to, rel, note).0,
        !links_to(links_at(g, from), to),
    ensures
        ({
            let h = add_link_result(g, from, to, rel, note).1;
            &&& links_at(h, to).last().target == from
            &&& (rel == Relationship::NarrowerTerm ==> links_at(h, to).last().relationship == Relationship::BroaderTerm)
            &&& (rel == Relationship::BroaderTerm ==> links_at(h, to).last().relationship == Relationship::NarrowerTerm)
            &&& (rel != Relationship::NarrowerTerm && rel != Relationship::BroaderTerm ==> links_at(h, to).last().relationship == rel)
        }),
{
    lemma_add_link_law(g, from, to, rel, note);
}

} // verus!
