//! Cross-repository dependency graph of pull requests, with topological
//! ordering and cycle detection.
//!
//! Dependencies on pull requests that are not in the graph are treated as
//! already satisfied.

use vstd::prelude::*;
use vstd::set_lib::{lemma_int_range, lemma_len_subset, set_int_range};
use crate::ids::AgentId;
use crate::repo::{PrRef, PrStatus, PrView};
use crate::text::{dec, dec_string, push_str};

verus! {

/// A tracked pull request and the pull requests it waits for.
#[derive(Debug)]
pub struct DependencyNode {
    pub pr: PrRef,
    pub depends_on: Vec<PrRef>,
    pub agent: AgentId,
    pub status: PrStatus,
}

/// The mathematical content of a node.
pub struct NodeView {
    pub pr: PrView,
    pub deps: Seq<PrView>,
    pub agent: Seq<char>,
    pub status: PrStatus,
}

/// The views of a sequence of pull request references.
pub open spec fn pr_views(s: Seq<PrRef>) -> Seq<PrView> {
    s.map_values(|p: PrRef| p@)
}

impl View for DependencyNode {
    type V = NodeView;

    open spec fn view(&self) -> NodeView {
        NodeView { pr: self.pr@, deps: pr_views(self.depends_on@), agent: self.agent@, status: self.status }
    }
}

fn clone_prs(v: &Vec<PrRef>) -> (r: Vec<PrRef>)
    ensures
        pr_views(r@) == pr_views(v@),
{
    let mut out: Vec<PrRef> = Vec::new();
    let mut i: usize = 0;
    while i < v.len()
        invariant
            i <= v.len(),
            out@.len() == i,
            forall|k: int| 0 <= k < i ==> (#[trigger] out@[k])@ == v@[k]@,
        decreases v.len() - i,
    {
        out.push(v[i].clone());
        i = i + 1;
    }
    assert(pr_views(out@) =~= pr_views(v@));
    out
}

impl Clone for DependencyNode {
    fn clone(&self) -> (r: Self)
        ensures
            r@ == self@,
    {
        DependencyNode {
            pr: self.pr.clone(),
            depends_on: clone_prs(&self.depends_on),
            agent: self.agent.clone(),
            status: self.status,
        }
    }
}

/// Why no order could be computed.
#[derive(Debug, Clone, Copy, PartialEq, Eq, Structural)]
pub enum GraphError {
    /// The graph has a cycle; `sorted` nodes could be ordered out of `total`.
    Cycle { sorted: usize, total: usize },
}

impl GraphError {
    /// A human-readable description of the error.
    pub fn message(&self) -> (s: String)
        ensures
            s@ == (match *self {
                GraphError::Cycle { sorted, total } => "Cycle detected in dependency graph: sorted "@ + dec(
                    sorted as nat,
                ) + " of "@ + dec(total as nat) + " nodes"@,
            }),
    {
        match self {
            GraphError::Cycle { sorted, total } => {
                let mut s = String::new();
                push_str(&mut s, "Cycle detected in dependency graph: sorted ");
                let a = dec_string(*sorted as u64);
                push_str(&mut s, a.as_str());
                push_str(&mut s, " of ");
                let b = dec_string(*total as u64);
                push_str(&mut s, b.as_str());
                push_str(&mut s, " nodes");
                proof {
                    reveal_strlit("Cycle detected in dependency graph: sorted ");
                    reveal_strlit(" of ");
                    reveal_strlit(" nodes");
                    reveal_strlit("");
                }
                s
            },
        }
    }
}

/// The views of a sequence of nodes.
pub open spec fn node_views(v: Seq<DependencyNode>) -> Seq<NodeView> {
    v.map_values(|n: DependencyNode| n@)
}

/// The views of a sequence of borrowed nodes.
pub open spec fn ref_views(v: Seq<&DependencyNode>) -> Seq<NodeView> {
    v.map_values(|n: &DependencyNode| n@)
}

/// `a` waits for `b`.
pub open spec fn depends(a: NodeView, b: NodeView) -> bool {
    a.deps.contains(b.pr)
}

/// `o` lists the nodes of `g`, each node after every node of `g` it waits for;
/// no node waits for itself or for a node listed after it.
pub open spec fn is_topo_order(g: Seq<NodeView>, o: Seq<NodeView>) -> bool {
    &&& o.len() == g.len()
    &&& forall|x: int| 0 <= x < o.len() ==> #[trigger] g.contains(o[x])
    &&& forall|i: int| 0 <= i < g.len() ==> #[trigger] o.contains(g[i])
    &&& forall|a: int, b: int| 0 <= a <= b < o.len() ==> !depends(#[trigger] o[a], #[trigger] o[b])
}

/// The node at position `i` waits for a node at a position in `s`.
pub open spec fn has_dep_in(g: Seq<NodeView>, s: Set<int>, i: int) -> bool {
    exists|j: int| s.contains(j) && depends(g[i], g[j])
}

/// `s` is a non-empty set of node positions each of which waits for a node in `s`.
pub open spec fn is_cycle(g: Seq<NodeView>, s: Set<int>) -> bool {
    &&& exists|i: int| s.contains(i)
    &&& forall|i: int| #[trigger] s.contains(i) ==> 0 <= i < g.len()
    &&& forall|i: int| s.contains(i) ==> #[trigger] has_dep_in(g, s, i)
}

/// The graph contains a cycle.
pub open spec fn has_cycle(g: Seq<NodeView>) -> bool {
    exists|s: Set<int>| is_cycle(g, s)
}

/// Position `i` holds the first node of `g` for pull request `p`.
pub open spec fn first_match(g: Seq<NodeView>, p: PrView, i: int) -> bool {
    &&& 0 <= i < g.len()
    &&& g[i].pr == p
    &&& forall|j: int| 0 <= j < i ==> (#[trigger] g[j]).pr != p
}

/// No node of `g` is for pull request `p`.
pub open spec fn absent(g: Seq<NodeView>, p: PrView) -> bool {
    forall|j: int| 0 <= j < g.len() ==> (#[trigger] g[j]).pr != p
}

/// Every dependency of the node for `p` is merged, or is outside the graph;
/// false when `p` is not tracked.
pub open spec fn deps_met(g: Seq<NodeView>, p: PrView) -> bool {
    exists|i: int| {
        &&& first_match(g, p, i)
        &&& forall|k: int, j: int| 0 <= k < g[i].deps.len() && #[trigger] first_match(g, g[i].deps[k], j) ==> g[j].status == PrStatus::Merged
    }
}

/// Neither merged nor closed.
pub open spec fn active(n: NodeView) -> bool {
    n.status != PrStatus::Merged && n.status != PrStatus::Closed
}

/// Node `i` is not yet placed and every node it waits for is.
pub open spec fn ready_in(g: Seq<NodeView>, done: Seq<bool>, i: int) -> bool {
    &&& !done[i]
    &&& forall|j: int| 0 <= j < g.len() && depends(g[i], #[trigger] g[j]) ==> done[j]
}

/// Node `i` is ready and, when `f` is given, waits for node `f`.
pub open spec fn wakes(g: Seq<NodeView>, done: Seq<bool>, f: Option<int>, i: int) -> bool {
    &&& ready_in(g, done, i)
    &&& match f {
        Some(x) => depends(g[i], g[x]),
        None => true,
    }
}

/// The positions below `k` of the nodes that `wakes` selects, in increasing order.
pub open spec fn woken(g: Seq<NodeView>, done: Seq<bool>, f: Option<int>, k: nat) -> Seq<int>
    decreases k,
{
    if k == 0 {
        Seq::empty()
    } else {
        let w = woken(g, done, f, (k - 1) as nat);
        if wakes(g, done, f, k - 1) { w.push(k - 1) } else { w }
    }
}

/// The state of Kahn's algorithm: the placed nodes, the stack of ready
/// nodes, and the order so far (all as positions in the graph).
pub struct KahnState {
    pub done: Seq<bool>,
    pub stack: Seq<int>,
    pub out: Seq<int>,
}

/// Kahn's algorithm before its first step: the nodes that wait for no node
/// of the graph are on the stack, in graph order.
pub open spec fn kahn_init(g: Seq<NodeView>) -> KahnState {
    let done = Seq::new(g.len(), |i: int| false);
    KahnState { done, stack: woken(g, done, None, g.len()), out: Seq::empty() }
}

/// One step of Kahn's algorithm: the node on top of the stack is placed, and
/// the nodes waiting for it that have become ready are pushed in graph order.
pub open spec fn kahn_step(g: Seq<NodeView>, s: KahnState) -> KahnState {
    if s.stack.len() == 0 {
        s
    } else {
        let f = s.stack.last();
        let done = s.done.update(f, true);
        KahnState { done, stack: s.stack.drop_last() + woken(g, done, Some(f), g.len()), out: s.out.push(f) }
    }
}

/// Kahn's algorithm after `k` steps.
pub open spec fn kahn(g: Seq<NodeView>, k: nat) -> KahnState
    decreases k,
{
    if k == 0 { kahn_init(g) } else { kahn_step(g, kahn(g, (k - 1) as nat)) }
}

/// The nodes at the given positions.
pub open spec fn at_positions(g: Seq<NodeView>, pos: Seq<int>) -> Seq<NodeView> {
    pos.map_values(|i: int| g[i])
}

proof fn lemma_woken(g: Seq<NodeView>, done: Seq<bool>, f: Option<int>, k: nat)
    ensures
        forall|i: int| #[trigger] woken(g, done, f, k).contains(i) <==> 0 <= i < k && wakes(g, done, f, i),
        woken(g, done, f, k).no_duplicates(),
    decreases k,
{
    if k > 0 {
        lemma_woken(g, done, f, (k - 1) as nat);
        let w = woken(g, done, f, (k - 1) as nat);
        if wakes(g, done, f, k - 1) {
            assert(!w.contains(k - 1));
            let wp = w.push(k - 1);
            assert forall|x: int, y: int| 0 <= x < y < wp.len() implies wp[x] != wp[y] by {
                if y == w.len() {
                    assert(w.contains(wp[x]));
                } else {
                    assert(wp[x] == w[x] && wp[y] == w[y]);
                }
            }
        }
        assert forall|i: int| #[trigger] woken(g, done, f, k).contains(i) <==> 0 <= i < k && wakes(g, done, f, i) by {
            if wakes(g, done, f, k - 1) {
                if i == k - 1 {
                    assert(w.push(k - 1)[w.len() as int] == i);
                }
                let wp = w.push(k - 1);
                if wp.contains(i) && i != k - 1 {
                    let x = choose|x: int| 0 <= x < wp.len() && wp[x] == i;
                    assert(w[x] == i);
                }
                if w.contains(i) {
                    let x = choose|x: int| 0 <= x < w.len() && w[x] == i;
                    assert(w.push(k - 1)[x] == i);
                }
            }
        }
    }
}

/// The positions held by a stack of indices.
pub open spec fn stack_view(v: Seq<usize>) -> Seq<int> {
    v.map_values(|x: usize| x as int)
}

/// Placing the top of a stack that holds exactly the ready nodes, and pushing
/// the nodes it wakes, leaves a stack that holds exactly the ready nodes.
proof fn lemma_kahn_stack(g: Seq<NodeView>, done: Seq<bool>, st: Seq<int>)
    requires
        done.len() == g.len(),
        st.len() > 0,
        st.no_duplicates(),
        forall|x: int| 0 <= x < st.len() ==> 0 <= #[trigger] st[x] < g.len(),
        forall|i: int| 0 <= i < g.len() ==> (ready_in(g, done, i) <==> #[trigger] st.contains(i)),
    ensures
        ({
            let f = st.last();
            let d = done.update(f, true);
            let s2 = st.drop_last() + woken(g, d, Some(f), g.len());
            &&& s2.no_duplicates()
            &&& forall|x: int| 0 <= x < s2.len() ==> 0 <= #[trigger] s2[x] < g.len()
            &&& forall|i: int| 0 <= i < g.len() ==> (ready_in(g, d, i) <==> #[trigger] s2.contains(i))
        }),
{
    let f = st.last();
    let d = done.update(f, true);
    let a = st.drop_last();
    let w = woken(g, d, Some(f), g.len());
    let s2 = a + w;
    lemma_woken(g, d, Some(f), g.len());
    assert(st.contains(f));
    assert(ready_in(g, done, f));
    assert forall|x: int| 0 <= x < a.len() implies #[trigger] a[x] != f && ready_in(g, done, a[x]) && !depends(g[a[x]], g[f]) by {
        assert(st[x] == a[x]);
        assert(st[st.len() - 1] == f);
        assert(st.contains(a[x]));
        if depends(g[a[x]], g[f]) {
            assert(done[f]);
        }
    }
    assert forall|x: int, y: int| 0 <= x < y < s2.len() implies s2[x] != s2[y] by {
        if y < a.len() {
            assert(st[x] == a[x] && st[y] == a[y]);
        } else if x < a.len() {
            assert(w.contains(s2[y]));
            assert(s2[x] == a[x]);
        } else {
            assert(s2[x] == w[x - a.len()] && s2[y] == w[y - a.len()]);
        }
    }
    assert forall|x: int| 0 <= x < s2.len() implies 0 <= #[trigger] s2[x] < g.len() by {
        if x < a.len() {
            assert(st[x] == a[x]);
        } else {
            assert(w.contains(w[x - a.len()]));
        }
    }
    assert forall|i: int| 0 <= i < g.len() implies (ready_in(g, d, i) <==> #[trigger] s2.contains(i)) by {
        if ready_in(g, d, i) {
            if ready_in(g, done, i) {
                assert(st.contains(i));
                let x = choose|x: int| 0 <= x < st.len() && st[x] == i;
                assert(x != st.len() - 1);
                assert(s2[x] == i);
            } else {
                let j = choose|j: int| 0 <= j < g.len() && depends(g[i], #[trigger] g[j]) && !done[j];
                assert(j == f);
                assert(wakes(g, d, Some(f), i));
                assert(w.contains(i));
                let x = choose|x: int| 0 <= x < w.len() && w[x] == i;
                assert(s2[a.len() + x] == i);
            }
        }
        if s2.contains(i) {
            let x = choose|x: int| 0 <= x < s2.len() && s2[x] == i;
            if x < a.len() {
                assert(ready_in(g, done, a[x]));
                assert forall|j: int| 0 <= j < g.len() && depends(g[i], #[trigger] g[j]) implies d[j] by {
                    assert(done[j]);
                }
            } else {
                assert(w[x - a.len()] == i);
                assert(w.contains(i));
            }
        }
    }
}

/// Some smallest natural number satisfies a predicate that some number satisfies.
proof fn lemma_least(p: spec_fn(int) -> bool, k: int)
    requires
        0 <= k,
        p(k),
    ensures
        exists|m: int| 0 <= m <= k && #[trigger] p(m) && forall|m2: int| 0 <= m2 < m ==> !#[trigger] p(m2),
    decreases k,
{
    if exists|m2: int| 0 <= m2 < k && #[trigger] p(m2) {
        let m2 = choose|m2: int| 0 <= m2 < k && #[trigger] p(m2);
        lemma_least(p, m2);
    }
}

/// Position `k` of `o` holds a node of `g` at a position in `s`.
spec fn hits(g: Seq<NodeView>, s: Set<int>, o: Seq<NodeView>, k: int) -> bool {
    0 <= k < o.len() && exists|i: int| s.contains(i) && o[k] == g[i]
}

/// A graph with a cycle has no topological order.
pub proof fn lemma_cycle_has_no_order(g: Seq<NodeView>, s: Set<int>, o: Seq<NodeView>)
    requires
        is_cycle(g, s),
    ensures
        !is_topo_order(g, o),
{
    if is_topo_order(g, o) {
        let i0 = choose|i: int| s.contains(i);
        assert(0 <= i0 < g.len());
        assert(o.contains(g[i0]));
        let k0 = choose|k: int| 0 <= k < o.len() && o[k] == g[i0];
        assert(hits(g, s, o, k0));
        let hit = |k: int| hits(g, s, o, k);
        lemma_least(hit, k0);
        let k = choose|m: int| 0 <= m <= k0 && #[trigger] hit(m) && forall|m2: int| 0 <= m2 < m ==> !#[trigger] hit(m2);
        assert(hits(g, s, o, k));
        let i = choose|i: int| s.contains(i) && o[k] == g[i];
        assert(has_dep_in(g, s, i));
        let j = choose|j: int| s.contains(j) && depends(g[i], g[j]);
        assert(0 <= j < g.len());
        assert(o.contains(g[j]));
        let p = choose|p: int| 0 <= p < o.len() && o[p] == g[j];
        assert(hits(g, s, o, p));
        assert(hit(p));
        assert(k <= p);
        assert(depends(o[k], o[p]));
    }
}

/// Positions without duplicates inside `[0, n)` number at most `n`, and
/// cover the range exactly when there are `n` of them.
proof fn lemma_cover(pos: Seq<int>, n: int)
    requires
        0 <= n,
        pos.no_duplicates(),
        forall|x: int| 0 <= x < pos.len() ==> 0 <= #[trigger] pos[x] < n,
    ensures
        pos.len() <= n,
        pos.len() == n ==> forall|i: int| 0 <= i < n ==> pos.contains(i),
        pos.len() < n ==> exists|i: int| 0 <= i < n && !pos.contains(i),
{
    lemma_int_range(0, n);
    pos.unique_seq_to_set();
    assert(pos.to_set().subset_of(set_int_range(0, n)));
    lemma_len_subset(pos.to_set(), set_int_range(0, n));
    if pos.len() == n {
        vstd::set_lib::lemma_subset_equality(pos.to_set(), set_int_range(0, n));
        assert forall|i: int| 0 <= i < n implies pos.contains(i) by {
            assert(set_int_range(0, n).contains(i));
        }
    }
    if pos.len() < n && forall|i: int| 0 <= i < n ==> pos.contains(i) {
        assert(set_int_range(0, n).subset_of(pos.to_set()));
        lemma_len_subset(set_int_range(0, n), pos.to_set());
    }
}

/// Appending a node whose in-graph dependencies are all placed keeps every
/// placed node after the nodes it waits for.
proof fn lemma_order_step(g: Seq<NodeView>, pos: Seq<int>, done: Seq<bool>, f: int)
    requires
        0 <= f < g.len(),
        done.len() == g.len(),
        !done[f],
        forall|i: int| 0 <= i < g.len() ==> (done[i] <==> pos.contains(i)),
        forall|j: int| 0 <= j < g.len() && depends(g[f], #[trigger] g[j]) ==> done[j],
        forall|a: int, j: int| 0 <= a < pos.len() && 0 <= j < g.len() && #[trigger] depends(g[pos[a]], g[j]) ==> exists|b: int| 0 <= b < a && pos[b] == j,
    ensures
        !pos.contains(f),
        forall|a: int, j: int| 0 <= a < pos.len() + 1 && 0 <= j < g.len() && #[trigger] depends(g[pos.push(f)[a]], g[j]) ==> exists|b: int| 0 <= b < a && pos.push(f)[b] == j,
{
    let np = pos.push(f);
    assert forall|a: int, j: int| 0 <= a < pos.len() + 1 && 0 <= j < g.len() && #[trigger] depends(g[np[a]], g[j]) implies exists|b: int| 0 <= b < a && np[b] == j by {
        if a < pos.len() {
            assert(np[a] == pos[a]);
            assert(depends(g[pos[a]], g[j]));
            let b = choose|b: int| 0 <= b < a && pos[b] == j;
            assert(np[b] == j);
        } else {
            assert(np[a] == f);
            assert(done[j]);
            assert(pos.contains(j));
            let b = choose|b: int| 0 <= b < pos.len() && pos[b] == j;
            assert(np[b] == j);
        }
    }
}

/// Marking `f` done while appending it to the positions keeps the two in step.
proof fn lemma_done_step(pos: Seq<int>, old_pos: Seq<int>, done: Seq<bool>, old_done: Seq<bool>, f: int, n: int)
    requires
        pos == old_pos.push(f),
        done == old_done.update(f, true),
        0 <= f < n,
        old_done.len() == n,
        forall|i: int| 0 <= i < n ==> (old_done[i] <==> old_pos.contains(i)),
    ensures
        forall|i: int| 0 <= i < n ==> (done[i] <==> pos.contains(i)),
{
    assert forall|i2: int| 0 <= i2 < n implies (done[i2] <==> pos.contains(i2)) by {
        if i2 == f {
            assert(pos[pos.len() - 1] == i2);
        } else {
            assert(done[i2] == old_done[i2]);
            if old_pos.contains(i2) {
                let x = choose|x: int| 0 <= x < old_pos.len() && old_pos[x] == i2;
                assert(pos[x] == i2);
            }
            if pos.contains(i2) {
                let x = choose|x: int| 0 <= x < pos.len() && pos[x] == i2;
                assert(old_pos[x] == i2);
            }
        }
    }
}

/// When fewer than all nodes are placed and none of the rest is ready, the
/// unplaced nodes form a cycle.
proof fn lemma_stuck_is_cycle(g: Seq<NodeView>, pos: Seq<int>, done: Seq<bool>)
    requires
        done.len() == g.len(),
        pos.len() < g.len(),
        pos.no_duplicates(),
        forall|x: int| 0 <= x < pos.len() ==> 0 <= #[trigger] pos[x] < g.len(),
        forall|i: int| 0 <= i < g.len() ==> (done[i] <==> pos.contains(i)),
        forall|x: int| 0 <= x < g.len() && !done[x] ==> exists|j: int| 0 <= j < g.len() && depends(g[x], #[trigger] g[j]) && !done[j],
    ensures
        has_cycle(g),
{
    let n = g.len() as int;
    let s = Set::new(|x: int| 0 <= x < n && !done[x]);
    lemma_cover(pos, n);
    let x0 = choose|x: int| 0 <= x < n && !pos.contains(x);
    assert(s.contains(x0));
    assert forall|x: int| s.contains(x) implies #[trigger] has_dep_in(g, s, x) by {
        let j = choose|j: int| 0 <= j < n && depends(g[x], #[trigger] g[j]) && !done[j];
        assert(s.contains(j));
    }
    assert(is_cycle(g, s));
}

/// The pull requests of a collective, with their dependencies.
pub struct DependencyGraph {
    nodes: Vec<DependencyNode>,
}

impl View for DependencyGraph {
    type V = Seq<NodeView>;

    closed spec fn view(&self) -> Seq<NodeView> {
        node_views(self.nodes@)
    }
}

impl Default for DependencyGraph {
    fn default() -> (g: Self)
        ensures
            g@ == Seq::<NodeView>::empty(),
    {
        DependencyGraph::new()
    }
}

impl DependencyGraph {
    /// An empty graph.
    pub fn new() -> (g: Self)
        ensures
            g@ == Seq::<NodeView>::empty(),
    {
        let g = DependencyGraph { nodes: Vec::new() };
        assert(g@ =~= Seq::<NodeView>::empty());
        g
    }

    /// Position of the first node for `pr`.
    fn position(&self, pr: &PrRef) -> (r: Option<usize>)
        ensures
            match r {
                Some(i) => first_match(self@, pr@, i as int),
                None => absent(self@, pr@),
            },
    {
        let mut i: usize = 0;
        while i < self.nodes.len()
            invariant
                i <= self.nodes.len(),
                forall|j: int| 0 <= j < i ==> (#[trigger] self@[j]).pr != pr@,
            decreases self.nodes.len() - i,
        {
            if self.nodes[i].pr.same(pr) {
                return Some(i);
            }
            i = i + 1;
        }
        None
    }

    /// Replace the first node for the same pull request, or append the node.
    pub fn upsert(&mut self, node: DependencyNode)
        ensures
            forall|i: int| first_match(old(self)@, node@.pr, i) ==> final(self)@ == old(self)@.update(i, node@),
            absent(old(self)@, node@.pr) ==> final(self)@ == old(self)@.push(node@),
    {
        match self.position(&node.pr) {
            Some(i) => {
                self.nodes.set(i, node);
                assert(self@ =~= old(self)@.update(i as int, node@));
            },
            None => {
                self.nodes.push(node);
                assert(self@ =~= old(self)@.push(node@));
            },
        }
    }

    /// Drop every node for `pr`.
    pub fn remove(&mut self, pr: &PrRef)
        ensures
            final(self)@ == old(self)@.filter(|n: NodeView| n.pr != pr@),
    {
        let ghost g = self@;
        let mut kept: Vec<DependencyNode> = Vec::new();
        let mut old_nodes: Vec<DependencyNode> = Vec::new();
        std::mem::swap(&mut old_nodes, &mut self.nodes);
        assert(node_views(old_nodes@) == g);
        let mut i: usize = 0;
        while i < old_nodes.len()
            invariant
                i <= old_nodes.len(),
                node_views(old_nodes@) == g,
                node_views(kept@) == g.take(i as int).filter(|n: NodeView| n.pr != pr@),
            decreases old_nodes.len() - i,
        {
            proof {
                assert(g.take(i + 1).drop_last() =~= g.take(i as int));
                reveal_with_fuel(Seq::filter, 1);
            }
            let ghost before = kept@;
            if !old_nodes[i].pr.same(pr) {
                kept.push(old_nodes[i].clone());
                assert(node_views(kept@) =~= node_views(before).push(g[i as int]));
            } else {
                assert(node_views(kept@) =~= node_views(before));
            }
            i = i + 1;
        }
        assert(g.take(g.len() as int) =~= g);
        self.nodes = kept;
    }

    /// The first node for `pr`.
    pub fn get(&self, pr: &PrRef) -> (r: Option<&DependencyNode>)
        ensures
            match r {
                Some(n) => exists|i: int| first_match(self@, pr@, i) && n@ == self@[i],
                None => absent(self@, pr@),
            },
    {
        match self.position(pr) {
            Some(i) => Some(&self.nodes[i]),
            None => None,
        }
    }

    /// Set the status of the first node for `pr`; nothing changes when it is untracked.
    pub fn set_status(&mut self, pr: &PrRef, status: PrStatus)
        ensures
            forall|i: int| first_match(old(self)@, pr@, i) ==> final(self)@ == old(self)@.update(i, NodeView { status, ..old(self)@[i] }),
            absent(old(self)@, pr@) ==> final(self)@ == old(self)@,
    {
        match self.position(pr) {
            Some(i) => {
                let mut n = self.nodes[i].clone();
                n.status = status;
                self.nodes.set(i, n);
                assert(self@ =~= old(self)@.update(i as int, NodeView { status, ..old(self)@[i as int] }));
            },
            None => {},
        }
    }

    /// Whether node `i` waits for no node that is not yet `done`.
    fn ready_at(&self, i: usize, done: &Vec<bool>) -> (r: bool)
        requires
            i < self@.len(),
            done@.len() == self@.len(),
        ensures
            r == forall|j: int| 0 <= j < self@.len() && depends(self@[i as int], #[trigger] self@[j]) ==> done@[j],
    {
        let g = &self.nodes;
        let deps = &g[i].depends_on;
        let ghost gv = self@;
        let mut k: usize = 0;
        while k < deps.len()
            invariant
                gv == self@,
                i < gv.len(),
                done@.len() == gv.len(),
                deps == &self.nodes@[i as int].depends_on,
                g == &self.nodes,
                k <= deps@.len(),
                forall|k2: int, j: int| 0 <= k2 < k && 0 <= j < gv.len() && (#[trigger] deps@[k2])@ == (#[trigger] gv[j]).pr ==> done@[j],
            decreases deps@.len() - k,
        {
            let mut j: usize = 0;
            while j < g.len()
                invariant
                    gv == self@,
                    i < gv.len(),
                    done@.len() == gv.len(),
                    deps == &self.nodes@[i as int].depends_on,
                    k < deps@.len(),
                    j <= gv.len(),
                    g == &self.nodes,
                    forall|k2: int, j2: int| 0 <= k2 < k && 0 <= j2 < gv.len() && (#[trigger] deps@[k2])@ == (#[trigger] gv[j2]).pr ==> done@[j2],
                    forall|j2: int| 0 <= j2 < j && deps@[k as int]@ == (#[trigger] gv[j2]).pr ==> done@[j2],
                decreases gv.len() - j,
            {
                if !done[j] && g[j].pr.same(&deps[k]) {
                    proof {
                        assert(gv[i as int].deps[k as int] == gv[j as int].pr);
                        assert(depends(gv[i as int], gv[j as int]));
                    }
                    return false;
                }
                j = j + 1;
            }
            k = k + 1;
        }
        proof {
            assert forall|j: int| 0 <= j < gv.len() && depends(gv[i as int], #[trigger] gv[j]) implies done@[j] by {
                let k2 = choose|k2: int| 0 <= k2 < gv[i as int].deps.len() && gv[i as int].deps[k2] == gv[j].pr;
                assert(deps@[k2]@ == gv[j].pr);
            }
        }
        true
    }

    /// Whether node `i` waits for node `f`.
    fn waits_for(&self, i: usize, f: usize) -> (r: bool)
        requires
            i < self@.len(),
            f < self@.len(),
        ensures
            r == depends(self@[i as int], self@[f as int]),
    {
        let deps = &self.nodes[i].depends_on;
        let target = &self.nodes[f].pr;
        let ghost gv = self@;
        let mut k: usize = 0;
        while k < deps.len()
            invariant
                gv == self@,
                i < gv.len(),
                f < gv.len(),
                k <= deps@.len(),
                deps == &self.nodes@[i as int].depends_on,
                target == &self.nodes@[f as int].pr,
                forall|k2: int| 0 <= k2 < k ==> (#[trigger] deps@[k2])@ != target@,
            decreases deps@.len() - k,
        {
            if deps[k].same(target) {
                proof { assert(gv[i as int].deps[k as int] == gv[f as int].pr); }
                return true;
            }
            k = k + 1;
        }
        proof {
            if gv[i as int].deps.contains(gv[f as int].pr) {
                let k2 = choose|k2: int| 0 <= k2 < gv[i as int].deps.len() && gv[i as int].deps[k2] == gv[f as int].pr;
                assert(deps@[k2]@ == target@);
            }
        }
        false
    }

    /// Push, in graph order, every node that `wakes` selects.
    fn push_woken(&self, done: &Vec<bool>, f: Option<usize>, stack: &mut Vec<usize>)
        requires
            done@.len() == self@.len(),
            match f { Some(x) => x < self@.len(), None => true },
        ensures
            stack_view(final(stack)@) == stack_view(old(stack)@) + woken(self@, done@, match f { Some(x) => Some(x as int), None => None }, self@.len()),
    {
        let ghost of: Option<int> = match f { Some(x) => Some(x as int), None => None };
        let ghost base = stack_view(stack@);
        let n = self.nodes.len();
        let mut i: usize = 0;
        assert(stack_view(stack@) =~= base + woken(self@, done@, of, 0));
        while i < n
            invariant
                n == self@.len(),
                done@.len() == n,
                i <= n,
                of == (match f { Some(x) => Some(x as int), None => None::<int> }),
                match f { Some(x) => x < n, None => true },
                stack_view(stack@) == base + woken(self@, done@, of, i as nat),
            decreases n - i,
        {
            let hit = !done[i] && match f {
                Some(x) => self.waits_for(i, x),
                None => true,
            } && self.ready_at(i, done);
            assert(hit == wakes(self@, done@, of, i as int));
            if hit {
                let ghost before = stack_view(stack@);
                stack.push(i);
                assert(stack_view(stack@) =~= before.push(i as int));
            }
            i = i + 1;
        }
    }

    /// Order the nodes so that each comes after every node it waits for, by
    /// Kahn's algorithm with a stack: the nodes that wait for no node of the
    /// graph are stacked in graph order; the top of the stack is placed next,
    /// and the nodes waiting for it that become ready are pushed in graph
    /// order. Dependencies outside the graph are satisfied. Fails exactly when
    /// the graph has a cycle.
    pub fn topological_sort(&self) -> (r: Result<Vec<&DependencyNode>, GraphError>)
        ensures
            r is Ok <==> !has_cycle(self@),
            match r {
                Ok(v) => is_topo_order(self@, ref_views(v@))
                    && ref_views(v@) == at_positions(self@, kahn(self@, self@.len()).out),
                Err(e) => has_cycle(self@) && (e matches GraphError::Cycle { sorted, total } && sorted < total && total == self@.len()),
            },
    {
        let n = self.nodes.len();
        let ghost g = self@;
        let mut done: Vec<bool> = Vec::new();
        let mut z: usize = 0;
        while z < n
            invariant
                z <= n,
                done@.len() == z,
                forall|x: int| 0 <= x < z ==> !done@[x],
            decreases n - z,
        {
            done.push(false);
            z = z + 1;
        }
        assert(done@ =~= kahn_init(g).done);
        let mut stack: Vec<usize> = Vec::new();
        self.push_woken(&done, None, &mut stack);
        proof {
            assert(stack_view(stack@) =~= kahn_init(g).stack);
            lemma_woken(g, done@, None, n as nat);
            assert forall|x: int| 0 <= x < stack_view(stack@).len() implies 0 <= #[trigger] stack_view(stack@)[x] < n by {
                assert(stack_view(stack@).contains(stack_view(stack@)[x]));
            }
        }
        let mut sorted: Vec<&DependencyNode> = Vec::new();
        let ghost mut pos: Seq<int> = Seq::empty();
        while sorted.len() < n
            invariant
                g == self@,
                n == g.len(),
                done@.len() == n,
                sorted@.len() == pos.len(),
                pos.no_duplicates(),
                forall|x: int| 0 <= x < pos.len() ==> 0 <= #[trigger] pos[x] < n,
                forall|x: int| 0 <= x < pos.len() ==> (#[trigger] sorted@[x])@ == g[pos[x]],
                forall|i: int| 0 <= i < n ==> (done@[i] <==> pos.contains(i)),
                forall|a: int, j: int| 0 <= a < pos.len() && 0 <= j < n && #[trigger] depends(g[pos[a]], g[j]) ==> exists|b: int| 0 <= b < a && pos[b] == j,
                kahn(g, pos.len() as nat) == (KahnState { done: done@, stack: stack_view(stack@), out: pos }),
                stack_view(stack@).no_duplicates(),
                forall|x: int| 0 <= x < stack_view(stack@).len() ==> 0 <= #[trigger] stack_view(stack@)[x] < n,
                forall|i: int| 0 <= i < n ==> (ready_in(g, done@, i) <==> #[trigger] stack_view(stack@).contains(i)),
            decreases n - sorted@.len(),
        {
            let ghost st = stack_view(stack@);
            match stack.pop() {
                None => {
                    proof {
                        assert forall|x: int| 0 <= x < g.len() && !done@[x] implies exists|j: int| 0 <= j < g.len() && depends(g[x], #[trigger] g[j]) && !done@[j] by {
                            assert(!st.contains(x));
                            assert(!ready_in(g, done@, x));
                        }
                        lemma_stuck_is_cycle(g, pos, done@);
                    }
                    return Err(GraphError::Cycle { sorted: sorted.len(), total: n });
                },
                Some(f) => {
                    let ghost old_pos = pos;
                    let ghost old_done = done@;
                    proof {
                        assert(st.last() == f as int);
                        assert(st.contains(f as int));
                        assert(stack_view(stack@) =~= st.drop_last());
                        lemma_kahn_stack(g, done@, st);
                        lemma_order_step(g, pos, done@, f as int);
                        pos = pos.push(f as int);
                    }
                    done.set(f, true);
                    sorted.push(&self.nodes[f]);
                    self.push_woken(&done, Some(f), &mut stack);
                    proof {
                        lemma_done_step(pos, old_pos, done@, old_done, f as int, n as int);
                        assert forall|x: int| 0 <= x < pos.len() implies (#[trigger] sorted@[x])@ == g[pos[x]] by {
                            if x < old_pos.len() {
                                assert(pos[x] == old_pos[x]);
                            }
                        }
                        assert(kahn(g, pos.len() as nat) == kahn_step(g, kahn(g, old_pos.len() as nat)));
                        assert(done@ =~= old_done.update(f as int, true));
                    }
                },
            }
        }
        proof {
            lemma_cover(pos, n as int);
            let o = ref_views(sorted@);
            assert forall|x: int| 0 <= x < o.len() implies #[trigger] g.contains(o[x]) by {
                assert(o[x] == sorted@[x]@);
                assert(g[pos[x]] == o[x]);
            }
            assert forall|i: int| 0 <= i < g.len() implies #[trigger] o.contains(g[i]) by {
                assert(pos.contains(i));
                let x = choose|x: int| 0 <= x < pos.len() && pos[x] == i;
                assert(o[x] == sorted@[x]@);
                assert(o[x] == g[i]);
            }
            assert forall|a: int, b: int| 0 <= a <= b < o.len() implies !depends(#[trigger] o[a], #[trigger] o[b]) by {
                if depends(o[a], o[b]) {
                    assert(o[a] == sorted@[a]@);
                    assert(o[b] == sorted@[b]@);
                    assert(depends(g[pos[a]], g[pos[b]]));
                    let c = choose|c: int| 0 <= c < a && pos[c] == pos[b];
                }
            }
            assert(is_topo_order(g, o));
            if has_cycle(g) {
                let s = choose|s: Set<int>| is_cycle(g, s);
                lemma_cycle_has_no_order(g, s, o);
            }
            assert(o =~= at_positions(g, pos));
        }
        Ok(sorted)
    }

    /// Whether every dependency of the node for `pr` is merged (dependencies
    /// outside the graph count as met); false when `pr` is untracked.
    pub fn dependencies_met(&self, pr: &PrRef) -> (r: bool)
        ensures
            r == deps_met(self@, pr@),
    {
        let ghost g = self@;
        let i = match self.position(pr) {
            Some(i) => i,
            None => {
                return false;
            },
        };
        let deps = &self.nodes[i].depends_on;
        let mut k: usize = 0;
        while k < deps.len()
            invariant
                g == self@,
                first_match(g, pr@, i as int),
                deps == &self.nodes@[i as int].depends_on,
                k <= deps@.len(),
                forall|k2: int, j: int| 0 <= k2 < k && #[trigger] first_match(g, g[i as int].deps[k2], j) ==> g[j].status == PrStatus::Merged,
            decreases deps@.len() - k,
        {
            match self.position(&deps[k]) {
                Some(j) => {
                    if self.nodes[j].status != PrStatus::Merged {
                        proof {
                            assert(g[i as int].deps[k as int] == deps@[k as int]@);
                            assert forall|i2: int| #[trigger] first_match(g, pr@, i2) implies i2 == i as int by {
                                if i2 < i { assert(g[i2].pr != pr@); }
                                if i2 > i { assert(g[i as int].pr != pr@); }
                            }
                            assert forall|j2: int| #[trigger] first_match(g, g[i as int].deps[k as int], j2) implies j2 == j as int by {
                                if j2 < j { assert(g[j2].pr != deps@[k as int]@); }
                                if j2 > j { assert(g[j as int].pr != deps@[k as int]@); }
                            }
                        }
                        return false;
                    }
                    proof {
                        assert forall|j2: int| #[trigger] first_match(g, g[i as int].deps[k as int], j2) implies g[j2].status == PrStatus::Merged by {
                            if j2 < j { assert(g[j2].pr != deps@[k as int]@); }
                            if j2 > j { assert(g[j as int].pr != deps@[k as int]@); }
                        }
                    }
                },
                None => {
                    proof {
                        assert forall|j2: int| #[trigger] first_match(g, g[i as int].deps[k as int], j2) implies false by {
                            assert(g[j2].pr != deps@[k as int]@);
                        }
                    }
                },
            }
            k = k + 1;
        }
        true
    }

    /// Every active node whose dependencies are met, in graph order.
    pub fn ready(&self) -> (r: Vec<&DependencyNode>)
        ensures
            ref_views(r@) == self@.filter(|n: NodeView| active(n) && deps_met(self@, n.pr)),
    {
        let r = self.select(true);
        assert((|n: NodeView| active(n) && deps_met(self@, n.pr) == true) =~= (|n: NodeView| active(n) && deps_met(self@, n.pr)));
        r
    }

    /// Every active node with an unmet dependency, in graph order.
    pub fn blocked(&self) -> (r: Vec<&DependencyNode>)
        ensures
            ref_views(r@) == self@.filter(|n: NodeView| active(n) && !deps_met(self@, n.pr)),
    {
        let r = self.select(false);
        assert((|n: NodeView| active(n) && deps_met(self@, n.pr) == false) =~= (|n: NodeView| active(n) && !deps_met(self@, n.pr)));
        r
    }

    fn select(&self, met: bool) -> (r: Vec<&DependencyNode>)
        ensures
            ref_views(r@) == self@.filter(|n: NodeView| active(n) && deps_met(self@, n.pr) == met),
    {
        let ghost g = self@;
        let ghost p = |n: NodeView| active(n) && deps_met(g, n.pr) == met;
        let mut out: Vec<&DependencyNode> = Vec::new();
        let mut i: usize = 0;
        while i < self.nodes.len()
            invariant
                g == self@,
                i <= g.len(),
                p == (|n: NodeView| active(n) && deps_met(g, n.pr) == met),
                ref_views(out@) == g.take(i as int).filter(p),
            decreases g.len() - i,
        {
            let node = &self.nodes[i];
            proof {
                assert(g.take(i + 1).drop_last() =~= g.take(i as int));
                reveal_with_fuel(Seq::filter, 1);
            }
            let ghost before = out@;
            let is_active = node.status != PrStatus::Merged && node.status != PrStatus::Closed;
            if is_active && self.dependencies_met(&node.pr) == met {
                out.push(node);
                assert(ref_views(out@) =~= ref_views(before).push(g[i as int]));
            } else {
                assert(ref_views(out@) =~= ref_views(before));
            }
            i = i + 1;
        }
        assert(g.take(g.len() as int) =~= g);
        out
    }

    /// Every tracked node, in graph order.
    pub fn nodes(&self) -> (r: &[DependencyNode])
        ensures
            node_views(r@) == self@,
    {
        self.nodes.as_slice()
    }

    /// Number of tracked nodes.
    pub fn len(&self) -> (n: usize)
        ensures
            n == self@.len(),
    {
        self.nodes.len()
    }

    /// Whether no node is tracked.
    pub fn is_empty(&self) -> (r: bool)
        ensures
            r == (self@.len() == 0),
    {
        self.nodes.len() == 0
    }
}

} // verus!
