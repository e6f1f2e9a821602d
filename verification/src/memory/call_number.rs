//! Call numbers: dotted hierarchical addresses of memories, such as
//! `ARCH.AUTH.MIDDLEWARE`, and the ones derived from file paths.

use vstd::prelude::*;
use crate::parse::{join, join_strings, split, split_str};
use crate::text::{clone_strings, slice_chars, str_eq, views};
use crate::vocab::{to_upper, upper};

verus! {

/// A hierarchical address: its segments from the most general down.
#[derive(Debug, PartialEq, Eq)]
pub struct CallNumber {
    pub segments: Vec<String>,
}

impl View for CallNumber {
    type V = Seq<Seq<char>>;

    open spec fn view(&self) -> Seq<Seq<char>> {
        views(self.segments@)
    }
}

impl Clone for CallNumber {
    fn clone(&self) -> (r: Self)
        ensures
            r@ == self@,
    {
        CallNumber { segments: clone_strings(&self.segments) }
    }
}

/// The non-empty pieces, in order.
pub open spec fn nonempty(ps: Seq<Seq<char>>) -> Seq<Seq<char>>
    decreases ps.len(),
{
    if ps.len() == 0 {
        Seq::empty()
    } else if ps.last().len() == 0 {
        nonempty(ps.drop_last())
    } else {
        nonempty(ps.drop_last()).push(ps.last())
    }
}

/// The number of leading segments two call numbers share.
pub open spec fn shared(a: Seq<Seq<char>>, b: Seq<Seq<char>>) -> nat
    decreases a.len(),
{
    if a.len() == 0 || b.len() == 0 || a[0] != b[0] {
        0
    } else {
        1 + shared(a.drop_first(), b.drop_first())
    }
}

proof fn lemma_shared(a: Seq<Seq<char>>, b: Seq<Seq<char>>, n: int)
    requires
        0 <= n <= a.len(),
        n <= b.len(),
        forall|j: int| 0 <= j < n ==> a[j] == b[j],
        n == a.len() || n == b.len() || a[n] != b[n],
    ensures
        shared(a, b) == n,
    decreases n,
{
    if n > 0 {
        assert forall|j: int| 0 <= j < n - 1 implies a.drop_first()[j] == b.drop_first()[j] by {
            assert(a[j + 1] == b[j + 1]);
        }
        lemma_shared(a.drop_first(), b.drop_first(), n - 1);
    }
}

impl CallNumber {
    /// The segments of the text between dots, empty ones left out.
    pub fn parse(s: &str) -> (c: Self)
        ensures
            c@ == nonempty(split(s@, seq!['.'])),
    {
        proof {
            reveal_strlit(".");
            assert("."@ =~= seq!['.']);
        }
        let pieces = split_str(s, ".");
        let ghost pv = views(pieces@);
        let mut segments: Vec<String> = Vec::new();
        let mut i: usize = 0;
        while i < pieces.len()
            invariant
                i <= pieces@.len(),
                pv == views(pieces@),
                views(segments@) == nonempty(pv.take(i as int)),
            decreases pieces@.len() - i,
        {
            let ghost before = views(segments@);
            assert(pv.take(i + 1).drop_last() =~= pv.take(i as int));
            assert(pv.take(i + 1).last() == pieces@[i as int]@);
            if pieces[i].unicode_len() > 0 {
                segments.push(pieces[i].clone());
                assert(views(segments@) =~= before.push(pieces@[i as int]@));
            }
            i = i + 1;
        }
        assert(pv.take(pieces@.len() as int) =~= pv);
        CallNumber { segments }
    }

    /// The segments joined with dots, e.g. `ARCH.AUTH.MIDDLEWARE`.
    pub fn to_string(&self) -> (s: String)
        ensures
            s@ == join(self@, seq!['.']),
    {
        proof {
            reveal_strlit(".");
            assert("."@ =~= seq!['.']);
        }
        join_strings(&self.segments, ".")
    }

    /// The number of segments.
    pub fn depth(&self) -> (n: usize)
        ensures
            n == self@.len(),
    {
        self.segments.len()
    }

    /// The number of leading segments shared with `other`.
    pub fn shared_depth(&self, other: &CallNumber) -> (n: usize)
        ensures
            n == shared(self@, other@),
    {
        let a = &self.segments;
        let b = &other.segments;
        let mut i: usize = 0;
        while i < a.len() && i < b.len() && str_eq(a[i].as_str(), b[i].as_str())
            invariant
                i <= a@.len(),
                i <= b@.len(),
                forall|j: int| 0 <= j < i ==> views(a@)[j] == views(b@)[j],
            decreases a@.len() - i,
        {
            i = i + 1;
        }
        proof { lemma_shared(self@, other@, i as int); }
        i
    }
}

/// Path components that name no level: empty ones, `src`, `lib` and `mod.rs`.
pub open spec fn skipped_component(s: Seq<char>) -> bool {
    s.len() == 0 || s == "src"@ || s == "lib"@ || s == "mod.rs"@
}

/// The name without its last extension: the part before the last dot, or
/// the whole name when it has no dot.
pub open spec fn without_extension(s: Seq<char>) -> Seq<char>
    decreases s.len(),
{
    if s.len() == 0 {
        s
    } else if s.last() == '.' {
        s.drop_last()
    } else {
        let rest = without_extension(s.drop_last());
        if rest.len() == s.len() - 1 { s } else { rest }
    }
}

/// The call number segments of the path components.
pub open spec fn path_segments(ps: Seq<Seq<char>>) -> Seq<Seq<char>>
    decreases ps.len(),
{
    if ps.len() == 0 {
        Seq::empty()
    } else if skipped_component(ps.last()) {
        path_segments(ps.drop_last())
    } else {
        path_segments(ps.drop_last()).push(upper(without_extension(ps.last())))
    }
}

/// The first `n` elements (all of them when there are fewer).
pub open spec fn first_n<A>(s: Seq<A>, n: nat) -> Seq<A> {
    if n < s.len() { s.take(n as int) } else { s }
}

/// Find the last dot.
fn last_dot(s: &str) -> (r: Option<usize>)
    ensures
        match r {
            Some(i) => i < s@.len() && s@[i as int] == '.' && forall|j: int| i < j < s@.len() ==> s@[j] != '.',
            None => forall|j: int| 0 <= j < s@.len() ==> s@[j] != '.',
        },
{
    let v = crate::text::chars_of(s);
    let mut i: usize = v.len();
    while i > 0
        invariant
            i <= v@.len(),
            v@ == s@,
            forall|j: int| i <= j < v@.len() ==> v@[j] != '.',
        decreases i,
    {
        if v[i - 1] == '.' {
            return Some(i - 1);
        }
        i = i - 1;
    }
    None
}

proof fn lemma_without_extension(s: Seq<char>)
    ensures
        (forall|j: int| 0 <= j < s.len() ==> s[j] != '.') ==> without_extension(s) == s,
        forall|i: int| 0 <= i < s.len() && s[i] == '.' && (forall|j: int| i < j < s.len() ==> s[j] != '.')
            ==> without_extension(s) == s.take(i),
    decreases s.len(),
{
    if s.len() > 0 {
        lemma_without_extension(s.drop_last());
        let d = s.drop_last();
        if s.last() != '.' {
            if forall|j: int| 0 <= j < d.len() ==> d[j] != '.' {
                assert(without_extension(d) == d);
            }
            assert forall|i: int| 0 <= i < s.len() && s[i] == '.' && (forall|j: int| i < j < s.len() ==> s[j] != '.')
                implies without_extension(s) == s.take(i) by {
                assert(i < d.len());
                assert(d[i] == '.');
                assert(forall|j: int| i < j < d.len() ==> d[j] == s[j]);
                assert(without_extension(d) == d.take(i));
                assert(d.take(i) =~= s.take(i));
            }
        } else {
            assert forall|i: int| 0 <= i < s.len() && s[i] == '.' && (forall|j: int| i < j < s.len() ==> s[j] != '.')
                implies without_extension(s) == s.take(i) by {
                if i < s.len() - 1 {
                    assert(s[s.len() - 1] != '.');
                }
                assert(s.drop_last() =~= s.take(i));
            }
        }
    }
}

/// The call number of a file path: its components (without `src`, `lib`,
/// `mod.rs` and empty ones), extensions removed, upper-cased, at most
/// `max_depth` of them.
pub fn call_number_from_path(path: &str, max_depth: usize) -> (c: CallNumber)
    ensures
        c@ == first_n(path_segments(split(path@, seq!['/'])), max_depth as nat),
{
    proof {
        reveal_strlit("/");
        reveal_strlit("src");
        reveal_strlit("lib");
        reveal_strlit("mod.rs");
        assert("/"@ =~= seq!['/']);
    }
    let pieces = split_str(path, "/");
    let ghost pv = views(pieces@);
    let mut segments: Vec<String> = Vec::new();
    let mut i: usize = 0;
    while i < pieces.len() && segments.len() < max_depth
        invariant
            i <= pieces@.len(),
            pv == views(pieces@),
            views(segments@) == path_segments(pv.take(i as int)),
            segments@.len() <= max_depth,
        decreases pieces@.len() - i,
    {
        let p = pieces[i].as_str();
        let ghost before = views(segments@);
        assert(pv.take(i + 1).drop_last() =~= pv.take(i as int));
        assert(pv.take(i + 1).last() == p@);
        proof {
            reveal_strlit("src");
            reveal_strlit("lib");
            reveal_strlit("mod.rs");
        }
        if !(p.unicode_len() == 0 || str_eq(p, "src") || str_eq(p, "lib") || str_eq(p, "mod.rs")) {
            proof { lemma_without_extension(p@); }
            let name = match last_dot(p) {
                Some(d) => slice_chars(p, 0, d),
                None => p.to_owned(),
            };
            assert(name@ == without_extension(p@)) by {
                assert(p@.subrange(0, name@.len() as int) =~= p@.take(name@.len() as int));
            }
            let up = to_upper(name.as_str());
            let ghost uv = up@;
            segments.push(up);
            assert(views(segments@) =~= before.push(uv));
        }
        i = i + 1;
    }
    proof {
        lemma_path_segments_prefix(pv, i as int);
        let full = path_segments(pv);
        if i == pieces@.len() {
            assert(pv.take(i as int) =~= pv);
        } else {
            assert(segments@.len() == max_depth);
            assert(views(segments@).len() == max_depth);
        }
    }
    CallNumber { segments }
}

/// Segments come from components in order: a prefix of the components
/// gives a prefix of the segments, and the full list once it has reached
/// the limit.
proof fn lemma_path_segments_prefix(ps: Seq<Seq<char>>, i: int)
    requires
        0 <= i <= ps.len(),
    ensures
        path_segments(ps).take(path_segments(ps.take(i)).len() as int) == path_segments(ps.take(i)),
        path_segments(ps.take(i)).len() <= path_segments(ps).len(),
    decreases ps.len() - i,
{
    if i < ps.len() {
        lemma_path_segments_prefix(ps, i + 1);
        let a = path_segments(ps.take(i));
        let b = path_segments(ps.take(i + 1));
        assert(ps.take(i + 1).drop_last() =~= ps.take(i));
        assert(b.take(a.len() as int) =~= a);
        assert(path_segments(ps).take(a.len() as int) =~= path_segments(ps).take(b.len() as int).take(a.len() as int));
    } else {
        assert(ps.take(i) =~= ps);
    }
}

/// How many segments the two call numbers differ in below their shared
/// prefix, counted on both sides.
pub fn call_number_distance(a: &CallNumber, b: &CallNumber) -> (d: usize)
    requires
        a@.len() + b@.len() <= usize::MAX,
    ensures
        d == (a@.len() - shared(a@, b@)) + (b@.len() - shared(a@, b@)),
{
    let s = a.shared_depth(b);
    proof { lemma_shared_bound(a@, b@); }
    (a.depth() - s) + (b.depth() - s)
}

/// The shared prefix, and so the distance, does not depend on the order of
/// the two call numbers; a call number is at distance zero from itself.
pub proof fn lemma_distance_symmetric(a: Seq<Seq<char>>, b: Seq<Seq<char>>)
    ensures
        shared(a, b) == shared(b, a),
        (a.len() - shared(a, b)) + (b.len() - shared(a, b)) == (b.len() - shared(b, a)) + (a.len() - shared(b, a)),
        shared(a, a) == a.len(),
    decreases a.len(),
{
    if a.len() > 0 && b.len() > 0 && a[0] == b[0] {
        lemma_distance_symmetric(a.drop_first(), b.drop_first());
    }
    if a.len() > 0 {
        lemma_distance_symmetric(a.drop_first(), a.drop_first());
    }
}

proof fn lemma_shared_bound(a: Seq<Seq<char>>, b: Seq<Seq<char>>)
    ensures
        shared(a, b) <= a.len(),
        shared(a, b) <= b.len(),
    decreases a.len(),
{
    if a.len() > 0 && b.len() > 0 && a[0] == b[0] {
        lemma_shared_bound(a.drop_first(), b.drop_first());
    }
}

/// The top-level categories every hierarchy starts with.
pub open spec fn top_level_categories() -> Seq<(Seq<char>, Seq<char>)> {
    seq![
        ("ARCH"@, "Architecture decisions"@),
        ("TEST"@, "Testing knowledge"@),
        ("TOOL"@, "Tooling and build knowledge"@),
        ("SEC"@, "Security knowledge"@),
        ("DOM"@, "Domain-specific knowledge"@),
        ("API"@, "API layer knowledge"@),
        ("DB"@, "Database knowledge"@),
        ("OPS"@, "Operations and deployment"@),
        ("DOC"@, "Documentation patterns"@),
        ("REF"@, "Reference and standards"@)
    ]
}

/// A level of the call number tree.
#[derive(Debug, PartialEq, Eq)]
pub struct HierarchyNode {
    pub segment: String,
    pub description: String,
    pub children: Vec<HierarchyNode>,
}

/// The classification scheme: a tree of segments under the top-level
/// categories, no deeper than `max_depth`.
#[derive(Debug, PartialEq, Eq)]
pub struct CallNumberHierarchy {
    pub roots: Vec<HierarchyNode>,
    pub max_depth: usize,
}

/// The path `p` of segments is in the tree `level`.
pub open spec fn has_path(level: Seq<HierarchyNode>, p: Seq<Seq<char>>) -> bool
    decreases p.len(),
{
    p.len() > 0 && exists|i: int| 0 <= i < level.len() && (#[trigger] level[i]).segment@ == p[0]
        && (p.len() == 1 || has_path(level[i].children@, p.drop_first()))
}

/// `p` is a non-empty leading part of `s`.
pub open spec fn leading(p: Seq<Seq<char>>, s: Seq<Seq<char>>) -> bool {
    1 <= p.len() <= s.len() && p == s.take(p.len() as int)
}

/// The position of the first node with a segment.
pub open spec fn first_index(level: Seq<HierarchyNode>, seg: Seq<char>) -> Option<int>
    decreases level.len(),
{
    if level.len() == 0 {
        None
    } else if level[0].segment@ == seg {
        Some(0)
    } else {
        match first_index(level.drop_first(), seg) {
            Some(k) => Some(k + 1),
            None => None,
        }
    }
}

proof fn lemma_first_index(level: Seq<HierarchyNode>, seg: Seq<char>, k: int)
    requires
        0 <= k <= level.len(),
        forall|j: int| 0 <= j < k ==> (#[trigger] level[j]).segment@ != seg,
    ensures
        k < level.len() && level[k].segment@ == seg ==> first_index(level, seg) == Some(k),
        k == level.len() ==> first_index(level, seg) is None,
    decreases k,
{
    if k > 0 {
        assert forall|j: int| 0 <= j < k - 1 implies (#[trigger] level.drop_first()[j]).segment@ != seg by {
            assert(level.drop_first()[j] == level[j + 1]);
        }
        lemma_first_index(level.drop_first(), seg, k - 1);
        assert(level[0].segment@ != seg);
        if k < level.len() {
            assert(level.drop_first()[k - 1] == level[k]);
        }
    }
}

/// Find the first node with a segment.
fn find_segment(level: &Vec<HierarchyNode>, seg: &str) -> (r: Option<usize>)
    ensures
        match r {
            Some(k) => first_index(level@, seg@) == Some(k as int) && k < level@.len(),
            None => first_index(level@, seg@) is None,
        },
{
    let mut k: usize = 0;
    while k < level.len()
        invariant
            k <= level@.len(),
            forall|j: int| 0 <= j < k ==> (#[trigger] level@[j]).segment@ != seg@,
        decreases level@.len() - k,
    {
        if str_eq(level[k].segment.as_str(), seg) {
            proof { lemma_first_index(level@, seg@, k as int); }
            return Some(k);
        }
        k = k + 1;
    }
    proof { lemma_first_index(level@, seg@, k as int); }
    None
}

proof fn lemma_first_index_props(level: Seq<HierarchyNode>, seg: Seq<char>)
    ensures
        match first_index(level, seg) {
            Some(k) => 0 <= k < level.len() && level[k].segment@ == seg && forall|j: int| 0 <= j < k ==> (#[trigger] level[j]).segment@ != seg,
            None => forall|j: int| 0 <= j < level.len() ==> (#[trigger] level[j]).segment@ != seg,
        },
    decreases level.len(),
{
    if level.len() > 0 {
        lemma_first_index_props(level.drop_first(), seg);
        assert forall|j: int| 0 < j < level.len() implies #[trigger] level[j] == level.drop_first()[j - 1] by {}
    }
}

/// Enter the segments `segs[i..]` below `level`, creating the nodes that
/// are missing (at the end of their level, with no description).
fn register_in(level: &mut Vec<HierarchyNode>, segs: &Vec<String>, i: usize)
    requires
        i < segs@.len(),
    ensures
        forall|p: Seq<Seq<char>>| #[trigger] has_path(final(level)@, p) <==> has_path(old(level)@, p) || leading(p, views(segs@).skip(i as int)),
    decreases segs@.len() - i,
{
    let ghost sv = views(segs@).skip(i as int);
    let ghost l0 = level@;
    let seg = segs[i].as_str();
    assert(sv[0] == seg@);
    let idx = match find_segment(level, seg) {
        Some(k) => k,
        None => {
            let children: Vec<HierarchyNode> = Vec::new();
            level.push(HierarchyNode { segment: seg.to_owned(), description: String::new(), children });
            level.len() - 1
        },
    };
    let ghost l1 = level@;
    proof {
        lemma_first_index_props(l0, seg@);
        assert(idx < l1.len() && l1[idx as int].segment@ == seg@);
        assert forall|j: int| 0 <= j < l0.len() implies l1[j] == l0[j] by {}
    }
    if i < segs.len() - 1 {
        let mut node = level.remove(idx);
        let ghost c0 = node.children@;
        register_in(&mut node.children, segs, i + 1);
        let ghost c1 = node.children@;
        level.insert(idx, node);
        let ghost l2 = level@;
        proof {
            let tail = views(segs@).skip(i + 1);
            assert(tail =~= sv.drop_first());
            assert forall|j: int| 0 <= j < l2.len() && j != idx implies l2[j] == l1[j] by {}
            assert(l2[idx as int].segment@ == seg@);
            assert(l2[idx as int].children@ == c1);
            assert(c0 == l1[idx as int].children@);
            assert forall|p: Seq<Seq<char>>| #[trigger] has_path(l2, p) <==> has_path(l0, p) || leading(p, sv) by {
                lemma_paths_after(l0, l1, l2, idx as int, seg@, sv, p);
            }
        }
    } else {
        proof {
            assert forall|p: Seq<Seq<char>>| #[trigger] has_path(l1, p) <==> has_path(l0, p) || leading(p, sv) by {
                lemma_paths_single(l0, l1, idx as int, seg@, sv, p);
            }
        }
    }
}

/// A path of one segment ends at the node entered for it.
proof fn lemma_paths_single(l0: Seq<HierarchyNode>, l1: Seq<HierarchyNode>, idx: int, seg: Seq<char>, sv: Seq<Seq<char>>, p: Seq<Seq<char>>)
    requires
        sv.len() == 1,
        sv[0] == seg,
        0 <= idx < l1.len(),
        l1[idx].segment@ == seg,
        l0.len() <= l1.len() <= l0.len() + 1,
        forall|j: int| 0 <= j < l0.len() ==> l1[j] == l0[j],
        l1.len() == l0.len() + 1 ==> idx == l0.len() && l1[idx].children@.len() == 0,
    ensures
        has_path(l1, p) <==> has_path(l0, p) || leading(p, sv),
{
    if has_path(l1, p) {
        let i = choose|i: int| 0 <= i < l1.len() && (#[trigger] l1[i]).segment@ == p[0]
            && (p.len() == 1 || has_path(l1[i].children@, p.drop_first()));
        if i < l0.len() {
            assert(l0[i] == l1[i]);
        } else {
            if p.len() > 1 {
                assert(!has_path(l1[i].children@, p.drop_first()));
            }
            assert(p =~= sv.take(1));
        }
    }
    if has_path(l0, p) {
        let i = choose|i: int| 0 <= i < l0.len() && (#[trigger] l0[i]).segment@ == p[0]
            && (p.len() == 1 || has_path(l0[i].children@, p.drop_first()));
        assert(l1[i] == l0[i]);
    }
    if leading(p, sv) {
        assert(p.len() == 1);
        assert(p[0] == sv[0]);
        assert(l1[idx].segment@ == p[0]);
    }
}

/// Entering the rest of the segments below the node for the first one.
proof fn lemma_paths_after(
    l0: Seq<HierarchyNode>,
    l1: Seq<HierarchyNode>,
    l2: Seq<HierarchyNode>,
    idx: int,
    seg: Seq<char>,
    sv: Seq<Seq<char>>,
    p: Seq<Seq<char>>,
)
    requires
        sv.len() >= 2,
        sv[0] == seg,
        0 <= idx < l1.len(),
        l1[idx].segment@ == seg,
        first_index(l0, seg) is None ==> idx == l0.len() && l1.len() == l0.len() + 1 && l1[idx].children@.len() == 0,
        first_index(l0, seg) is Some ==> first_index(l0, seg) == Some(idx) && l1 == l0,
        forall|j: int| 0 <= j < l0.len() ==> l1[j] == l0[j],
        l1.len() <= l0.len() + 1,
        l2.len() == l1.len(),
        forall|j: int| 0 <= j < l2.len() && j != idx ==> l2[j] == l1[j],
        l2[idx].segment@ == seg,
        forall|q: Seq<Seq<char>>| #[trigger] has_path(l2[idx].children@, q) <==> has_path(l1[idx].children@, q) || leading(q, sv.drop_first()),
    ensures
        has_path(l2, p) <==> has_path(l0, p) || leading(p, sv),
{
    lemma_first_index_props(l0, seg);
    if has_path(l2, p) {
        let i = choose|i: int| 0 <= i < l2.len() && (#[trigger] l2[i]).segment@ == p[0]
            && (p.len() == 1 || has_path(l2[i].children@, p.drop_first()));
        if i != idx {
            assert(l2[i] == l1[i]);
            assert(i < l0.len());
            assert(l1[i] == l0[i]);
        } else {
            if p.len() == 1 {
                assert(p =~= sv.take(1));
            } else if has_path(l1[idx].children@, p.drop_first()) {
                if idx < l0.len() {
                    assert(l0[idx] == l1[idx]);
                } else {
                    assert(!has_path(l1[idx].children@, p.drop_first()));
                }
            } else {
                assert(leading(p.drop_first(), sv.drop_first()));
                assert(p =~= sv.take(p.len() as int)) by {
                    assert forall|k: int| 0 <= k < p.len() implies p[k] == sv.take(p.len() as int)[k] by {
                        if k > 0 {
                            assert(p[k] == p.drop_first()[k - 1]);
                            assert(sv.drop_first().take(p.len() - 1)[k - 1] == sv[k]);
                        }
                    }
                }
            }
        }
    }
    if has_path(l0, p) {
        let i = choose|i: int| 0 <= i < l0.len() && (#[trigger] l0[i]).segment@ == p[0]
            && (p.len() == 1 || has_path(l0[i].children@, p.drop_first()));
        assert(l1[i] == l0[i]);
        if i != idx {
            assert(l2[i] == l1[i]);
        } else {
            assert(l2[idx].segment@ == p[0]);
        }
    }
    if leading(p, sv) {
        assert(p[0] == sv[0]);
        assert(l2[idx].segment@ == p[0]);
        if p.len() > 1 {
            assert(leading(p.drop_first(), sv.drop_first())) by {
                assert(p.drop_first() =~= sv.drop_first().take(p.len() - 1));
            }
            assert(has_path(l2[idx].children@, p.drop_first()));
        }
    }
}

/// The description `lookup` gives: walking the segments through the first
/// matching nodes, the last non-empty description met.
pub open spec fn lookup_from(level: Seq<HierarchyNode>, segs: Seq<Seq<char>>, last: Option<Seq<char>>) -> Option<Seq<char>>
    decreases segs.len(),
{
    if segs.len() == 0 {
        last
    } else {
        match first_index(level, segs[0]) {
            None => last,
            Some(k) => lookup_from(
                level[k].children@,
                segs.drop_first(),
                if level[k].description@.len() > 0 { Some(level[k].description@) } else { last },
            ),
        }
    }
}

/// The level reached by following the segments through first matches.
pub open spec fn level_at(level: Seq<HierarchyNode>, segs: Seq<Seq<char>>) -> Option<Seq<HierarchyNode>>
    decreases segs.len(),
{
    if segs.len() == 0 {
        Some(level)
    } else {
        match first_index(level, segs[0]) {
            None => None,
            Some(k) => level_at(level[k].children@, segs.drop_first()),
        }
    }
}

/// The call numbers of the nodes of a level other than `own`, under
/// `parent`, in order.
pub open spec fn siblings(level: Seq<HierarchyNode>, parent: Seq<Seq<char>>, own: Seq<char>) -> Seq<Seq<Seq<char>>>
    decreases level.len(),
{
    if level.len() == 0 {
        Seq::empty()
    } else {
        let rest = siblings(level.drop_last(), parent, own);
        if level.last().segment@ != own { rest.push(parent.push(level.last().segment@)) } else { rest }
    }
}

/// The neighbours of a call number: the other nodes under its parent.
pub open spec fn neighbors(roots: Seq<HierarchyNode>, c: Seq<Seq<char>>) -> Seq<Seq<Seq<char>>> {
    if c.len() == 0 {
        Seq::empty()
    } else {
        match level_at(roots, c.drop_last()) {
            None => Seq::empty(),
            Some(l) => siblings(l, c.drop_last(), c.last()),
        }
    }
}

/// Every node's call number, each node before its children, in order.
pub open spec fn preorder(level: Seq<HierarchyNode>, prefix: Seq<Seq<char>>) -> Seq<Seq<Seq<char>>>
    decreases level,
{
    if level.len() == 0 {
        Seq::empty()
    } else {
        let n = level[level.len() - 1];
        let p = prefix.push(n.segment@);
        proof {
            assert(decreases_to!(level => level[level.len() - 1]));
        }
        preorder(level.subrange(0, level.len() - 1), prefix) + seq![p] + preorder(n.children@, p)
    }
}

/// The views of call numbers.
pub open spec fn call_number_views(v: Seq<CallNumber>) -> Seq<Seq<Seq<char>>> {
    v.map_values(|c: CallNumber| c@)
}

/// Add the call numbers of a level (under `prefix`) to `out`.
fn collect(level: &Vec<HierarchyNode>, prefix: &Vec<String>, out: &mut Vec<CallNumber>)
    ensures
        call_number_views(final(out)@) == call_number_views(old(out)@) + preorder(level@, views(prefix@)),
    decreases level@,
{
    let ghost o0 = call_number_views(out@);
    let mut i: usize = 0;
    proof {
        assert(level@.subrange(0, 0) =~= Seq::<HierarchyNode>::empty());
        assert(o0 + preorder(level@.subrange(0, 0), views(prefix@)) =~= o0);
    }
    while i < level.len()
        invariant
            i <= level@.len(),
            call_number_views(out@) == o0 + preorder(level@.subrange(0, i as int), views(prefix@)),
        decreases level@.len() - i,
    {
        let node = &level[i];
        let mut path = clone_strings(prefix);
        let ghost pv = views(prefix@);
        path.push(node.segment.clone());
        assert(views(path@) =~= pv.push(node.segment@));
        let ghost before = call_number_views(out@);
        out.push(CallNumber { segments: clone_strings(&path) });
        assert(call_number_views(out@) =~= before.push(views(path@)));
        proof {
            assert(decreases_to!(level@ => level@[i as int]));
        }
        collect(&node.children, &path, out);
        proof {
            let sub = level@.subrange(0, i + 1);
            assert(sub.subrange(0, sub.len() - 1) =~= level@.subrange(0, i as int));
            assert(sub[sub.len() - 1] == level@[i as int]);
        }
        i = i + 1;
    }
    assert(level@.subrange(0, level@.len() as int) =~= level@);
}

impl CallNumberHierarchy {
    /// The top-level categories, no deeper than `max_depth`.
    pub fn default_hierarchy(max_depth: usize) -> (h: Self)
        ensures
            h.max_depth == max_depth,
            h.roots@.len() == top_level_categories().len(),
            forall|i: int| 0 <= i < h.roots@.len() ==> {
                &&& (#[trigger] h.roots@[i]).segment@ == top_level_categories()[i].0
                &&& h.roots@[i].description@ == top_level_categories()[i].1
                &&& h.roots@[i].children@.len() == 0
            },
    {
        let mut roots: Vec<HierarchyNode> = Vec::new();
        roots.push(HierarchyNode { segment: "ARCH".to_owned(), description: "Architecture decisions".to_owned(), children: Vec::new() });
        roots.push(HierarchyNode { segment: "TEST".to_owned(), description: "Testing knowledge".to_owned(), children: Vec::new() });
        roots.push(HierarchyNode { segment: "TOOL".to_owned(), description: "Tooling and build knowledge".to_owned(), children: Vec::new() });
        roots.push(HierarchyNode { segment: "SEC".to_owned(), description: "Security knowledge".to_owned(), children: Vec::new() });
        roots.push(HierarchyNode { segment: "DOM".to_owned(), description: "Domain-specific knowledge".to_owned(), children: Vec::new() });
        roots.push(HierarchyNode { segment: "API".to_owned(), description: "API layer knowledge".to_owned(), children: Vec::new() });
        roots.push(HierarchyNode { segment: "DB".to_owned(), description: "Database knowledge".to_owned(), children: Vec::new() });
        roots.push(HierarchyNode { segment: "OPS".to_owned(), description: "Operations and deployment".to_owned(), children: Vec::new() });
        roots.push(HierarchyNode { segment: "DOC".to_owned(), description: "Documentation patterns".to_owned(), children: Vec::new() });
        roots.push(HierarchyNode { segment: "REF".to_owned(), description: "Reference and standards".to_owned(), children: Vec::new() });
        CallNumberHierarchy { roots, max_depth }
    }

    /// Enter a call number, creating the levels it needs; refused (false)
    /// when it is empty or deeper than the maximum.
    pub fn register(&mut self, call_number: &CallNumber) -> (r: bool)
        ensures
            r == (0 < call_number@.len() <= old(self).max_depth),
            final(self).max_depth == old(self).max_depth,
            !r ==> final(self).roots@ == old(self).roots@,
            r ==> forall|p: Seq<Seq<char>>| #[trigger] has_path(final(self).roots@, p) <==> has_path(old(self).roots@, p) || leading(p, call_number@),
    {
        if call_number.depth() > self.max_depth {
            return false;
        }
        if call_number.segments.len() == 0 {
            return false;
        }
        register_in(&mut self.roots, &call_number.segments, 0);
        assert(views(call_number.segments@).skip(0) =~= call_number@);
        true
    }
}


impl CallNumberHierarchy {
    /// The description of a call number: walking its segments through the
    /// tree (first matching node at each level), the last non-empty
    /// description met; `None` if there is none.
    pub fn lookup(&self, call_number: &CallNumber) -> (r: Option<&str>)
        ensures
            match r {
                Some(d) => lookup_from(self.roots@, call_number@, None) == Some(d@),
                None => lookup_from(self.roots@, call_number@, None) is None,
            },
    {
        let segs = &call_number.segments;
        let ghost sv = views(segs@);
        let mut current: &Vec<HierarchyNode> = &self.roots;
        let mut last: Option<&str> = None;
        let ghost mut lv: Option<Seq<char>> = None;
        let mut i: usize = 0;
        assert(sv.skip(0) =~= sv);
        while i < segs.len()
            invariant
                i <= segs@.len(),
                sv == views(segs@),
                sv == call_number@,
                lv == (match last {
                    Some(d) => Some(d@),
                    None => None::<Seq<char>>,
                }),
                lookup_from(self.roots@, sv, None) == lookup_from(current@, sv.skip(i as int), lv),
            decreases segs@.len() - i,
        {
            assert(sv.skip(i as int)[0] == segs@[i as int]@);
            assert(sv.skip(i as int).drop_first() =~= sv.skip(i + 1));
            match find_segment(current, segs[i].as_str()) {
                None => {
                    assert(lookup_from(current@, sv.skip(i as int), lv) == lv);
                    return last;
                },
                Some(k) => {
                    let node = &current[k];
                    if node.description.unicode_len() > 0 {
                        last = Some(node.description.as_str());
                        proof {
                            lv = Some(node.description@);
                        }
                    }
                    current = &node.children;
                },
            }
            i = i + 1;
        }
        assert(sv.skip(i as int) =~= Seq::<Seq<char>>::empty());
        last
    }

    /// The other call numbers under the same parent, in tree order.
    pub fn find_neighbors(&self, call_number: &CallNumber) -> (r: Vec<CallNumber>)
        ensures
            call_number_views(r@) == neighbors(self.roots@, call_number@),
    {
        let mut results: Vec<CallNumber> = Vec::new();
        let segs = &call_number.segments;
        let ghost sv = views(segs@);
        if segs.len() == 0 {
            assert(call_number_views(results@) =~= Seq::<Seq<Seq<char>>>::empty());
            return results;
        }
        let n = segs.len() - 1;
        let ghost parent = sv.drop_last();
        let mut current: &Vec<HierarchyNode> = &self.roots;
        let mut i: usize = 0;
        assert(parent.skip(0) =~= parent);
        while i < n
            invariant
                n == segs@.len() - 1,
                i <= n,
                sv == views(segs@),
                sv == call_number@,
                parent == sv.drop_last(),
                level_at(self.roots@, parent) == level_at(current@, parent.skip(i as int)),
                results@.len() == 0,
            decreases n - i,
        {
            assert(parent.skip(i as int)[0] == segs@[i as int]@);
            assert(parent.skip(i as int).drop_first() =~= parent.skip(i + 1));
            match find_segment(current, segs[i].as_str()) {
                None => {
                    assert(call_number_views(results@) =~= Seq::<Seq<Seq<char>>>::empty());
                    assert(parent.skip(i as int).len() > 0);
                    assert(level_at(current@, parent.skip(i as int)) is None);
                    assert(call_number@.len() > 0);
                    assert(call_number@.drop_last() == parent);
                    assert(level_at(self.roots@, call_number@.drop_last()) is None);
                    assert(neighbors(self.roots@, call_number@) == Seq::<Seq<Seq<char>>>::empty());
                    return results;
                },
                Some(k) => {
                    current = &current[k].children;
                },
            }
            i = i + 1;
        }
        assert(parent.skip(n as int) =~= Seq::<Seq<char>>::empty());
        let own = segs[n].as_str();
        assert(sv.last() == own@);
        let mut prefix: Vec<String> = Vec::new();
        let mut j: usize = 0;
        while j < n
            invariant
                j <= n,
                n == segs@.len() - 1,
                sv == views(segs@),
                views(prefix@) == sv.take(j as int),
            decreases n - j,
        {
            let ghost before = views(prefix@);
            let seg = segs[j].clone();
            assert(seg@ == sv[j as int]);
            prefix.push(seg);
            assert(views(prefix@) =~= before.push(sv[j as int]));
            assert(sv.take(j + 1) =~= sv.take(j as int).push(sv[j as int]));
            j = j + 1;
        }
        assert(sv.take(n as int) =~= parent);
        let mut k: usize = 0;
        assert(current@.subrange(0, 0) =~= Seq::<HierarchyNode>::empty());
        while k < current.len()
            invariant
                k <= current@.len(),
                views(prefix@) == parent,
                call_number_views(results@) == siblings(current@.take(k as int), parent, own@),
            decreases current@.len() - k,
        {
            let node = &current[k];
            assert(current@.take(k + 1).drop_last() =~= current@.take(k as int));
            assert(current@.take(k + 1).last() == *node);
            if !str_eq(node.segment.as_str(), own) {
                let mut segsv = clone_strings(&prefix);
                segsv.push(node.segment.clone());
                let ghost before = call_number_views(results@);
                assert(views(segsv@) =~= parent.push(node.segment@));
                results.push(CallNumber { segments: segsv });
                assert(call_number_views(results@) =~= before.push(parent.push(node.segment@)));
            }
            k = k + 1;
        }
        assert(current@.take(current@.len() as int) =~= current@);
        results
    }

    /// Every registered call number, each before the ones below it.
    pub fn all_call_numbers(&self) -> (r: Vec<CallNumber>)
        ensures
            call_number_views(r@) == preorder(self.roots@, Seq::empty()),
    {
        let mut out: Vec<CallNumber> = Vec::new();
        let prefix: Vec<String> = Vec::new();
        assert(views(prefix@) =~= Seq::<Seq<char>>::empty());
        assert(call_number_views(out@) =~= Seq::<Seq<Seq<char>>>::empty());
        collect(&self.roots, &prefix, &mut out);
        assert(call_number_views(out@) =~= preorder(self.roots@, Seq::empty()));
        out
    }
}

} // verus!
