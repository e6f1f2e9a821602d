//! Manifest entry CRDT operations.
//!
//! When two agents independently modify the same entry, `merge` produces a
//! deterministic result without coordination:
//!
//! - `access_count`, `consensus_citations`, `version`: maximum;
//! - `tags`: union, sorted;
//! - `last_accessed`: the later timestamp;
//! - the other fields: those of the entry with the higher `version`; on equal
//!   versions, those of the entry whose fields are greater in `reg_lt`
//!   (content first), so that the result does not depend on argument order.
//!
//! `lemma_merge_commutative` and `lemma_merge_associative` state the two laws.

use vstd::prelude::*;
use vstd::relations::{sorted_by, total_ordering};
use vstd::string::*;
use crate::ids::{AgentId, EntryId};
use crate::text::{
    clone_opt, clone_strings, contains_string, dec, dec_string, str_eq, hex_pad, hex_pad_string, lex_leq,
    lemma_lex_total, push_str, seq_lt, sort_strings, str_lt, views,
};
use super::types::{ManifestCategory, ManifestEntry, category_ttl};

verus! {

/// The mathematical content of a manifest entry.
pub struct EntryView {
    pub id: Seq<char>,
    pub agent: Seq<char>,
    pub category: ManifestCategory,
    pub created: Seq<char>,
    pub ttl: Option<Seq<char>>,
    pub expires: Option<Seq<char>>,
    pub tags: Seq<Seq<char>>,
    pub content: Seq<char>,
    pub embedding_hash: Option<Seq<char>>,
    pub access_count: u64,
    pub last_accessed: Option<Seq<char>>,
    pub tide_created: Seq<char>,
    pub version: u64,
    pub consensus_citations: u64,
}

/// The view of an optional string.
pub open spec fn opt_view(o: Option<String>) -> Option<Seq<char>> {
    match o {
        Some(s) => Some(s@),
        None => None,
    }
}

impl View for ManifestEntry {
    type V = EntryView;

    open spec fn view(&self) -> EntryView {
        EntryView {
            id: self.id@,
            agent: self.agent@,
            category: self.category,
            created: self.created@,
            ttl: opt_view(self.ttl),
            expires: opt_view(self.expires),
            tags: views(self.tags@),
            content: self.content@,
            embedding_hash: opt_view(self.embedding_hash),
            access_count: self.access_count,
            last_accessed: opt_view(self.last_accessed),
            tide_created: self.tide_created@,
            version: self.version,
            consensus_citations: self.consensus_citations,
        }
    }
}

impl Clone for ManifestEntry {
    fn clone(&self) -> (r: Self)
        ensures
            r@ == self@,
    {
        ManifestEntry {
            id: self.id.clone(),
            agent: self.agent.clone(),
            category: self.category,
            created: self.created.clone(),
            ttl: clone_opt(&self.ttl),
            expires: clone_opt(&self.expires),
            tags: clone_strings(&self.tags),
            content: self.content.clone(),
            embedding_hash: clone_opt(&self.embedding_hash),
            access_count: self.access_count,
            last_accessed: clone_opt(&self.last_accessed),
            tide_created: self.tide_created.clone(),
            version: self.version,
            consensus_citations: self.consensus_citations,
        }
    }
}

/// `acc` extended, in order, by each element of `src` that it does not yet hold.
pub open spec fn add_missing(acc: Seq<Seq<char>>, src: Seq<Seq<char>>) -> Seq<Seq<char>>
    decreases src.len(),
{
    if src.len() == 0 {
        acc
    } else {
        let a = add_missing(acc, src.drop_last());
        if a.contains(src.last()) {
            a
        } else {
            a.push(src.last())
        }
    }
}

/// The later of two optional timestamps (lexicographic order; `None` is earliest).
pub open spec fn later(l: Option<Seq<char>>, r: Option<Seq<char>>) -> Option<Seq<char>> {
    match (l, r) {
        (Some(a), Some(b)) => Some(if seq_lt(b, a) { a } else { b }),
        (Some(a), None) => Some(a),
        (None, Some(b)) => Some(b),
        (None, None) => None,
    }
}

pub open spec fn max_u64(a: u64, b: u64) -> u64 {
    if a >= b { a } else { b }
}

/// The order of optional strings: `None` first, then by the lexicographic order.
pub open spec fn opt_lt(a: Option<Seq<char>>, b: Option<Seq<char>>) -> bool {
    match (a, b) {
        (None, Some(_)) => true,
        (Some(x), Some(y)) => seq_lt(x, y),
        _ => false,
    }
}

/// The position of a category in declaration order.
pub open spec fn cat_rank(c: ManifestCategory) -> int {
    match c {
        ManifestCategory::Pattern => 0,
        ManifestCategory::Error => 1,
        ManifestCategory::Decision => 2,
        ManifestCategory::Identity => 3,
    }
}

/// The order of the versioned-register fields: lexicographic over content,
/// agent, created, tide label, category, time-to-live, expiry and embedding hash.
pub open spec fn reg_lt(a: EntryView, b: EntryView) -> bool {
    if a.content != b.content {
        seq_lt(a.content, b.content)
    } else if a.agent != b.agent {
        seq_lt(a.agent, b.agent)
    } else if a.created != b.created {
        seq_lt(a.created, b.created)
    } else if a.tide_created != b.tide_created {
        seq_lt(a.tide_created, b.tide_created)
    } else if a.category != b.category {
        cat_rank(a.category) < cat_rank(b.category)
    } else if a.ttl != b.ttl {
        opt_lt(a.ttl, b.ttl)
    } else if a.expires != b.expires {
        opt_lt(a.expires, b.expires)
    } else {
        opt_lt(a.embedding_hash, b.embedding_hash)
    }
}

/// Whether `r` wins the versioned register over `l`: a higher version, or on
/// equal versions the register fields that come later in `reg_lt`.
pub open spec fn key_lt(l: EntryView, r: EntryView) -> bool {
    if l.version != r.version {
        l.version < r.version
    } else {
        reg_lt(l, r)
    }
}

/// The entry whose register fields the merge keeps.
pub open spec fn register_winner(l: EntryView, r: EntryView) -> EntryView {
    if key_lt(l, r) { r } else { l }
}

/// The union of two tag lists, each tag once, sorted.
pub open spec fn tag_union(l: Seq<Seq<char>>, r: Seq<Seq<char>>) -> Seq<Seq<char>> {
    add_missing(add_missing(Seq::empty(), l), r).sort_by(lex_leq())
}

/// The CRDT merge of two entry views; `None` when their ids differ.
pub open spec fn merge_view(l: EntryView, r: EntryView) -> Option<EntryView> {
    if l.id != r.id {
        None
    } else {
        let base = register_winner(l, r);
        Some(EntryView {
            tags: tag_union(l.tags, r.tags),
            access_count: max_u64(l.access_count, r.access_count),
            last_accessed: later(l.last_accessed, r.last_accessed),
            version: max_u64(l.version, r.version),
            consensus_citations: max_u64(l.consensus_citations, r.consensus_citations),
            ..base
        })
    }
}

/// The view of an optional entry.
pub open spec fn opt_entry_view(o: Option<ManifestEntry>) -> Option<EntryView> {
    match o {
        Some(e) => Some(e@),
        None => None,
    }
}

/// Append to `acc` each string of `src` whose view `acc` does not yet hold.
pub(crate) fn add_missing_exec(acc: &mut Vec<String>, src: &Vec<String>)
    ensures
        views(final(acc)@) == add_missing(views(old(acc)@), views(src@)),
{
    let ghost start = views(acc@);
    let mut i: usize = 0;
    assert(views(src@).subrange(0, 0) =~= Seq::<Seq<char>>::empty());
    while i < src.len()
        invariant
            i <= src.len(),
            views(acc@) == add_missing(start, views(src@).subrange(0, i as int)),
        decreases src.len() - i,
    {
        let ghost pre = views(src@).subrange(0, i as int);
        let ghost next = views(src@).subrange(0, i + 1);
        assert(next.drop_last() =~= pre);
        assert(next.last() == src@[i as int]@);
        if !contains_string(acc, &src[i]) {
            let t = src[i].clone();
            acc.push(t);
            assert(views(acc@) =~= add_missing(start, pre).push(src@[i as int]@));
        }
        i = i + 1;
    }
    assert(views(src@).subrange(0, src.len() as int) =~= views(src@));
}

/// The later of two optional timestamps.
fn later_exec(l: &Option<String>, r: &Option<String>) -> (o: Option<String>)
    ensures
        opt_view(o) == later(opt_view(*l), opt_view(*r)),
{
    match (l, r) {
        (Some(a), Some(b)) => Some(if str_lt(b.as_str(), a.as_str()) { a.clone() } else { b.clone() }),
        (Some(a), None) => Some(a.clone()),
        (None, Some(b)) => Some(b.clone()),
        (None, None) => None,
    }
}

fn opt_same(a: &Option<String>, b: &Option<String>) -> (r: bool)
    ensures
        r == (opt_view(*a) == opt_view(*b)),
{
    match (a, b) {
        (Some(x), Some(y)) => str_eq(x.as_str(), y.as_str()),
        (None, None) => true,
        _ => false,
    }
}

fn opt_less(a: &Option<String>, b: &Option<String>) -> (r: bool)
    ensures
        r == opt_lt(opt_view(*a), opt_view(*b)),
{
    match (a, b) {
        (None, Some(_)) => true,
        (Some(x), Some(y)) => str_lt(x.as_str(), y.as_str()),
        _ => false,
    }
}

fn category_rank(c: ManifestCategory) -> (r: u8)
    ensures
        r == cat_rank(c),
{
    match c {
        ManifestCategory::Pattern => 0,
        ManifestCategory::Error => 1,
        ManifestCategory::Decision => 2,
        ManifestCategory::Identity => 3,
    }
}

/// Whether `right` wins the versioned register over `left`.
fn register_less(left: &ManifestEntry, right: &ManifestEntry) -> (r: bool)
    ensures
        r == key_lt(left@, right@),
{
    if left.version != right.version {
        left.version < right.version
    } else if !str_eq(left.content.as_str(), right.content.as_str()) {
        str_lt(left.content.as_str(), right.content.as_str())
    } else if !str_eq(left.agent.0.as_str(), right.agent.0.as_str()) {
        str_lt(left.agent.0.as_str(), right.agent.0.as_str())
    } else if !str_eq(left.created.as_str(), right.created.as_str()) {
        str_lt(left.created.as_str(), right.created.as_str())
    } else if !str_eq(left.tide_created.as_str(), right.tide_created.as_str()) {
        str_lt(left.tide_created.as_str(), right.tide_created.as_str())
    } else if !left.category.same(&right.category) {
        category_rank(left.category) < category_rank(right.category)
    } else if !opt_same(&left.ttl, &right.ttl) {
        opt_less(&left.ttl, &right.ttl)
    } else if !opt_same(&left.expires, &right.expires) {
        opt_less(&left.expires, &right.expires)
    } else {
        opt_less(&left.embedding_hash, &right.embedding_hash)
    }
}

/// Merge two manifest entries that share the same `id`.
///
/// Returns `None` when the ids differ. The register fields come from the
/// entry with the higher version; on equal versions, from the entry whose
/// register fields are greater in `reg_lt`, so that the result does not
/// depend on the order of the arguments.
pub fn merge(left: &ManifestEntry, right: &ManifestEntry) -> (r: Option<ManifestEntry>)
    ensures
        opt_entry_view(r) == merge_view(left@, right@),
{
    if !left.id.same(&right.id) {
        return None;
    }
    let base = if register_less(left, right) { right } else { left };
    let mut tags: Vec<String> = Vec::new();
    assert(views(tags@) =~= Seq::<Seq<char>>::empty());
    add_missing_exec(&mut tags, &left.tags);
    add_missing_exec(&mut tags, &right.tags);
    let tags = sort_strings(&tags);
    let last_accessed = later_exec(&left.last_accessed, &right.last_accessed);
    let merged = ManifestEntry {
        id: base.id.clone(),
        agent: base.agent.clone(),
        category: base.category,
        created: base.created.clone(),
        ttl: clone_opt(&base.ttl),
        expires: clone_opt(&base.expires),
        tags,
        content: base.content.clone(),
        embedding_hash: clone_opt(&base.embedding_hash),
        access_count: if left.access_count >= right.access_count { left.access_count } else { right.access_count },
        last_accessed,
        tide_created: base.tide_created.clone(),
        version: if left.version >= right.version { left.version } else { right.version },
        consensus_citations: if left.consensus_citations >= right.consensus_citations {
            left.consensus_citations
        } else {
            right.consensus_citations
        },
    };
    let r = Some(merged);
    assert(opt_entry_view(r) =~= merge_view(left@, right@));
    r
}

/// The time-to-live label of a category, e.g. "720h".
pub open spec fn ttl_label(c: ManifestCategory) -> Option<Seq<char>> {
    match category_ttl(c) {
        Some(s) => Some(dec((s / 3600) as nat) + "h"@),
        None => None,
    }
}

/// Create a new manifest entry in its initial CRDT state.
pub fn create(
    id: EntryId,
    agent: AgentId,
    category: ManifestCategory,
    content: String,
    tags: Vec<String>,
    now: String,
    tide_label: String,
) -> (e: ManifestEntry)
    ensures
        e@.id == id@,
        e@.agent == agent@,
        e@.category == category,
        e@.created == now@,
        e@.ttl == ttl_label(category),
        e@.expires == (if category == ManifestCategory::Identity {
            None::<Seq<char>>
        } else {
            match ttl_label(category) {
                Some(t) => Some(now@ + "+"@ + t),
                None => None,
            }
        }),
        e@.tags == views(tags@),
        e@.content == content@,
        e@.embedding_hash == None::<Seq<char>>,
        e@.access_count == 0,
        e@.last_accessed == None::<Seq<char>>,
        e@.tide_created == tide_label@,
        e@.version == 1,
        e@.consensus_citations == 0,
{
    let ttl = match category.default_ttl_seconds() {
        Some(s) => {
            let mut t = dec_string(s / 3600);
            push_str(&mut t, "h");
            Some(t)
        },
        None => None,
    };
    let expires = if category.same(&ManifestCategory::Identity) {
        None
    } else {
        match &ttl {
            Some(t) => {
                let mut x = now.clone();
                push_str(&mut x, "+");
                push_str(&mut x, t.as_str());
                Some(x)
            },
            None => None,
        }
    };
    proof {
        reveal_strlit("h");
        reveal_strlit("+");
    }
    ManifestEntry {
        id,
        agent,
        category,
        created: now,
        ttl,
        expires,
        tags,
        content,
        embedding_hash: None,
        access_count: 0,
        last_accessed: None,
        tide_created: tide_label,
        version: 1,
        consensus_citations: 0,
    }
}

/// Record that another agent has cited this entry.
pub fn cite(entry: &mut ManifestEntry)
    requires
        old(entry).consensus_citations < u64::MAX,
    ensures
        final(entry)@ == (EntryView { consensus_citations: (old(entry).consensus_citations + 1) as u64, ..old(entry)@ }),
{
    entry.consensus_citations = entry.consensus_citations + 1;
}

/// The djb2 hash of a byte sequence (multiply by 33, add the byte, modulo 2^64).
pub open spec fn djb2(bytes: Seq<u8>) -> u64
    decreases bytes.len(),
{
    if bytes.len() == 0 {
        5381
    } else {
        vstd::wrapping::u64_specs::wrapping_add(
            vstd::wrapping::u64_specs::wrapping_mul(djb2(bytes.drop_last()), 33),
            bytes.last() as u64,
        )
    }
}

/// Content-addressable id of a manifest entry's content: the djb2 hash of
/// its UTF-8 bytes as sixteen lower-case hexadecimal digits.
pub fn content_hash(content: &str) -> (id: EntryId)
    ensures
        id@ == hex_pad(djb2(content.spec_bytes()) as nat, 16),
{
    let bytes = content.as_bytes();
    let mut hash: u64 = 5381;
    let mut i: usize = 0;
    while i < bytes.len()
        invariant
            i <= bytes.len(),
            bytes@ == content.spec_bytes(),
            hash == djb2(bytes@.subrange(0, i as int)),
        decreases bytes.len() - i,
    {
        assert(bytes@.subrange(0, i + 1).drop_last() =~= bytes@.subrange(0, i as int));
        hash = hash.wrapping_mul(33).wrapping_add(bytes[i] as u64);
        i = i + 1;
    }
    assert(bytes@.subrange(0, bytes@.len() as int) =~= bytes@);
    EntryId(hex_pad_string(hash, 16))
}

/// The fields that the entry with the higher version decides agree.
pub open spec fn same_register(a: EntryView, b: EntryView) -> bool {
    &&& a.agent == b.agent
    &&& a.category == b.category
    &&& a.created == b.created
    &&& a.ttl == b.ttl
    &&& a.expires == b.expires
    &&& a.content == b.content
    &&& a.embedding_hash == b.embedding_hash
    &&& a.tide_created == b.tide_created
}

proof fn lemma_add_missing_contains(acc: Seq<Seq<char>>, src: Seq<Seq<char>>)
    ensures
        forall|x: Seq<char>| #[trigger] add_missing(acc, src).contains(x) <==> acc.contains(x) || src.contains(x),
        forall|i: int| 0 <= i < acc.len() ==> #[trigger] add_missing(acc, src)[i] == acc[i],
        acc.len() <= add_missing(acc, src).len(),
    decreases src.len(),
{
    if src.len() > 0 {
        lemma_add_missing_contains(acc, src.drop_last());
        let a = add_missing(acc, src.drop_last());
        assert forall|x: Seq<char>| #[trigger] add_missing(acc, src).contains(x) <==> acc.contains(x) || src.contains(x) by {
            if src.contains(x) && !src.drop_last().contains(x) {
                let k = choose|k: int| 0 <= k < src.len() && src[k] == x;
                if k < src.len() - 1 {
                    assert(src.drop_last()[k] == x);
                }
                if !a.contains(x) {
                    assert(add_missing(acc, src)[a.len() as int] == x);
                }
            }
            if src.drop_last().contains(x) {
                let k = choose|k: int| 0 <= k < src.drop_last().len() && src.drop_last()[k] == x;
                assert(src[k] == x);
            }
            if add_missing(acc, src).contains(x) && !a.contains(x) {
                assert(x == src.last());
            }
            if a.contains(x) {
                let k = choose|k: int| 0 <= k < a.len() && a[k] == x;
                assert(add_missing(acc, src)[k] == x);
            }
        }
    }
}

proof fn lemma_add_missing_nodup(acc: Seq<Seq<char>>, src: Seq<Seq<char>>)
    requires
        acc.no_duplicates(),
    ensures
        add_missing(acc, src).no_duplicates(),
    decreases src.len(),
{
    if src.len() > 0 {
        lemma_add_missing_nodup(acc, src.drop_last());
    }
}

/// Two duplicate-free sequences with the same elements sort to the same sequence.
proof fn lemma_sort_same_elements(x: Seq<Seq<char>>, y: Seq<Seq<char>>)
    requires
        x.no_duplicates(),
        y.no_duplicates(),
        forall|e: Seq<char>| x.contains(e) <==> y.contains(e),
    ensures
        x.sort_by(lex_leq()) == y.sort_by(lex_leq()),
{
    broadcast use vstd::seq_lib::group_to_multiset_ensures;
    broadcast use vstd::multiset::group_multiset_axioms;
    lemma_lex_total();
    x.lemma_multiset_has_no_duplicates();
    y.lemma_multiset_has_no_duplicates();
    assert(x.to_multiset() =~= y.to_multiset());
    x.lemma_sort_by_ensures(lex_leq());
    y.lemma_sort_by_ensures(lex_leq());
    vstd::seq_lib::lemma_sorted_unique(x.sort_by(lex_leq()), y.sort_by(lex_leq()), lex_leq());
}

/// Sorting keeps the elements and their uniqueness.
proof fn lemma_sort_keeps(x: Seq<Seq<char>>)
    requires
        x.no_duplicates(),
    ensures
        x.sort_by(lex_leq()).no_duplicates(),
        forall|e: Seq<char>| x.sort_by(lex_leq()).contains(e) <==> x.contains(e),
{
    broadcast use vstd::seq_lib::group_to_multiset_ensures;
    broadcast use vstd::multiset::group_multiset_axioms;
    lemma_lex_total();
    x.lemma_sort_by_ensures(lex_leq());
    x.lemma_multiset_has_no_duplicates();
    let y = x.sort_by(lex_leq());
    assert forall|e: Seq<char>| y.to_multiset().contains(e) implies y.to_multiset().count(e) == 1 by {}
    y.lemma_multiset_has_no_duplicates_conv();
    assert forall|e: Seq<char>| y.contains(e) <==> x.contains(e) by {
        assert(y.to_multiset().count(e) == x.to_multiset().count(e));
    }
}

/// The merged tags hold exactly the tags of both entries, once each.
proof fn lemma_tag_union(l: Seq<Seq<char>>, r: Seq<Seq<char>>)
    ensures
        tag_union(l, r).no_duplicates(),
        forall|e: Seq<char>| #[trigger] tag_union(l, r).contains(e) <==> l.contains(e) || r.contains(e),
{
    let e0 = Seq::<Seq<char>>::empty();
    let u1 = add_missing(e0, l);
    let u = add_missing(u1, r);
    lemma_add_missing_nodup(e0, l);
    lemma_add_missing_nodup(u1, r);
    lemma_add_missing_contains(e0, l);
    lemma_add_missing_contains(u1, r);
    lemma_sort_keeps(u);
    assert forall|e: Seq<char>| #[trigger] tag_union(l, r).contains(e) <==> l.contains(e) || r.contains(e) by {
        assert(u.sort_by(lex_leq()).contains(e) <==> u.contains(e));
        assert(u1.contains(e) <==> e0.contains(e) || l.contains(e));
    }
}

/// Two tag unions over the same tags are the same sequence.
proof fn lemma_tag_union_same(a: Seq<Seq<char>>, b: Seq<Seq<char>>, c: Seq<Seq<char>>, d: Seq<Seq<char>>)
    requires
        forall|e: Seq<char>| a.contains(e) || b.contains(e) <==> c.contains(e) || d.contains(e),
    ensures
        tag_union(a, b) == tag_union(c, d),
{
    let e0 = Seq::<Seq<char>>::empty();
    let x = add_missing(add_missing(e0, a), b);
    let y = add_missing(add_missing(e0, c), d);
    lemma_add_missing_nodup(e0, a);
    lemma_add_missing_nodup(add_missing(e0, a), b);
    lemma_add_missing_contains(e0, a);
    lemma_add_missing_contains(add_missing(e0, a), b);
    lemma_add_missing_nodup(e0, c);
    lemma_add_missing_nodup(add_missing(e0, c), d);
    lemma_add_missing_contains(e0, c);
    lemma_add_missing_contains(add_missing(e0, c), d);
    assert forall|e: Seq<char>| x.contains(e) <==> y.contains(e) by {
        assert(add_missing(e0, a).contains(e) <==> e0.contains(e) || a.contains(e));
        assert(add_missing(e0, c).contains(e) <==> e0.contains(e) || c.contains(e));
    }
    lemma_sort_same_elements(x, y);
}

/// The lexicographic order of strings, on three given strings.
proof fn lemma_seq_order(x: Seq<char>, y: Seq<char>, z: Seq<char>)
    ensures
        !seq_lt(x, x),
        seq_lt(x, y) ==> !seq_lt(y, x),
        seq_lt(x, y) && seq_lt(y, z) ==> seq_lt(x, z),
        x != y ==> seq_lt(x, y) || seq_lt(y, x),
{
    crate::text::lemma_lt_irreflexive(x);
    crate::text::lemma_lt_asymmetric(x, y);
    crate::text::lemma_lt_transitive(x, y, z);
    crate::text::lemma_lt_connected(x, y);
}

/// The order of optional strings, on three given values.
proof fn lemma_opt_order(x: Option<Seq<char>>, y: Option<Seq<char>>, z: Option<Seq<char>>)
    ensures
        !opt_lt(x, x),
        opt_lt(x, y) ==> !opt_lt(y, x),
        opt_lt(x, y) && opt_lt(y, z) ==> opt_lt(x, z),
        x != y ==> opt_lt(x, y) || opt_lt(y, x),
{
    match (x, y, z) {
        (Some(a), Some(b), Some(c)) => { lemma_seq_order(a, b, c); },
        (Some(a), Some(b), None) => { lemma_seq_order(a, b, a); },
        (Some(a), None, _) => { lemma_seq_order(a, a, a); },
        (None, Some(b), _) => { lemma_seq_order(b, b, b); },
        _ => {},
    }
}

/// `key_lt` is a strict order whose incomparable elements agree on the
/// version and every register field, stated for three given entries.
proof fn lemma_key_order(a: EntryView, b: EntryView, c: EntryView)
    ensures
        !key_lt(a, a),
        key_lt(a, b) ==> !key_lt(b, a),
        key_lt(a, b) && key_lt(b, c) ==> key_lt(a, c),
        !key_lt(a, b) && !key_lt(b, a) ==> a.version == b.version && same_register(a, b),
{
    lemma_seq_order(a.content, b.content, c.content);
    lemma_seq_order(a.agent, b.agent, c.agent);
    lemma_seq_order(a.created, b.created, c.created);
    lemma_seq_order(a.tide_created, b.tide_created, c.tide_created);
    lemma_opt_order(a.ttl, b.ttl, c.ttl);
    lemma_opt_order(a.expires, b.expires, c.expires);
    lemma_opt_order(a.embedding_hash, b.embedding_hash, c.embedding_hash);
    if a.category != b.category {
        assert(cat_rank(a.category) != cat_rank(b.category));
    }
}

/// `lemma_key_order` for every arrangement of three entries.
proof fn lemma_key_order3(a: EntryView, b: EntryView, c: EntryView)
    ensures
        !key_lt(a, a) && !key_lt(b, b) && !key_lt(c, c),
        forall|x: EntryView, y: EntryView|
            #![trigger key_lt(x, y)]
            (x == a || x == b || x == c) && (y == a || y == b || y == c) ==> {
                &&& key_lt(x, y) ==> !key_lt(y, x)
                &&& !key_lt(x, y) && !key_lt(y, x) ==> x.version == y.version && same_register(x, y)
            },
        forall|x: EntryView, y: EntryView, z: EntryView|
            #![trigger key_lt(x, y), key_lt(y, z)]
            (x == a || x == b || x == c) && (y == a || y == b || y == c) && (z == a || z == b || z == c)
                ==> (key_lt(x, y) && key_lt(y, z) ==> key_lt(x, z)),
{
    lemma_key_order(a, b, c);
    lemma_key_order(a, c, b);
    lemma_key_order(b, a, c);
    lemma_key_order(b, c, a);
    lemma_key_order(c, a, b);
    lemma_key_order(c, b, a);
    lemma_key_order(a, a, b);
    lemma_key_order(b, b, c);
    lemma_key_order(c, c, a);
    lemma_key_order(a, b, a);
    lemma_key_order(b, c, b);
    lemma_key_order(c, a, c);
    lemma_key_order(a, a, c);
    lemma_key_order(b, b, a);
    lemma_key_order(c, c, b);
}

/// `key_lt` reads only the version and the register fields.
proof fn lemma_key_congruent(a: EntryView, a2: EntryView, b: EntryView)
    requires
        a.version == a2.version,
        same_register(a, a2),
    ensures
        key_lt(a, b) == key_lt(a2, b),
        key_lt(b, a) == key_lt(b, a2),
{
}

proof fn lemma_later_commutative(a: Option<Seq<char>>, b: Option<Seq<char>>)
    ensures
        later(a, b) == later(b, a),
{
    lemma_lex_total();
    match (a, b) {
        (Some(x), Some(y)) => {
            assert(lex_leq()(x, y) || lex_leq()(y, x));
            if seq_lt(x, y) && seq_lt(y, x) {
                assert(lex_leq()(x, y) && lex_leq()(y, x));
            }
        },
        _ => {},
    }
}

proof fn lemma_later_associative(a: Option<Seq<char>>, b: Option<Seq<char>>, c: Option<Seq<char>>)
    ensures
        later(later(a, b), c) == later(a, later(b, c)),
{
    lemma_lex_total();
    match (a, b, c) {
        (Some(x), Some(y), Some(z)) => {
            assert(lex_leq()(x, y) || lex_leq()(y, x));
            assert(lex_leq()(y, z) || lex_leq()(z, y));
            assert(lex_leq()(x, z) || lex_leq()(z, x));
            if seq_lt(x, y) && seq_lt(y, z) {
                assert(lex_leq()(x, y) && lex_leq()(y, z));
            }
            if seq_lt(z, y) && seq_lt(y, x) {
                assert(lex_leq()(z, y) && lex_leq()(y, x));
            }
            if seq_lt(x, z) && seq_lt(z, x) {
                assert(lex_leq()(x, z) && lex_leq()(z, x));
            }
            if seq_lt(x, y) && seq_lt(y, x) {
                assert(lex_leq()(x, y) && lex_leq()(y, x));
            }
            if seq_lt(z, y) && seq_lt(y, z) {
                assert(lex_leq()(z, y) && lex_leq()(y, z));
            }
        },
        _ => {},
    }
}

/// Merging is commutative: two entries with the same id merge to the same
/// entry in either order.
pub proof fn lemma_merge_commutative(a: EntryView, b: EntryView)
    requires
        a.id == b.id,
    ensures
        merge_view(a, b) is Some,
        merge_view(a, b) == merge_view(b, a),
{
    lemma_later_commutative(a.last_accessed, b.last_accessed);
    lemma_key_order(a, b, a);
    lemma_tag_union_same(a.tags, b.tags, b.tags, a.tags);
}

/// Merging is associative: for three entries with the same id,
/// `merge(merge(a, b), c)` and `merge(a, merge(b, c))` are the same entry.
pub proof fn lemma_merge_associative(a: EntryView, b: EntryView, c: EntryView)
    requires
        a.id == b.id,
        b.id == c.id,
    ensures
        merge_view(a, b) is Some,
        merge_view(b, c) is Some,
        merge_view(merge_view(a, b)->0, c) == merge_view(a, merge_view(b, c)->0),
{
    let ab = merge_view(a, b)->0;
    let bc = merge_view(b, c)->0;
    lemma_tag_union(a.tags, b.tags);
    lemma_tag_union(b.tags, c.tags);
    lemma_tag_union_same(ab.tags, c.tags, a.tags, bc.tags);
    lemma_later_associative(a.last_accessed, b.last_accessed, c.last_accessed);
    lemma_key_order3(a, b, c);
    let wab = register_winner(a, b);
    let wbc = register_winner(b, c);
    lemma_key_congruent(wab, ab, c);
    lemma_key_congruent(wbc, bc, a);
    assert(key_lt(wab, c) == key_lt(ab, c));
    assert(key_lt(a, wbc) == key_lt(a, bc));
    let l = merge_view(ab, c)->0;
    let r = merge_view(a, bc)->0;
    assert(l.version == r.version);
    assert(same_register(l, r));
    assert(l == r);
}

/// The merged `last_accessed` is the later of the two timestamps: it is one
/// of them and no input timestamp comes after it; a timestamp present on one
/// side only is kept, and none on either side gives none.
pub proof fn lemma_merge_last_accessed(l: EntryView, r: EntryView)
    requires
        l.id == r.id,
    ensures
        merge_view(l, r) is Some,
        match (l.last_accessed, r.last_accessed) {
            (Some(a), Some(b)) => {
                let x = merge_view(l, r)->0.last_accessed;
                &&& x is Some
                &&& (x->0 == a || x->0 == b)
                &&& !seq_lt(x->0, a)
                &&& !seq_lt(x->0, b)
            },
            (Some(a), None) => merge_view(l, r)->0.last_accessed == Some(a),
            (None, Some(b)) => merge_view(l, r)->0.last_accessed == Some(b),
            (None, None) => merge_view(l, r)->0.last_accessed is None,
        },
{
    match (l.last_accessed, r.last_accessed) {
        (Some(a), Some(b)) => {
            crate::text::lemma_lt_irreflexive(a);
            crate::text::lemma_lt_irreflexive(b);
            crate::text::lemma_lt_asymmetric(a, b);
            crate::text::lemma_lt_asymmetric(b, a);
        },
        _ => {},
    }
}

} // verus!
