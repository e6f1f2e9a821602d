//! The retrieval engine's store and graph, and the parts of its scoring
//! that count: which query keywords an entry resonates with, how many
//! tensions it leaves open, and the call number a query points at.

use vstd::prelude::*;
use crate::agent::architect::{split_whitespace, words};
use crate::memory::call_number::{call_number_from_path, first_n, nonempty, path_segments, CallNumber};
use crate::memory::classification::{extract_keywords, keywords_of, pieces};
use crate::memory::entry::{subjects_of, MemoryEntry, TensionRole};
use crate::memory::see_also::SeeAlsoGraph;
use crate::memory::store::InMemoryStore;
use crate::parse::split;
use crate::text::{contains, contains_str, contains_string, has_char, has_ignore_case, has_string_ignore_case, views};
use crate::vocab::{lower, to_lower};

verus! {

/// What `char::is_uppercase` says of a character.
pub uninterp spec fn is_upper(c: char) -> bool;

/// Whether a character is upper case (`char::is_uppercase`).
#[verifier::external_body]
fn char_is_uppercase(c: char) -> (r: bool)
    ensures
        r == is_upper(c),
{
    c.is_uppercase()
}

/// A store of memories with the graph that links them.
pub struct RetrievalEngine<S> {
    store: InMemoryStore<S>,
    see_also: SeeAlsoGraph,
}

impl<S> RetrievalEngine<S> {
    /// The store.
    pub closed spec fn store_spec(self) -> InMemoryStore<S> {
        self.store
    }

    /// The graph.
    pub closed spec fn graph_spec(self) -> SeeAlsoGraph {
        self.see_also
    }

    /// An engine over a store and a graph.
    pub fn new(store: InMemoryStore<S>, see_also: SeeAlsoGraph) -> (r: Self)
        ensures
            r.store_spec() == store,
            r.graph_spec() == see_also,
    {
        RetrievalEngine { store, see_also }
    }

    /// The store.
    pub fn store(&self) -> (r: &InMemoryStore<S>)
        ensures
            *r == self.store_spec(),
    {
        &self.store
    }

    /// The graph.
    pub fn see_also(&self) -> (r: &SeeAlsoGraph)
        ensures
            *r == self.graph_spec(),
    {
        &self.see_also
    }

    /// The graph, to change; the store stays.
    pub fn see_also_mut(&mut self) -> (r: &mut SeeAlsoGraph)
        ensures
            *r == old(self).graph_spec(),
            final(self).graph_spec() == *final(r),
            final(self).store_spec() == old(self).store_spec(),
    {
        &mut self.see_also
    }
}

/// A query keyword resonates with an entry when it is, lower-cased, one of
/// the entry's keywords, part of one of its motifs (lower-cased), or one of
/// its subjects ignoring ASCII case.
pub open spec fn resonates<S>(e: MemoryEntry<S>, qk: Seq<char>) -> bool {
    let q = lower(qk);
    ||| first_n(keywords_of(pieces(e.content@)), 10).contains(q)
    ||| exists|i: int| 0 <= i < e.motifs@.len() && contains(lower(#[trigger] e.motifs@[i]@), q)
    ||| has_ignore_case(subjects_of(e), q)
}

/// The number of query keywords that resonate with an entry.
pub open spec fn resonance_count<S>(e: MemoryEntry<S>, qs: Seq<Seq<char>>) -> nat
    decreases qs.len(),
{
    if qs.len() == 0 {
        0
    } else {
        resonance_count(e, qs.drop_last()) + if resonates(e, qs.last()) { 1nat } else { 0nat }
    }
}

/// The number of an entry's tensions not yet resolved.
pub open spec fn open_count(refs: Seq<crate::memory::entry::TensionRef>) -> nat
    decreases refs.len(),
{
    if refs.len() == 0 {
        0
    } else {
        open_count(refs.drop_last()) + if refs.last().role != TensionRole::Resolved { 1nat } else { 0nat }
    }
}

/// How many query keywords resonate with an entry.
pub fn motif_matches<S>(entry: &MemoryEntry<S>, query_keywords: &Vec<String>) -> (n: usize)
    ensures
        n == resonance_count(*entry, views(query_keywords@)),
{
    let entry_keywords = extract_keywords(entry.content.as_str());
    let mut motifs: Vec<String> = Vec::new();
    let mut k: usize = 0;
    while k < entry.motifs.len()
        invariant
            k <= entry.motifs@.len(),
            motifs@.len() == k,
            forall|j: int| 0 <= j < k ==> (#[trigger] motifs@[j])@ == lower(entry.motifs@[j]@),
        decreases entry.motifs@.len() - k,
    {
        motifs.push(to_lower(entry.motifs[k].0.as_str()));
        k = k + 1;
    }
    let ghost qv = views(query_keywords@);
    let mut count: usize = 0;
    let mut i: usize = 0;
    assert(qv.take(0) =~= Seq::<Seq<char>>::empty());
    while i < query_keywords.len()
        invariant
            i <= query_keywords@.len(),
            qv == views(query_keywords@),
            views(entry_keywords@) == first_n(keywords_of(pieces(entry.content@)), 10),
            motifs@.len() == entry.motifs@.len(),
            forall|j: int| 0 <= j < motifs@.len() ==> (#[trigger] motifs@[j])@ == lower(entry.motifs@[j]@),
            count == resonance_count(*entry, qv.take(i as int)),
            count <= i,
        decreases query_keywords@.len() - i,
    {
        let q = to_lower(query_keywords[i].as_str());
        assert(qv.take(i + 1).drop_last() =~= qv.take(i as int));
        assert(qv.take(i + 1).last() == query_keywords@[i as int]@);
        let mut in_motif = false;
        let mut j: usize = 0;
        while j < motifs.len()
            invariant
                j <= motifs@.len(),
                motifs@.len() == entry.motifs@.len(),
                forall|x: int| 0 <= x < motifs@.len() ==> (#[trigger] motifs@[x])@ == lower(entry.motifs@[x]@),
                in_motif == exists|x: int| 0 <= x < j && contains(lower(#[trigger] entry.motifs@[x]@), q@),
            decreases motifs@.len() - j,
        {
            if contains_str(motifs[j].as_str(), q.as_str()) {
                assert(contains(lower(entry.motifs@[j as int]@), q@));
                in_motif = true;
            }
            j = j + 1;
        }
        if contains_string(&entry_keywords, &q) || in_motif || has_string_ignore_case(&entry.classification.subject_headings, q.as_str()) {
            count = count + 1;
        }
        i = i + 1;
    }
    assert(qv.take(i as int) =~= qv);
    count
}

/// How many of an entry's tensions are not yet resolved.
pub fn unresolved_tensions<S>(entry: &MemoryEntry<S>) -> (n: usize)
    ensures
        n == open_count(entry.tension_refs@),
{
    let refs = &entry.tension_refs;
    let mut n: usize = 0;
    let mut i: usize = 0;
    assert(refs@.take(0) =~= Seq::<crate::memory::entry::TensionRef>::empty());
    while i < refs.len()
        invariant
            i <= refs@.len(),
            n == open_count(refs@.take(i as int)),
            n <= i,
        decreases refs@.len() - i,
    {
        assert(refs@.take(i + 1).drop_last() =~= refs@.take(i as int));
        match refs[i].role {
            TensionRole::Resolved => {},
            _ => {
                n = n + 1;
            },
        }
        i = i + 1;
    }
    assert(refs@.take(i as int) =~= refs@);
    n
}

/// The index of the first word containing `c`.
pub open spec fn first_with(ws: Seq<Seq<char>>, c: char) -> Option<int>
    decreases ws.len(),
{
    if ws.len() == 0 {
        None
    } else {
        match first_with(ws.drop_last(), c) {
            Some(i) => Some(i),
            None => if ws.last().contains(c) { Some(ws.len() - 1) } else { None },
        }
    }
}

/// The word has a dot and an upper-case character.
pub open spec fn dotted_upper(w: Seq<char>) -> bool {
    w.contains('.') && exists|i: int| 0 <= i < w.len() && is_upper(#[trigger] w[i])
}

/// The index of the first dotted word with an upper-case character.
pub open spec fn first_dotted_upper(ws: Seq<Seq<char>>) -> Option<int>
    decreases ws.len(),
{
    if ws.len() == 0 {
        None
    } else {
        match first_dotted_upper(ws.drop_last()) {
            Some(i) => Some(i),
            None => if dotted_upper(ws.last()) { Some(ws.len() - 1) } else { None },
        }
    }
}

/// The call number a query points at: that of its first path-like word
/// (five levels at most), else its first dotted word with an upper-case
/// character read as a call number, else none.
pub open spec fn inferred_call_number(query: Seq<char>) -> Option<Seq<Seq<char>>> {
    let ws = words(query);
    match first_with(ws, '/') {
        Some(i) => Some(first_n(path_segments(split(ws[i], seq!['/'])), 5)),
        None => match first_dotted_upper(ws) {
            Some(i) => Some(nonempty(split(ws[i], seq!['.']))),
            None => None,
        },
    }
}

/// Whether a word has an upper-case character.
fn has_upper(w: &str) -> (r: bool)
    ensures
        r == exists|i: int| 0 <= i < w@.len() && is_upper(#[trigger] w@[i]),
{
    let v = crate::text::chars_of(w);
    let mut i: usize = 0;
    while i < v.len()
        invariant
            i <= v@.len(),
            v@ == w@,
            forall|j: int| 0 <= j < i ==> !is_upper(#[trigger] w@[j]),
        decreases v@.len() - i,
    {
        if char_is_uppercase(v[i]) {
            return true;
        }
        i = i + 1;
    }
    false
}

/// The call number a query points at, if any.
pub fn infer_call_number(query: &str) -> (r: Option<CallNumber>)
    ensures
        match r {
            Some(c) => inferred_call_number(query@) == Some(c@),
            None => inferred_call_number(query@) is None,
        },
{
    let ws = split_whitespace(query);
    let ghost wv = views(ws@);
    let mut i: usize = 0;
    assert(wv.take(0) =~= Seq::<Seq<char>>::empty());
    while i < ws.len()
        invariant
            i <= ws@.len(),
            wv == views(ws@),
            wv == words(query@),
            first_with(wv.take(i as int), '/') is None,
        decreases ws@.len() - i,
    {
        assert(wv.take(i + 1).drop_last() =~= wv.take(i as int));
        assert(wv.take(i + 1).last() == ws@[i as int]@);
        if has_char(ws[i].as_str(), '/') {
            proof { lemma_first_prefix(wv, '/', i + 1); }
            return Some(call_number_from_path(ws[i].as_str(), 5));
        }
        i = i + 1;
    }
    assert(wv.take(i as int) =~= wv);
    let mut j: usize = 0;
    assert(wv.take(0) =~= Seq::<Seq<char>>::empty());
    while j < ws.len()
        invariant
            j <= ws@.len(),
            wv == views(ws@),
            wv == words(query@),
            first_with(wv, '/') is None,
            first_dotted_upper(wv.take(j as int)) is None,
        decreases ws@.len() - j,
    {
        assert(wv.take(j + 1).drop_last() =~= wv.take(j as int));
        assert(wv.take(j + 1).last() == ws@[j as int]@);
        if has_char(ws[j].as_str(), '.') && has_upper(ws[j].as_str()) {
            proof { lemma_dotted_prefix(wv, j + 1); }
            return Some(CallNumber::parse(ws[j].as_str()));
        }
        j = j + 1;
    }
    assert(wv.take(j as int) =~= wv);
    None
}

/// A match in a prefix is the first match of the whole.
proof fn lemma_first_prefix(ws: Seq<Seq<char>>, c: char, k: int)
    requires
        0 <= k <= ws.len(),
        first_with(ws.take(k), c) is Some,
    ensures
        first_with(ws, c) == first_with(ws.take(k), c),
    decreases ws.len() - k,
{
    if k < ws.len() {
        assert(ws.take(k + 1).drop_last() =~= ws.take(k));
        lemma_first_prefix(ws, c, k + 1);
    } else {
        assert(ws.take(k) =~= ws);
    }
}

/// A dotted upper-case word in a prefix is the first one of the whole.
proof fn lemma_dotted_prefix(ws: Seq<Seq<char>>, k: int)
    requires
        0 <= k <= ws.len(),
        first_dotted_upper(ws.take(k)) is Some,
    ensures
        first_dotted_upper(ws) == first_dotted_upper(ws.take(k)),
    decreases ws.len() - k,
{
    if k < ws.len() {
        assert(ws.take(k + 1).drop_last() =~= ws.take(k));
        lemma_dotted_prefix(ws, k + 1);
    } else {
        assert(ws.take(k) =~= ws);
    }
}

} // verus!
