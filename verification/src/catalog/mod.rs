//! The card catalog: entries with their classification and circulation,
//! the "see also" graph, the call number tree and the controlled
//! vocabulary, kept together.

pub mod classification;
pub mod controlled_vocab;
pub mod search;
pub mod see_also;

use vstd::prelude::*;
use crate::circulation::tracker::CirculationRecord;
use crate::ids::ItemId;
use crate::manifest::entry::add_missing;
use crate::memory::call_number::{first_n, has_path, leading, top_level_categories, CallNumber, CallNumberHierarchy};
use crate::strmap::StrMap;
use crate::text::{clone_opt, clone_strings, contains_string, dec_pad, dec_pad_string, push_str, slice_chars, views};
use crate::vocab::{expansions, normal_form};
use crate::text::{has_ignore_case, has_string_ignore_case};
use search::{
    fewer, folded, held, ids_matching, lemma_listed_once, lemma_walk_distances, lemma_walk_skips_start, link_distance,
    matches_query, max_active_checkouts, nearest, no_active,
};
use see_also::{bfs_result, hop_views};
use classification::{ClassView, Classification};
use controlled_vocab::{default_pairs, default_vocabulary, mapped_c2v, mapped_v2c, VocabularyIndex};
use see_also::{copy_links, link_views, remove_result, GraphView, LinkView, SeeAlsoGraph, SeeAlsoLink};

verus! {

/// How a catalogue is set up.
#[derive(Debug, Clone, Copy, PartialEq, Eq, Structural)]
pub struct CatalogConfig {
    pub max_see_also: usize,
    pub max_subject_headings: usize,
    pub call_number_depth: usize,
    pub circulation_tracking: bool,
}

/// One catalogued memory.
#[derive(Debug, PartialEq, Eq)]
pub struct CatalogEntry {
    pub item_id: ItemId,
    pub content: String,
    pub classification: Classification,
    pub see_also: Vec<SeeAlsoLink>,
    pub circulation: CirculationRecord,
    pub ttl: String,
    pub deaccessioned: bool,
}

/// An entry as plain values.
pub struct EntryView {
    pub item_id: Seq<char>,
    pub content: Seq<char>,
    pub class: ClassView,
    pub see_also: Seq<LinkView>,
    pub checkouts: u64,
    pub last_checkout: Option<Seq<char>>,
    pub contexts: Seq<Seq<char>>,
    pub ttl: Seq<char>,
    pub deaccessioned: bool,
}

impl View for CatalogEntry {
    type V = EntryView;

    open spec fn view(&self) -> EntryView {
        EntryView {
            item_id: self.item_id@,
            content: self.content@,
            class: self.classification@,
            see_also: link_views(self.see_also@),
            checkouts: self.circulation.total_checkouts,
            last_checkout: match self.circulation.last_checkout {
                Some(s) => Some(s@),
                None => None,
            },
            contexts: views(self.circulation.checkout_contexts@),
            ttl: self.ttl@,
            deaccessioned: self.deaccessioned,
        }
    }
}

impl Clone for CatalogEntry {
    fn clone(&self) -> (r: Self)
        ensures
            r@ == self@,
    {
        CatalogEntry {
            item_id: self.item_id.clone(),
            content: self.content.clone(),
            classification: self.classification.clone(),
            see_also: copy_links(&self.see_also),
            circulation: CirculationRecord {
                total_checkouts: self.circulation.total_checkouts,
                last_checkout: clone_opt(&self.circulation.last_checkout),
                checkout_contexts: clone_strings(&self.circulation.checkout_contexts),
            },
            ttl: self.ttl.clone(),
            deaccessioned: self.deaccessioned,
        }
    }
}

/// A medium-circulation entry cut down for compaction.
#[derive(Debug, PartialEq, Eq)]
pub struct CompactionSummary {
    pub item_id: ItemId,
    pub call_number: CallNumber,
    pub subject_headings: Vec<String>,
    pub content_summary: String,
}

/// A summary as plain values.
pub struct SummaryView {
    pub item_id: Seq<char>,
    pub call_number: Seq<Seq<char>>,
    pub subjects: Seq<Seq<char>>,
    pub content_summary: Seq<char>,
}

impl View for CompactionSummary {
    type V = SummaryView;

    open spec fn view(&self) -> SummaryView {
        SummaryView {
            item_id: self.item_id@,
            call_number: self.call_number@,
            subjects: views(self.subject_headings@),
            content_summary: self.content_summary@,
        }
    }
}

/// The active entries by circulation: more than five checkouts kept whole,
/// one to five cut to a summary, none reduced to the call number.
#[derive(Debug, PartialEq, Eq)]
pub struct CompactionTiers {
    pub high: Vec<CatalogEntry>,
    pub medium: Vec<CompactionSummary>,
    pub low: Vec<CallNumber>,
}

/// The identifier an accessioned entry gets: its own, or a fresh serial
/// one when it has none.
pub open spec fn assigned_id(own: Seq<char>, serial: u64) -> Seq<char> {
    if own.len() == 0 { "mem_"@ + dec_pad(serial as nat, 4) } else { own }
}

/// Identifiers generated from different serial numbers differ, so an
/// accession without an identifier never takes one generated before.
pub proof fn lemma_serial_ids_distinct(a: u64, b: u64)
    requires
        a != b,
    ensures
        assigned_id(Seq::empty(), a) != assigned_id(Seq::empty(), b),
{
    let pa = dec_pad(a as nat, 4);
    let pb = dec_pad(b as nat, 4);
    crate::text::lemma_dec_pad_value(a as nat, 4);
    crate::text::lemma_dec_pad_value(b as nat, 4);
    if assigned_id(Seq::empty(), a) == assigned_id(Seq::empty(), b) {
        let p = "mem_"@;
        assert(("mem_"@ + pa).skip(p.len() as int) =~= pa);
        assert(("mem_"@ + pb).skip(p.len() as int) =~= pb);
    }
}

/// The entry as accessioned: the identifier given, and its subjects
/// normalised through the vocabulary, each once, no more than the maximum.
pub open spec fn accessioned(e: EntryView, id: Seq<char>, v2c: Map<Seq<char>, Seq<char>>, max: usize) -> EntryView {
    EntryView {
        item_id: id,
        class: ClassView {
            subjects: first_n(add_missing(Seq::empty(), e.class.subjects.map_values(|s: Seq<char>| normal_form(v2c, s))), max as nat),
            ..e.class
        },
        ..e
    }
}

/// The entry after a checkout in the given context.
pub open spec fn checked_out(e: EntryView, context: Seq<char>) -> EntryView {
    EntryView {
        checkouts: (e.checkouts + 1) as u64,
        last_checkout: Some(context),
        contexts: if e.contexts.contains(context) { e.contexts } else { e.contexts.push(context) },
        ..e
    }
}

/// The call number tree after entering a call number: a path is in it
/// exactly when it was before or leads the call number, where the number is
/// neither empty nor deeper than the maximum; otherwise it is unchanged.
pub open spec fn registered(before: Seq<crate::memory::call_number::HierarchyNode>, after: Seq<crate::memory::call_number::HierarchyNode>, cn: Seq<Seq<char>>, max_depth: usize) -> bool {
    if 0 < cn.len() <= max_depth {
        forall|p: Seq<Seq<char>>| #[trigger] has_path(after, p) <==> has_path(before, p) || leading(p, cn)
    } else {
        after == before
    }
}

/// Which entries a listing takes.
#[derive(Debug, Clone, Copy, PartialEq, Eq, Structural)]
pub enum Selection {
    /// Not deaccessioned.
    Active,
    /// Active, never checked out, and not accessed since it was made.
    ReviewCandidate,
    /// Active with more than five checkouts.
    HighCirculation,
    /// Active with one to five checkouts.
    MediumCirculation,
    /// Active and never checked out.
    LowCirculation,
}

/// Whether a selection takes an entry.
pub open spec fn selects(sel: Selection, e: EntryView) -> bool {
    match sel {
        Selection::Active => !e.deaccessioned,
        Selection::ReviewCandidate => !e.deaccessioned && e.checkouts == 0 && e.class.last_accessed == e.class.created,
        Selection::HighCirculation => !e.deaccessioned && e.checkouts > 5,
        Selection::MediumCirculation => !e.deaccessioned && 1 <= e.checkouts <= 5,
        Selection::LowCirculation => !e.deaccessioned && e.checkouts == 0,
    }
}

/// The identifiers, in order, of the entries a selection takes.
pub open spec fn ids_where(order: Seq<Seq<char>>, m: Map<Seq<char>, EntryView>, sel: Selection) -> Seq<Seq<char>>
    decreases order.len(),
{
    if order.len() == 0 {
        Seq::empty()
    } else {
        let r = ids_where(order.drop_last(), m, sel);
        if selects(sel, m[order.last()]) { r.push(order.last()) } else { r }
    }
}

/// The entries a selection takes, in order.
pub open spec fn entries_where(order: Seq<Seq<char>>, m: Map<Seq<char>, EntryView>, sel: Selection) -> Seq<EntryView> {
    ids_where(order, m, sel).map_values(|k: Seq<char>| m[k])
}

/// Whether a selection takes an entry.
fn selected(sel: Selection, e: &CatalogEntry) -> (r: bool)
    ensures
        r == selects(sel, e@),
{
    match sel {
        Selection::Active => !e.deaccessioned,
        Selection::ReviewCandidate => !e.deaccessioned && e.circulation.total_checkouts == 0
            && crate::text::str_eq(e.classification.temporal.last_accessed.as_str(), e.classification.temporal.created.as_str()),
        Selection::HighCirculation => !e.deaccessioned && e.circulation.total_checkouts > 5,
        Selection::MediumCirculation => !e.deaccessioned && 1 <= e.circulation.total_checkouts && e.circulation.total_checkouts <= 5,
        Selection::LowCirculation => !e.deaccessioned && e.circulation.total_checkouts == 0,
    }
}

/// The summary of an entry: identifier, call number, subjects and the
/// first hundred characters of its content.
pub open spec fn summary_of(e: EntryView) -> SummaryView {
    SummaryView {
        item_id: e.item_id,
        call_number: e.class.call_number,
        subjects: e.class.subjects,
        content_summary: first_n(e.content, 100),
    }
}

/// The views of entry references.
pub open spec fn entry_ref_views(v: Seq<&CatalogEntry>) -> Seq<EntryView> {
    v.map_values(|e: &CatalogEntry| e@)
}

/// What a search is scored from: the query expanded through the
/// vocabulary, the highest circulation among active entries (1 when there
/// are none), and for each item near a matching entry the fewest links to
/// one.
#[derive(Debug, PartialEq, Eq)]
pub struct SearchBasis {
    pub expanded: Vec<String>,
    pub max_circulation: u64,
    pub hops: Vec<(ItemId, u32)>,
}

/// Whether an entry matches a query.
fn entry_matches(e: &CatalogEntry, q: &Vec<String>) -> (r: bool)
    ensures
        r == matches_query(e@, views(q@)),
{
    if e.deaccessioned {
        return false;
    }
    let mut i: usize = 0;
    while i < q.len()
        invariant
            i <= q@.len(),
            !e.deaccessioned,
            forall|j: int| 0 <= j < i ==> !has_ignore_case(e@.class.subjects, #[trigger] views(q@)[j]),
        decreases q@.len() - i,
    {
        if has_string_ignore_case(&e.classification.subject_headings, q[i].as_str()) {
            assert(has_ignore_case(e@.class.subjects, views(q@)[i as int]));
            return true;
        }
        i = i + 1;
    }
    false
}

/// The catalogue: entries by identifier, in the order first accessioned,
/// with the graph, call number tree and vocabulary.
pub struct CardCatalog {
    entries: StrMap<CatalogEntry>,
    graph: SeeAlsoGraph,
    hierarchy: CallNumberHierarchy,
    vocabulary: VocabularyIndex,
    config: CatalogConfig,
    next_id: u64,
}

impl CardCatalog {
    /// The entries are keyed by their own identifiers.
    pub closed spec fn wf(self) -> bool {
        &&& self.entries.wf()
        &&& forall|k: Seq<char>| #[trigger] self.entries.map().dom().contains(k) ==> self.entries.map()[k].item_id@ == k
    }

    /// The entries by identifier.
    pub closed spec fn entry_views(self) -> Map<Seq<char>, EntryView> {
        self.entries.map().map_values(|e: CatalogEntry| e@)
    }

    /// The identifiers in the order first accessioned.
    pub closed spec fn order(self) -> Seq<Seq<char>> {
        self.entries.key_seq()
    }

    /// The "see also" graph.
    pub closed spec fn graph_spec(self) -> SeeAlsoGraph {
        self.graph
    }

    /// The call number tree.
    pub closed spec fn hierarchy_spec(self) -> CallNumberHierarchy {
        self.hierarchy
    }

    /// The controlled vocabulary.
    pub closed spec fn vocabulary_spec(self) -> VocabularyIndex {
        self.vocabulary
    }

    /// The configuration.
    pub closed spec fn config_spec(self) -> CatalogConfig {
        self.config
    }

    /// The serial number the next generated identifier takes.
    pub closed spec fn next_serial(self) -> u64 {
        self.next_id
    }

    proof fn lemma_wf(self)
        requires
            self.wf(),
        ensures
            self.order().no_duplicates(),
            forall|k: Seq<char>| #[trigger] self.entry_views().dom().contains(k) <==> self.order().contains(k),
            self.entry_views().dom().finite(),
    {
        self.entries.lemma_wf();
        assert(self.entry_views().dom() =~= self.entries.map().dom());
    }

    /// An empty catalogue with the built-in vocabulary (at most two
    /// hundred canonical terms) and the top-level call numbers.
    pub fn new(config: CatalogConfig) -> (c: Self)
        ensures
            c.wf(),
            c.entry_views() == Map::<Seq<char>, EntryView>::empty(),
            c.order() == Seq::<Seq<char>>::empty(),
            c.graph_spec()@.edges == Map::<Seq<char>, Seq<LinkView>>::empty(),
            c.graph_spec()@.order == Seq::<Seq<char>>::empty(),
            c.graph_spec()@.max_links == config.max_see_also,
            c.hierarchy_spec().max_depth == config.call_number_depth,
            c.hierarchy_spec().roots@.len() == top_level_categories().len(),
            forall|i: int| 0 <= i < c.hierarchy_spec().roots@.len() ==> {
                &&& (#[trigger] c.hierarchy_spec().roots@[i]).segment@ == top_level_categories()[i].0
                &&& c.hierarchy_spec().roots@[i].description@ == top_level_categories()[i].1
                &&& c.hierarchy_spec().roots@[i].children@.len() == 0
            },
            c.vocabulary_spec().v2c() == mapped_v2c(Map::empty(), default_pairs()),
            c.vocabulary_spec().c2v() == mapped_c2v(Map::empty(), default_pairs()),
            c.vocabulary_spec().limit() == 200,
            c.config_spec() == config,
            c.next_serial() == 1,
    {
        let vocab = default_vocabulary();
        let vocabulary = VocabularyIndex::from_vocabulary(&vocab, 200);
        let hierarchy = CallNumberHierarchy::default_hierarchy(config.call_number_depth);
        let graph = SeeAlsoGraph::new(config.max_see_also);
        let c = CardCatalog { entries: StrMap::new(), graph, hierarchy, vocabulary, config, next_id: 1 };
        proof {
            c.entries.lemma_wf();
            assert(c.entry_views() =~= Map::<Seq<char>, EntryView>::empty());
        }
        c
    }

    /// A fresh serial identifier.
    fn next_item_id(&mut self) -> (id: ItemId)
        requires
            old(self).next_id < u64::MAX,
        ensures
            id@ == "mem_"@ + dec_pad(old(self).next_id as nat, 4),
            final(self).next_id == old(self).next_id + 1,
            final(self).entries == old(self).entries,
            final(self).graph == old(self).graph,
            final(self).hierarchy == old(self).hierarchy,
            final(self).vocabulary == old(self).vocabulary,
            final(self).config == old(self).config,
    {
        proof {
            reveal_strlit("mem_");
        }
        let mut s = String::new();
        push_str(&mut s, "mem_");
        let d = dec_pad_string(self.next_id, 4);
        push_str(&mut s, d.as_str());
        self.next_id = self.next_id + 1;
        ItemId(s)
    }


    /// Accession an entry: give it a serial identifier if it has none,
    /// normalise its subjects through the vocabulary (each once, no more
    /// than the maximum), enter its call number in the tree, and store it
    /// under its identifier, replacing an entry of the same identifier.
    pub fn accession(&mut self, entry: CatalogEntry) -> (id: ItemId)
        requires
            old(self).wf(),
            entry.item_id@.len() == 0 ==> old(self).next_serial() < u64::MAX,
        ensures
            final(self).wf(),
            id@ == assigned_id(entry.item_id@, old(self).next_serial()),
            final(self).next_serial() == (if entry.item_id@.len() == 0 { (old(self).next_serial() + 1) as u64 } else { old(self).next_serial() }),
            final(self).entry_views() == old(self).entry_views().insert(
                id@,
                accessioned(entry@, id@, old(self).vocabulary_spec().v2c(), old(self).config_spec().max_subject_headings),
            ),
            final(self).order() == (if old(self).order().contains(id@) { old(self).order() } else { old(self).order().push(id@) }),
            final(self).graph_spec() == old(self).graph_spec(),
            final(self).vocabulary_spec() == old(self).vocabulary_spec(),
            final(self).config_spec() == old(self).config_spec(),
            final(self).hierarchy_spec().max_depth == old(self).hierarchy_spec().max_depth,
            registered(
                old(self).hierarchy_spec().roots@,
                final(self).hierarchy_spec().roots@,
                entry.classification.call_number@,
                old(self).hierarchy_spec().max_depth,
            ),
    {
        proof { self.entries.lemma_wf(); }
        let ghost e0 = entry@;
        let ghost v2c = self.vocabulary.v2c();
        let mut entry = entry;
        if entry.item_id.0.unicode_len() == 0 {
            entry.item_id = self.next_item_id();
        }
        let normalized = self.vocabulary.normalize_subjects(entry.classification.subject_headings.as_slice());
        let mut subjects = normalized;
        let ghost nv = views(subjects@);
        subjects.truncate(self.config.max_subject_headings);
        proof {
            assert(views(subjects@) =~= first_n(nv, self.config.max_subject_headings as nat));
            assert(entry.classification.subject_headings@.map_values(|s: String| normal_form(v2c, s@))
                =~= e0.class.subjects.map_values(|s: Seq<char>| normal_form(v2c, s)));
        }
        entry.classification.subject_headings = subjects;
        let _ = self.hierarchy.register(&entry.classification.call_number);
        let id = entry.item_id.clone();
        let key = entry.item_id.0.clone();
        let ghost stored = entry;
        assert(entry@ == accessioned(e0, id@, v2c, self.config.max_subject_headings));
        let ghost m0 = self.entries.map();
        self.entries.insert(key, entry);
        proof {
            self.entries.lemma_wf();
            assert(self.entries.map() == m0.insert(id@, stored));
            assert forall|k: Seq<char>| #[trigger] self.entries.map().dom().contains(k) implies self.entries.map()[k].item_id@ == k by {
                if k != id@ {
                    assert(m0.dom().contains(k));
                }
            }
            assert(self.entry_views() =~= old(self).entry_views().insert(id@, accessioned(e0, id@, v2c, self.config.max_subject_headings)));
        }
        id
    }

    /// Mark an entry deaccessioned (it stays in the catalogue) and take it
    /// out of the "see also" graph; false when there is no such entry.
    pub fn deaccession(&mut self, item_id: &ItemId) -> (r: bool)
        requires
            old(self).wf(),
        ensures
            final(self).wf(),
            r == old(self).entry_views().dom().contains(item_id@),
            final(self).entry_views() == (if r {
                old(self).entry_views().insert(item_id@, EntryView { deaccessioned: true, ..old(self).entry_views()[item_id@] })
            } else {
                old(self).entry_views()
            }),
            final(self).order() == old(self).order(),
            final(self).graph_spec()@ == (if r { remove_result(old(self).graph_spec()@, item_id@) } else { old(self).graph_spec()@ }),
            final(self).hierarchy_spec() == old(self).hierarchy_spec(),
            final(self).vocabulary_spec() == old(self).vocabulary_spec(),
            final(self).config_spec() == old(self).config_spec(),
            final(self).next_serial() == old(self).next_serial(),
    {
        proof { self.entries.lemma_wf(); }
        match self.entries.find(item_id.0.as_str()) {
            None => {
                assert(!old(self).entry_views().dom().contains(item_id@));
                false
            },
            Some(i) => {
                let ghost m0 = self.entries.map();
                let mut e = self.entries.val_at(i).clone();
                e.deaccessioned = true;
                let ghost stored = e;
                self.entries.set_at(i, e);
                self.graph.remove_item(item_id);
                proof {
                    assert(m0[item_id@] == old(self).entries.val_seq()[i as int]);
                    assert(self.entries.map() == m0.insert(item_id@, stored));
                    assert forall|k: Seq<char>| #[trigger] self.entries.map().dom().contains(k) implies self.entries.map()[k].item_id@ == k by {
                        if k != item_id@ {
                            assert(m0.dom().contains(k));
                        }
                    }
                    assert(self.entry_views() =~= old(self).entry_views().insert(
                        item_id@,
                        EntryView { deaccessioned: true, ..old(self).entry_views()[item_id@] },
                    ));
                }
                true
            },
        }
    }

    /// Look an entry up and, where circulation is tracked, record the
    /// checkout: one more checkout, this context as the last, and the
    /// context added to those seen. `None` when there is no such entry.
    pub fn checkout(&mut self, item_id: &ItemId, context: &str) -> (r: Option<&CatalogEntry>)
        requires
            old(self).wf(),
            old(self).config_spec().circulation_tracking && old(self).entry_views().dom().contains(item_id@)
                ==> old(self).entry_views()[item_id@].checkouts < u64::MAX,
        ensures
            final(self).wf(),
            final(self).entry_views() == (if old(self).config_spec().circulation_tracking && old(self).entry_views().dom().contains(item_id@) {
                old(self).entry_views().insert(item_id@, checked_out(old(self).entry_views()[item_id@], context@))
            } else {
                old(self).entry_views()
            }),
            match r {
                Some(e) => old(self).entry_views().dom().contains(item_id@) && e@ == final(self).entry_views()[item_id@],
                None => !old(self).entry_views().dom().contains(item_id@),
            },
            final(self).order() == old(self).order(),
            final(self).graph_spec() == old(self).graph_spec(),
            final(self).hierarchy_spec() == old(self).hierarchy_spec(),
            final(self).vocabulary_spec() == old(self).vocabulary_spec(),
            final(self).config_spec() == old(self).config_spec(),
            final(self).next_serial() == old(self).next_serial(),
    {
        proof { self.entries.lemma_wf(); }
        match self.entries.find(item_id.0.as_str()) {
            None => {
                assert(!old(self).entry_views().dom().contains(item_id@));
                None
            },
            Some(i) => {
                let ghost m0 = self.entries.map();
                proof {
                    assert(m0[item_id@] == old(self).entries.val_seq()[i as int]);
                }
                if self.config.circulation_tracking {
                    let mut e = self.entries.val_at(i).clone();
                    let ghost ev = e@;
                    assert(m0.dom().contains(item_id@));
                    assert(ev.item_id == item_id@);
                    e.circulation.total_checkouts = e.circulation.total_checkouts + 1;
                    e.circulation.last_checkout = Some(context.to_owned());
                    let ctx = context.to_owned();
                    if !contains_string(&e.circulation.checkout_contexts, &ctx) {
                        let ghost before = views(e.circulation.checkout_contexts@);
                        e.circulation.checkout_contexts.push(ctx);
                        assert(views(e.circulation.checkout_contexts@) =~= before.push(context@));
                    }
                    let ghost stored = e;
                    assert(e@ == checked_out(ev, context@));
                    self.entries.set_at(i, e);
                    proof {
                        self.entries.lemma_wf();
                        assert(self.entries.map() == m0.insert(item_id@, stored));
                        assert forall|k: Seq<char>| #[trigger] self.entries.map().dom().contains(k) implies self.entries.map()[k].item_id@ == k by {
                            if k != item_id@ {
                                assert(m0.dom().contains(k));
                            }
                        }
                        assert(self.entry_views() =~= old(self).entry_views().insert(item_id@, checked_out(old(self).entry_views()[item_id@], context@)));
                    }
                } else {
                    assert(self.entry_views() == old(self).entry_views());
                }
                proof { self.entries.lemma_wf(); }
                Some(self.entries.val_at(i))
            },
        }
    }

    /// An entry, without recording a checkout.
    pub fn get(&self, item_id: &ItemId) -> (r: Option<&CatalogEntry>)
        requires
            self.wf(),
        ensures
            match r {
                Some(e) => self.entry_views().dom().contains(item_id@) && e@ == self.entry_views()[item_id@],
                None => !self.entry_views().dom().contains(item_id@),
            },
    {
        self.entries.get(item_id.0.as_str())
    }


    /// The entries a selection takes, in the order first accessioned.
    fn refs_where(&self, sel: Selection) -> (r: Vec<&CatalogEntry>)
        requires
            self.wf(),
        ensures
            entry_ref_views(r@) == entries_where(self.order(), self.entry_views(), sel),
    {
        proof { self.entries.lemma_wf(); }
        let ghost order = self.order();
        let ghost m = self.entry_views();
        let mut r: Vec<&CatalogEntry> = Vec::new();
        let n = self.entries.len();
        let mut i: usize = 0;
        assert(order.take(0) =~= Seq::<Seq<char>>::empty());
        assert(entry_ref_views(r@) =~= entries_where(order.take(0), m, sel));
        while i < n
            invariant
                self.wf(),
                n == order.len(),
                i <= n,
                order == self.order(),
                m == self.entry_views(),
                entry_ref_views(r@) == entries_where(order.take(i as int), m, sel),
            decreases n - i,
        {
            proof { self.entries.lemma_wf(); }
            let e = self.entries.val_at(i);
            proof {
                assert(order.take(i + 1).drop_last() =~= order.take(i as int));
                assert(order.take(i + 1).last() == order[i as int]);
                assert(self.entries.map()[order[i as int]] == self.entries.val_seq()[i as int]);
                assert(m[order[i as int]] == e@);
            }
            let ghost before = r@;
            if selected(sel, e) {
                r.push(e);
                proof {
                    assert(entry_ref_views(r@) =~= entry_ref_views(before).push(e@));
                    assert(entries_where(order.take(i + 1), m, sel) =~= entries_where(order.take(i as int), m, sel).push(m[order[i as int]]));
                }
            }
            i = i + 1;
        }
        assert(order.take(n as int) =~= order);
        r
    }

    /// The entries not deaccessioned, in the order first accessioned.
    pub fn active_entries(&self) -> (r: Vec<&CatalogEntry>)
        requires
            self.wf(),
        ensures
            entry_ref_views(r@) == entries_where(self.order(), self.entry_views(), Selection::Active),
    {
        self.refs_where(Selection::Active)
    }

    /// The number of entries not deaccessioned.
    pub fn active_count(&self) -> (n: usize)
        requires
            self.wf(),
        ensures
            n == ids_where(self.order(), self.entry_views(), Selection::Active).len(),
    {
        let v = self.refs_where(Selection::Active);
        assert(entry_ref_views(v@).len() == v@.len());
        assert(entries_where(self.order(), self.entry_views(), Selection::Active).len()
            == ids_where(self.order(), self.entry_views(), Selection::Active).len());
        v.len()
    }

    /// The entries to review for deaccession: active, never checked out,
    /// and not accessed since they were made.
    pub fn deaccession_candidates(&self) -> (r: Vec<&CatalogEntry>)
        requires
            self.wf(),
        ensures
            entry_ref_views(r@) == entries_where(self.order(), self.entry_views(), Selection::ReviewCandidate),
    {
        self.refs_where(Selection::ReviewCandidate)
    }

    /// The active entries by circulation tier, each tier in the order
    /// first accessioned.
    pub fn compaction_tiers(&self) -> (t: CompactionTiers)
        requires
            self.wf(),
        ensures
            t.high@.map_values(|e: CatalogEntry| e@) == entries_where(self.order(), self.entry_views(), Selection::HighCirculation),
            t.medium@.map_values(|s: CompactionSummary| s@)
                == entries_where(self.order(), self.entry_views(), Selection::MediumCirculation).map_values(|e: EntryView| summary_of(e)),
            t.low@.map_values(|c: CallNumber| c@)
                == entries_where(self.order(), self.entry_views(), Selection::LowCirculation).map_values(|e: EntryView| e.class.call_number),
    {
        let high_refs = self.refs_where(Selection::HighCirculation);
        let medium_refs = self.refs_where(Selection::MediumCirculation);
        let low_refs = self.refs_where(Selection::LowCirculation);
        let mut high: Vec<CatalogEntry> = Vec::new();
        let mut i: usize = 0;
        while i < high_refs.len()
            invariant
                i <= high_refs@.len(),
                high@.map_values(|e: CatalogEntry| e@) == entry_ref_views(high_refs@).take(i as int),
            decreases high_refs@.len() - i,
        {
            let ghost before = high@;
            high.push(high_refs[i].clone());
            assert(high@.map_values(|e: CatalogEntry| e@) =~= before.map_values(|e: CatalogEntry| e@).push(high_refs@[i as int]@));
            i = i + 1;
            assert(entry_ref_views(high_refs@).take(i as int) =~= entry_ref_views(high_refs@).take(i - 1).push(high_refs@[i - 1]@));
        }
        assert(entry_ref_views(high_refs@).take(i as int) =~= entry_ref_views(high_refs@));
        let ghost mv = entry_ref_views(medium_refs@).map_values(|e: EntryView| summary_of(e));
        let mut medium: Vec<CompactionSummary> = Vec::new();
        let mut j: usize = 0;
        while j < medium_refs.len()
            invariant
                j <= medium_refs@.len(),
                mv == entry_ref_views(medium_refs@).map_values(|e: EntryView| summary_of(e)),
                medium@.map_values(|s: CompactionSummary| s@) == mv.take(j as int),
            decreases medium_refs@.len() - j,
        {
            let e = medium_refs[j];
            let n = e.content.as_str().unicode_len();
            let cut = if n < 100 { n } else { 100 };
            let summary = CompactionSummary {
                item_id: e.item_id.clone(),
                call_number: e.classification.call_number.clone(),
                subject_headings: clone_strings(&e.classification.subject_headings),
                content_summary: slice_chars(e.content.as_str(), 0, cut),
            };
            assert(summary.content_summary@ =~= first_n(e@.content, 100));
            assert(summary@ == summary_of(e@));
            let ghost before = medium@;
            medium.push(summary);
            assert(medium@.map_values(|s: CompactionSummary| s@) =~= before.map_values(|s: CompactionSummary| s@).push(summary_of(e@)));
            j = j + 1;
            assert(mv.take(j as int) =~= mv.take(j - 1).push(mv[j - 1]));
        }
        assert(mv.take(j as int) =~= mv);
        let ghost lv = entry_ref_views(low_refs@).map_values(|e: EntryView| e.class.call_number);
        let mut low: Vec<CallNumber> = Vec::new();
        let mut k: usize = 0;
        while k < low_refs.len()
            invariant
                k <= low_refs@.len(),
                lv == entry_ref_views(low_refs@).map_values(|e: EntryView| e.class.call_number),
                low@.map_values(|c: CallNumber| c@) == lv.take(k as int),
            decreases low_refs@.len() - k,
        {
            let ghost before = low@;
            low.push(low_refs[k].classification.call_number.clone());
            assert(low@.map_values(|c: CallNumber| c@) =~= before.map_values(|c: CallNumber| c@).push(lv[k as int]));
            k = k + 1;
            assert(lv.take(k as int) =~= lv.take(k - 1).push(lv[k - 1]));
        }
        assert(lv.take(k as int) =~= lv);
        CompactionTiers { high, medium, low }
    }

    /// The basis of a search for the given subjects.
    pub fn search_basis(&self, query_subjects: &[String]) -> (b: SearchBasis)
        requires
            self.wf(),
        ensures
            views(b.expanded@) == add_missing(
                Seq::empty(),
                expansions(self.vocabulary_spec().v2c(), self.vocabulary_spec().c2v(), query_subjects@.map_values(|s: String| s@)),
            ),
            b.max_circulation == max_active_checkouts(self.order(), self.entry_views()),
            forall|i: int, j: int| 0 <= i < j < b.hops@.len() ==> #[trigger] b.hops@[i].0@ != #[trigger] b.hops@[j].0@,
            forall|i: int| 0 <= i < b.hops@.len() ==> nearest(
                self.graph_spec()@.edges,
                ids_matching(self.order(), self.entry_views(), views(b.expanded@)),
                (#[trigger] b.hops@[i]).0@,
                2,
            ) == Some(b.hops@[i].1 as nat),
            forall|t: Seq<char>| #[trigger] nearest(
                self.graph_spec()@.edges,
                ids_matching(self.order(), self.entry_views(), views(b.expanded@)),
                t,
                2,
            ) is Some ==> exists|i: int| 0 <= i < b.hops@.len() && b.hops@[i].0@ == t,
    {
        proof { self.entries.lemma_wf(); }
        let expanded = self.vocabulary.expand_query(query_subjects);
        let ghost q = views(expanded@);
        let ghost order = self.order();
        let ghost m = self.entry_views();
        let ghost e = self.graph@.edges;
        let n = self.entries.len();
        let mut found = false;
        let mut mc: u64 = 1;
        let mut hm: StrMap<u32> = StrMap::new();
        let mut i: usize = 0;
        proof {
            hm.lemma_wf();
            assert(order.take(0) =~= Seq::<Seq<char>>::empty());
            assert forall|t: Seq<char>| #[trigger] held(hm.map(), t) == nearest(e, ids_matching(order.take(0), m, q), t, 2) by {
                assert(!hm.map().dom().contains(t));
            }
        }
        while i < n
            invariant
                self.wf(),
                n == order.len(),
                i <= n,
                order == self.order(),
                m == self.entry_views(),
                e == self.graph@.edges,
                q == views(expanded@),
                hm.wf(),
                mc == max_active_checkouts(order.take(i as int), m),
                found == !no_active(order.take(i as int), m),
                forall|t: Seq<char>| #[trigger] held(hm.map(), t) == nearest(e, ids_matching(order.take(i as int), m, q), t, 2),
            decreases n - i,
        {
            proof { self.entries.lemma_wf(); }
            let entry = self.entries.val_at(i);
            let ghost pre = order.take(i as int);
            let ghost s = order[i as int];
            proof {
                assert(order.take(i + 1).drop_last() =~= pre);
                assert(order.take(i + 1).last() == s);
                assert(self.entries.map()[s] == self.entries.val_seq()[i as int]);
                assert(m[s] == entry@);
                assert(self.entries.map().dom().contains(s));
                assert(entry.item_id@ == s);
            }
            if !entry.deaccessioned {
                if !found || entry.circulation.total_checkouts > mc {
                    mc = entry.circulation.total_checkouts;
                }
                found = true;
            }
            proof {
                let np = order.take(i + 1);
                if !no_active(pre, m) {
                    let k = choose|k: int| 0 <= k < pre.len() && !(#[trigger] m[pre[k]]).deaccessioned;
                    assert(np[k] == pre[k]);
                }
                if !entry.deaccessioned {
                    assert(!m[np[i as int]].deaccessioned);
                } else {
                    assert forall|k: int| 0 <= k < np.len() && no_active(pre, m) implies (#[trigger] m[np[k]]).deaccessioned by {
                        if k < i {
                            assert(np[k] == pre[k]);
                        }
                    }
                }
            }
            if entry_matches(entry, &expanded) {
                let ghost prev = hm.map();
                hm.insert(entry.item_id.0.clone(), 0);
                let walk = self.graph.traverse(&entry.item_id, 2);
                let ghost hv = hop_views(walk@);
                proof {
                    lemma_walk_skips_start(e, s, hv);
                }
                let mut j: usize = 0;
                proof {
                    assert(hv.take(0) =~= Seq::<(Seq<char>, u32)>::empty());
                    assert forall|t: Seq<char>| #[trigger] held(hm.map(), t)
                        == folded(if t == s { Some(0nat) } else { held(prev, t) }, hv.take(0), t) by {
                        if t != s {
                            assert(hm.map().dom().contains(t) == prev.dom().contains(t));
                        }
                    }
                }
                while j < walk.len()
                    invariant
                        j <= walk@.len(),
                        hv == hop_views(walk@),
                        bfs_result(e, s, 2, hv),
                        hm.wf(),
                        forall|t: Seq<char>| #[trigger] held(hm.map(), t)
                            == folded(if t == s { Some(0nat) } else { held(prev, t) }, hv.take(j as int), t),
                    decreases walk@.len() - j,
                {
                    let r = &walk[j].0;
                    let h = walk[j].1;
                    let ghost before = hm.map();
                    proof {
                        assert(hv.take(j + 1).drop_last() =~= hv.take(j as int));
                        assert(hv.take(j + 1).last() == hv[j as int]);
                        assert(hv[j as int] == (r@, h));
                    }
                    let keep = match hm.get(r.0.as_str()) {
                        Some(x) => *x <= h,
                        None => false,
                    };
                    if !keep {
                        hm.insert(r.0.clone(), h);
                    }
                    proof {
                        assert forall|t: Seq<char>| #[trigger] held(hm.map(), t)
                            == folded(if t == s { Some(0nat) } else { held(prev, t) }, hv.take(j + 1), t) by {
                            assert(held(before, t) == folded(if t == s { Some(0nat) } else { held(prev, t) }, hv.take(j as int), t));
                            if t != r@ {
                                assert(hm.map().dom().contains(t) == before.dom().contains(t));
                            }
                        }
                    }
                    j = j + 1;
                }
                proof {
                    assert(hv.take(walk@.len() as int) =~= hv);
                    let ns = ids_matching(order.take(i + 1), m, q);
                    assert(ns == ids_matching(pre, m, q).push(s));
                    assert(ns.drop_last() =~= ids_matching(pre, m, q));
                    assert forall|t: Seq<char>| #[trigger] held(hm.map(), t) == nearest(e, ns, t, 2) by {
                        lemma_listed_once(hv, if t == s { Some(0nat) } else { held(prev, t) }, t);
                        assert(held(prev, t) == nearest(e, ids_matching(pre, m, q), t, 2));
                        if t == s {
                            assert(link_distance(e, s, s, 0) == Some(0nat));
                            assert(link_distance(e, s, s, 1) == Some(0nat));
                            assert(link_distance(e, s, s, 2) == Some(0nat));
                            assert(!(exists|k: int| 0 <= k < hv.len() && #[trigger] hv[k].0 == t));
                        } else {
                            lemma_walk_distances(e, s, hv, t);
                        }
                    }
                }
            } else {
                proof {
                    assert(ids_matching(order.take(i + 1), m, q) == ids_matching(pre, m, q));
                }
            }
            i = i + 1;
        }
        proof {
            assert(order.take(n as int) =~= order);
            hm.lemma_wf();
        }
        let mut hops: Vec<(ItemId, u32)> = Vec::new();
        let len = hm.len();
        let mut k: usize = 0;
        while k < len
            invariant
                hm.wf(),
                len == hm.key_seq().len(),
                k <= len,
                hops@.len() == k,
                forall|x: int| 0 <= x < k ==> (#[trigger] hops@[x]).0@ == hm.key_seq()[x] && hops@[x].1 == hm.val_seq()[x],
            decreases len - k,
        {
            let key = hm.key_at(k);
            let val = *hm.val_at(k);
            hops.push((ItemId(key.clone()), val));
            k = k + 1;
        }
        proof {
            hm.lemma_wf();
            let srcs = ids_matching(order, m, q);
            assert forall|x: int, y: int| 0 <= x < y < hops@.len() implies #[trigger] hops@[x].0@ != #[trigger] hops@[y].0@ by {
                assert(hm.key_seq()[x] != hm.key_seq()[y]);
            }
            assert forall|x: int| 0 <= x < hops@.len() implies nearest(e, srcs, (#[trigger] hops@[x]).0@, 2) == Some(hops@[x].1 as nat) by {
                let kx = hm.key_seq()[x];
                assert(hm.map()[kx] == hm.val_seq()[x]);
                assert(hm.map().dom().contains(kx));
                assert(held(hm.map(), kx) == nearest(e, srcs, kx, 2));
            }
            assert forall|t: Seq<char>| #[trigger] nearest(e, srcs, t, 2) is Some implies exists|x: int| 0 <= x < hops@.len() && hops@[x].0@ == t by {
                assert(held(hm.map(), t) == nearest(e, srcs, t, 2));
                assert(hm.map().dom().contains(t));
                assert(hm.key_seq().contains(t));
                let x = hm.key_seq().index_of(t);
                assert(hops@[x].0@ == t);
            }
        }
        SearchBasis { expanded, max_circulation: mc, hops }
    }

    /// The "see also" graph.
    pub fn graph(&self) -> (r: &SeeAlsoGraph)
        ensures
            *r == self.graph_spec(),
    {
        &self.graph
    }


    /// The "see also" graph, to change; the rest of the catalogue stays.
    pub fn graph_mut(&mut self) -> (r: &mut SeeAlsoGraph)
        ensures
            *r == old(self).graph_spec(),
            final(self).graph_spec() == *final(r),
            final(self).wf() == old(self).wf(),
            final(self).entry_views() == old(self).entry_views(),
            final(self).order() == old(self).order(),
            final(self).hierarchy_spec() == old(self).hierarchy_spec(),
            final(self).vocabulary_spec() == old(self).vocabulary_spec(),
            final(self).config_spec() == old(self).config_spec(),
            final(self).next_serial() == old(self).next_serial(),
    {
        &mut self.graph
    }

    /// The controlled vocabulary.
    pub fn vocabulary(&self) -> (r: &VocabularyIndex)
        ensures
            *r == self.vocabulary_spec(),
    {
        &self.vocabulary
    }

    /// The call number tree.
    pub fn hierarchy(&self) -> (r: &CallNumberHierarchy)
        ensures
            *r == self.hierarchy_spec(),
    {
        &self.hierarchy
    }

    /// The controlled vocabulary, to change; the rest of the catalogue stays.
    pub fn vocabulary_mut(&mut self) -> (r: &mut VocabularyIndex)
        ensures
            *r == old(self).vocabulary_spec(),
            final(self).vocabulary_spec() == *final(r),
            final(self).wf() == old(self).wf(),
            final(self).entry_views() == old(self).entry_views(),
            final(self).order() == old(self).order(),
            final(self).graph_spec() == old(self).graph_spec(),
            final(self).hierarchy_spec() == old(self).hierarchy_spec(),
            final(self).config_spec() == old(self).config_spec(),
            final(self).next_serial() == old(self).next_serial(),
    {
        &mut self.vocabulary
    }

    /// The call number tree, to change; the rest of the catalogue stays.
    pub fn hierarchy_mut(&mut self) -> (r: &mut CallNumberHierarchy)
        ensures
            *r == old(self).hierarchy_spec(),
            final(self).hierarchy_spec() == *final(r),
            final(self).wf() == old(self).wf(),
            final(self).entry_views() == old(self).entry_views(),
            final(self).order() == old(self).order(),
            final(self).graph_spec() == old(self).graph_spec(),
            final(self).vocabulary_spec() == old(self).vocabulary_spec(),
            final(self).config_spec() == old(self).config_spec(),
            final(self).next_serial() == old(self).next_serial(),
    {
        &mut self.hierarchy
    }

    /// The number of entries, deaccessioned ones included.
    pub fn total_count(&self) -> (n: usize)
        requires
            self.wf(),
        ensures
            n == self.order().len(),
    {
        proof { self.entries.lemma_wf(); }
        self.entries.len()
    }
}

} // verus!
