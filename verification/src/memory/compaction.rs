//! Compaction by circulation: when the context fills up, heavily used
//! memories are kept whole, moderately used ones cut to a summary, unused
//! ones reduced to their call number and subjects.

use vstd::prelude::*;
use crate::ids::EntryId;
use crate::memory::call_number::{first_n, CallNumber};
use crate::memory::entry::{subjects_of, MemoryEntry, MemoryState};
use crate::memory::store::InMemoryStore;
use crate::parse::{join, join_strings};
use crate::text::{clone_strings, dec, dec_string, push_str, slice_chars, views};

verus! {

/// More accesses than this keep an entry whole.
pub const HIGH_CIRCULATION_THRESHOLD: u64 = 5;

/// A moderately used entry cut down for compaction.
#[derive(Debug, PartialEq, Eq)]
pub struct CompactionSummary {
    pub id: EntryId,
    pub call_number: CallNumber,
    pub subject_headings: Vec<String>,
    pub content_summary: String,
    pub access_count: u64,
}

/// An unused entry reduced to its metadata.
#[derive(Debug, PartialEq, Eq)]
pub struct MetadataOnly {
    pub id: EntryId,
    pub call_number: CallNumber,
    pub subject_headings: Vec<String>,
}

/// The alive entries by circulation tier.
#[derive(Debug, PartialEq, Eq)]
pub struct CompactionTiers<'a, S> {
    pub high: Vec<&'a MemoryEntry<S>>,
    pub medium: Vec<CompactionSummary>,
    pub low: Vec<MetadataOnly>,
}

/// A summary as plain values.
pub struct SummaryView {
    pub id: Seq<char>,
    pub call_number: Seq<Seq<char>>,
    pub subjects: Seq<Seq<char>>,
    pub content_summary: Seq<char>,
    pub access_count: u64,
}

/// Metadata as plain values.
pub struct MetaView {
    pub id: Seq<char>,
    pub call_number: Seq<Seq<char>>,
    pub subjects: Seq<Seq<char>>,
}

impl View for CompactionSummary {
    type V = SummaryView;

    open spec fn view(&self) -> SummaryView {
        SummaryView {
            id: self.id@,
            call_number: self.call_number@,
            subjects: views(self.subject_headings@),
            content_summary: self.content_summary@,
            access_count: self.access_count,
        }
    }
}

impl View for MetadataOnly {
    type V = MetaView;

    open spec fn view(&self) -> MetaView {
        MetaView { id: self.id@, call_number: self.call_number@, subjects: views(self.subject_headings@) }
    }
}

/// The summary of an entry: its first hundred characters.
pub open spec fn summary_of<S>(e: MemoryEntry<S>) -> SummaryView {
    SummaryView {
        id: e.id@,
        call_number: e.classification.call_number@,
        subjects: subjects_of(e),
        content_summary: first_n(e.content@, 100),
        access_count: e.access_count,
    }
}

/// The metadata of an entry.
pub open spec fn meta_of<S>(e: MemoryEntry<S>) -> MetaView {
    MetaView { id: e.id@, call_number: e.classification.call_number@, subjects: subjects_of(e) }
}

/// The entries kept whole, in order.
pub open spec fn high_tier<S>(es: Seq<MemoryEntry<S>>) -> Seq<MemoryEntry<S>>
    decreases es.len(),
{
    if es.len() == 0 {
        Seq::empty()
    } else {
        let r = high_tier(es.drop_last());
        if es.last().access_count > HIGH_CIRCULATION_THRESHOLD { r.push(es.last()) } else { r }
    }
}

/// The summaries of the moderately used entries, in order.
pub open spec fn medium_tier<S>(es: Seq<MemoryEntry<S>>) -> Seq<SummaryView>
    decreases es.len(),
{
    if es.len() == 0 {
        Seq::empty()
    } else {
        let r = medium_tier(es.drop_last());
        let c = es.last().access_count;
        if 1 <= c <= HIGH_CIRCULATION_THRESHOLD { r.push(summary_of(es.last())) } else { r }
    }
}

/// The metadata of the unused entries, in order.
pub open spec fn low_tier<S>(es: Seq<MemoryEntry<S>>) -> Seq<MetaView>
    decreases es.len(),
{
    if es.len() == 0 {
        Seq::empty()
    } else {
        let r = low_tier(es.drop_last());
        if es.last().access_count == 0 { r.push(meta_of(es.last())) } else { r }
    }
}

/// The alive entries of a store, in the order stored.
pub open spec fn alive_entries<S>(store: InMemoryStore<S>) -> Seq<MemoryEntry<S>> {
    store.ids_in(MemoryState::Alive).map_values(|k: Seq<char>| store.entries()[k])
}

/// The dereferenced entries.
pub open spec fn derefs<S>(v: Seq<&MemoryEntry<S>>) -> Seq<MemoryEntry<S>> {
    v.map_values(|e: &MemoryEntry<S>| *e)
}

/// Group the alive entries of a store by circulation tier.
pub fn compact<'a, S>(store: &'a InMemoryStore<S>) -> (t: CompactionTiers<'a, S>)
    requires
        store.wf(),
    ensures
        derefs(t.high@) == high_tier(alive_entries(*store)),
        t.medium@.map_values(|s: CompactionSummary| s@) == medium_tier(alive_entries(*store)),
        t.low@.map_values(|m: MetadataOnly| m@) == low_tier(alive_entries(*store)),
{
    let alive = store.entries_by_state(MemoryState::Alive);
    let ghost es = alive_entries(*store);
    assert(derefs(alive@) =~= es);
    let mut high: Vec<&'a MemoryEntry<S>> = Vec::new();
    let mut medium: Vec<CompactionSummary> = Vec::new();
    let mut low: Vec<MetadataOnly> = Vec::new();
    let mut i: usize = 0;
    assert(es.take(0) =~= Seq::<MemoryEntry<S>>::empty());
    assert(derefs(high@) =~= Seq::<MemoryEntry<S>>::empty());
    assert(medium@.map_values(|s: CompactionSummary| s@) =~= Seq::<SummaryView>::empty());
    assert(low@.map_values(|m: MetadataOnly| m@) =~= Seq::<MetaView>::empty());
    while i < alive.len()
        invariant
            i <= alive@.len(),
            es == derefs(alive@),
            derefs(high@) == high_tier(es.take(i as int)),
            medium@.map_values(|s: CompactionSummary| s@) == medium_tier(es.take(i as int)),
            low@.map_values(|m: MetadataOnly| m@) == low_tier(es.take(i as int)),
        decreases alive@.len() - i,
    {
        let e = alive[i];
        proof {
            assert(es.take(i + 1).drop_last() =~= es.take(i as int));
            assert(es.take(i + 1).last() == *e);
        }
        if e.access_count > HIGH_CIRCULATION_THRESHOLD {
            let ghost before = derefs(high@);
            high.push(e);
            assert(derefs(high@) =~= before.push(*e));
        } else if e.access_count >= 1 {
            let n = e.content.as_str().unicode_len();
            let cut = if n < 100 { n } else { 100 };
            let s = CompactionSummary {
                id: e.id.clone(),
                call_number: e.classification.call_number.clone(),
                subject_headings: clone_strings(&e.classification.subject_headings),
                content_summary: slice_chars(e.content.as_str(), 0, cut),
                access_count: e.access_count,
            };
            assert(s.content_summary@ =~= first_n(e.content@, 100));
            assert(s@ == summary_of(*e));
            let ghost before = medium@.map_values(|s: CompactionSummary| s@);
            medium.push(s);
            assert(medium@.map_values(|s: CompactionSummary| s@) =~= before.push(summary_of(*e)));
        } else {
            let m = MetadataOnly {
                id: e.id.clone(),
                call_number: e.classification.call_number.clone(),
                subject_headings: clone_strings(&e.classification.subject_headings),
            };
            assert(m@ == meta_of(*e));
            let ghost before = low@.map_values(|m: MetadataOnly| m@);
            low.push(m);
            assert(low@.map_values(|m: MetadataOnly| m@) =~= before.push(meta_of(*e)));
        }
        i = i + 1;
    }
    assert(es.take(i as int) =~= es);
    CompactionTiers { high, medium, low }
}

/// The rough token cost of a compaction: two hundred per whole entry,
/// fifty per summary, fifteen per metadata line.
pub fn estimate_tokens<S>(tiers: &CompactionTiers<S>) -> (n: u64)
    requires
        200 * tiers.high@.len() + 50 * tiers.medium@.len() + 15 * tiers.low@.len() <= u64::MAX,
    ensures
        n == 200 * tiers.high@.len() + 50 * tiers.medium@.len() + 15 * tiers.low@.len(),
{
    let h = tiers.high.len() as u64;
    let m = tiers.medium.len() as u64;
    let l = tiers.low.len() as u64;
    h * 200 + m * 50 + l * 15
}

/// The head of a rendered line: call number and subjects.
pub open spec fn line_head(cn: Seq<Seq<char>>, subjects: Seq<Seq<char>>) -> Seq<char> {
    "- ["@ + join(cn, seq!['.']) + "] "@ + join(subjects, ", "@)
}

/// The line of an entry kept whole.
pub open spec fn high_line<S>(e: MemoryEntry<S>) -> Seq<char> {
    line_head(e.classification.call_number@, subjects_of(e)) + " (accesses: "@ + dec(e.access_count as nat) + ")\n  "@
        + e.content@ + "\n\n"@
}

/// The line of a summary.
pub open spec fn medium_line(s: SummaryView) -> Seq<char> {
    line_head(s.call_number, s.subjects) + " (accesses: "@ + dec(s.access_count as nat) + "): "@ + s.content_summary + "...\n"@
}

/// The line of an entry reduced to metadata.
pub open spec fn low_line(m: MetaView) -> Seq<char> {
    line_head(m.call_number, m.subjects) + "\n"@
}

/// The lines of the entries kept whole.
pub open spec fn high_lines<S>(es: Seq<MemoryEntry<S>>) -> Seq<char>
    decreases es.len(),
{
    if es.len() == 0 { Seq::empty() } else { high_lines(es.drop_last()) + high_line(es.last()) }
}

/// The lines of the summaries.
pub open spec fn medium_lines(ss: Seq<SummaryView>) -> Seq<char>
    decreases ss.len(),
{
    if ss.len() == 0 { Seq::empty() } else { medium_lines(ss.drop_last()) + medium_line(ss.last()) }
}

/// The lines of the metadata.
pub open spec fn low_lines(ms: Seq<MetaView>) -> Seq<char>
    decreases ms.len(),
{
    if ms.len() == 0 { Seq::empty() } else { low_lines(ms.drop_last()) + low_line(ms.last()) }
}

/// A section heading, e.g. `## High circulation (2 entries)`, and a blank line.
pub open spec fn heading(tier: Seq<char>, n: nat) -> Seq<char> {
    "## "@ + tier + " circulation ("@ + dec(n) + " entries)\n\n"@
}

/// The rendering of the tiers: a section for each non-empty tier, the
/// medium one followed by a blank line.
pub open spec fn rendered<S>(h: Seq<MemoryEntry<S>>, m: Seq<SummaryView>, l: Seq<MetaView>) -> Seq<char> {
    (if h.len() > 0 { heading("High"@, h.len()) + high_lines(h) } else { Seq::empty() })
        + (if m.len() > 0 { heading("Medium"@, m.len()) + medium_lines(m) + "\n"@ } else { Seq::empty() })
        + (if l.len() > 0 { heading("Low"@, l.len()) + low_lines(l) } else { Seq::empty() })
}

/// Append the head of a line.
fn push_head(out: &mut String, cn: &CallNumber, subjects: &Vec<String>)
    ensures
        final(out)@ == old(out)@ + line_head(cn@, views(subjects@)),
{
    proof {
        reveal_strlit("- [");
        reveal_strlit("] ");
        reveal_strlit(", ");
    }
    push_str(out, "- [");
    let c = cn.to_string();
    push_str(out, c.as_str());
    push_str(out, "] ");
    let j = join_strings(subjects, ", ");
    push_str(out, j.as_str());
}

/// Append a section heading.
fn push_heading(out: &mut String, tier: &str, n: usize)
    ensures
        final(out)@ == old(out)@ + heading(tier@, n as nat),
{
    proof {
        reveal_strlit("## ");
        reveal_strlit(" circulation (");
        reveal_strlit(" entries)\n\n");
    }
    push_str(out, "## ");
    push_str(out, tier);
    push_str(out, " circulation (");
    let d = dec_string(n as u64);
    push_str(out, d.as_str());
    push_str(out, " entries)\n\n");
}

/// The tiers as compact text.
pub fn render_compact<S>(tiers: &CompactionTiers<S>) -> (s: String)
    ensures
        s@ == rendered(
            derefs(tiers.high@),
            tiers.medium@.map_values(|x: CompactionSummary| x@),
            tiers.low@.map_values(|x: MetadataOnly| x@),
        ),
{
    proof {
        reveal_strlit("High");
        reveal_strlit("Medium");
        reveal_strlit("Low");
        reveal_strlit(" (accesses: ");
        reveal_strlit(")\n  ");
        reveal_strlit("\n\n");
        reveal_strlit("): ");
        reveal_strlit("...\n");
        reveal_strlit("\n");
    }
    let ghost h = derefs(tiers.high@);
    let ghost m = tiers.medium@.map_values(|x: CompactionSummary| x@);
    let ghost l = tiers.low@.map_values(|x: MetadataOnly| x@);
    let mut out = String::new();
    if tiers.high.len() > 0 {
        push_heading(&mut out, "High", tiers.high.len());
        let ghost start = out@;
        let mut i: usize = 0;
        assert(h.take(0) =~= Seq::<MemoryEntry<S>>::empty());
        while i < tiers.high.len()
            invariant
                i <= tiers.high@.len(),
                h == derefs(tiers.high@),
                out@ == start + high_lines(h.take(i as int)),
            decreases tiers.high@.len() - i,
        {
            proof {
                reveal_strlit(" (accesses: ");
                reveal_strlit(")\n  ");
                reveal_strlit("\n\n");
            }
            let e = tiers.high[i];
            assert(h.take(i + 1).drop_last() =~= h.take(i as int));
            assert(h.take(i + 1).last() == *e);
            let ghost before = out@;
            push_head(&mut out, &e.classification.call_number, &e.classification.subject_headings);
            push_str(&mut out, " (accesses: ");
            let d = dec_string(e.access_count);
            push_str(&mut out, d.as_str());
            push_str(&mut out, ")\n  ");
            push_str(&mut out, e.content.as_str());
            push_str(&mut out, "\n\n");
            assert(out@ =~= before + high_line(*e));
            i = i + 1;
        }
        assert(h.take(i as int) =~= h);
    }
    let ghost after_high = out@;
    if tiers.medium.len() > 0 {
        push_heading(&mut out, "Medium", tiers.medium.len());
        let ghost start = out@;
        let mut i: usize = 0;
        assert(m.take(0) =~= Seq::<SummaryView>::empty());
        while i < tiers.medium.len()
            invariant
                i <= tiers.medium@.len(),
                m == tiers.medium@.map_values(|x: CompactionSummary| x@),
                out@ == start + medium_lines(m.take(i as int)),
            decreases tiers.medium@.len() - i,
        {
            proof {
                reveal_strlit(" (accesses: ");
                reveal_strlit("): ");
                reveal_strlit("...\n");
            }
            let sm = &tiers.medium[i];
            assert(m.take(i + 1).drop_last() =~= m.take(i as int));
            assert(m.take(i + 1).last() == sm@);
            let ghost before = out@;
            push_head(&mut out, &sm.call_number, &sm.subject_headings);
            push_str(&mut out, " (accesses: ");
            let d = dec_string(sm.access_count);
            push_str(&mut out, d.as_str());
            push_str(&mut out, "): ");
            push_str(&mut out, sm.content_summary.as_str());
            push_str(&mut out, "...\n");
            assert(out@ =~= before + medium_line(sm@));
            i = i + 1;
        }
        assert(m.take(i as int) =~= m);
        push_str(&mut out, "\n");
    }
    let ghost after_medium = out@;
    if tiers.low.len() > 0 {
        push_heading(&mut out, "Low", tiers.low.len());
        let ghost start = out@;
        let mut i: usize = 0;
        assert(l.take(0) =~= Seq::<MetaView>::empty());
        while i < tiers.low.len()
            invariant
                i <= tiers.low@.len(),
                l == tiers.low@.map_values(|x: MetadataOnly| x@),
                out@ == start + low_lines(l.take(i as int)),
            decreases tiers.low@.len() - i,
        {
            proof {
                reveal_strlit("\n");
            }
            let md = &tiers.low[i];
            assert(l.take(i + 1).drop_last() =~= l.take(i as int));
            assert(l.take(i + 1).last() == md@);
            let ghost before = out@;
            push_head(&mut out, &md.call_number, &md.subject_headings);
            push_str(&mut out, "\n");
            assert(out@ =~= before + low_line(md@));
            i = i + 1;
        }
        assert(l.take(i as int) =~= l);
    }
    assert(out@ =~= rendered(h, m, l));
    out
}

} // verus!
