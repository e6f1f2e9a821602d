//! How a catalogue entry is classified: its subject headings, call number,
//! provenance and dates.

use vstd::prelude::*;
use crate::catalog::{CatalogEntry, EntryView};
use crate::ids::{AgentId, TaskId};
use crate::memory::call_number::{first_n, CallNumber};
use crate::memory::classification::{extract_keywords, keywords_of, pieces};
use crate::text::{clone_strings, has_ignore_case, has_string_ignore_case, views};

verus! {

/// Where an entry came from.
#[derive(Debug, PartialEq, Eq)]
pub struct SourceClassification {
    pub task: Option<TaskId>,
    pub agent: Option<AgentId>,
    pub branch: Option<String>,
    pub tool: Option<String>,
}

/// When an entry was made, last used and last checked.
#[derive(Debug, PartialEq, Eq)]
pub struct TemporalClassification {
    pub created: String,
    pub last_accessed: String,
    pub last_validated: String,
}

/// The classification of a catalogue entry.
#[derive(Debug, PartialEq, Eq)]
pub struct Classification {
    pub subject_headings: Vec<String>,
    pub call_number: CallNumber,
    pub source: SourceClassification,
    pub temporal: TemporalClassification,
}

/// A classification as plain values.
pub struct ClassView {
    pub subjects: Seq<Seq<char>>,
    pub call_number: Seq<Seq<char>>,
    pub task: Option<Seq<char>>,
    pub agent: Option<Seq<char>>,
    pub branch: Option<Seq<char>>,
    pub tool: Option<Seq<char>>,
    pub created: Seq<char>,
    pub last_accessed: Seq<char>,
    pub last_validated: Seq<char>,
}

/// The characters of an optional string.
pub open spec fn opt_view(o: Option<String>) -> Option<Seq<char>> {
    match o {
        Some(s) => Some(s@),
        None => None,
    }
}

impl View for Classification {
    type V = ClassView;

    open spec fn view(&self) -> ClassView {
        ClassView {
            subjects: views(self.subject_headings@),
            call_number: self.call_number@,
            task: match self.source.task { Some(t) => Some(t@), None => None },
            agent: match self.source.agent { Some(a) => Some(a@), None => None },
            branch: opt_view(self.source.branch),
            tool: opt_view(self.source.tool),
            created: self.temporal.created@,
            last_accessed: self.temporal.last_accessed@,
            last_validated: self.temporal.last_validated@,
        }
    }
}

impl Clone for SourceClassification {
    fn clone(&self) -> (r: Self)
        ensures
            r == *self,
    {
        SourceClassification {
            task: match &self.task { Some(t) => Some(t.clone()), None => None },
            agent: match &self.agent { Some(a) => Some(a.clone()), None => None },
            branch: match &self.branch { Some(b) => Some(b.clone()), None => None },
            tool: match &self.tool { Some(t) => Some(t.clone()), None => None },
        }
    }
}

impl Clone for TemporalClassification {
    fn clone(&self) -> (r: Self)
        ensures
            r == *self,
    {
        TemporalClassification {
            created: self.created.clone(),
            last_accessed: self.last_accessed.clone(),
            last_validated: self.last_validated.clone(),
        }
    }
}

impl Clone for Classification {
    fn clone(&self) -> (r: Self)
        ensures
            r@ == self@,
    {
        Classification {
            subject_headings: clone_strings(&self.subject_headings),
            call_number: self.call_number.clone(),
            source: self.source.clone(),
            temporal: self.temporal.clone(),
        }
    }
}

/// Keywords added to the subjects in turn while there is room for them,
/// each unless some subject already equals it ignoring ASCII case.
pub open spec fn enrich(subjects: Seq<Seq<char>>, kws: Seq<Seq<char>>, max: nat) -> Seq<Seq<char>>
    decreases kws.len(),
{
    if kws.len() == 0 {
        subjects
    } else {
        let acc = enrich(subjects, kws.drop_last(), max);
        if acc.len() >= max || has_ignore_case(acc, kws.last()) { acc } else { acc.push(kws.last()) }
    }
}

/// The subject headings `classify_entry` gives: the given ones (no more
/// than the maximum), then keywords of the content while there is room.
pub open spec fn classified_subjects(content: Seq<char>, given: Seq<Seq<char>>, max: nat) -> Seq<Seq<char>> {
    first_n(enrich(first_n(given, max), first_n(keywords_of(pieces(content)), 10), max), max)
}

/// Classify new content: subject headings enriched with its keywords, its
/// call number and provenance, and all three dates set to `now`.
pub fn classify_entry(
    content: &str,
    call_number: CallNumber,
    subject_headings: Vec<String>,
    task: Option<TaskId>,
    agent: Option<AgentId>,
    branch: Option<String>,
    tool: Option<String>,
    now: &str,
    max_subjects: usize,
) -> (c: Classification)
    ensures
        c@.subjects == classified_subjects(content@, views(subject_headings@), max_subjects as nat),
        c.call_number == call_number,
        c.source.task == task,
        c.source.agent == agent,
        c.source.branch == branch,
        c.source.tool == tool,
        c@.created == now@,
        c@.last_accessed == now@,
        c@.last_validated == now@,
{
    let mut enriched = subject_headings;
    enriched.truncate(max_subjects);
    assert(views(enriched@) =~= first_n(views(subject_headings@), max_subjects as nat));
    let ghost base = views(enriched@);
    let keywords = extract_keywords(content);
    let ghost kv = views(keywords@);
    let mut i: usize = 0;
    assert(kv.take(0) =~= Seq::<Seq<char>>::empty());
    while i < keywords.len()
        invariant
            i <= keywords@.len(),
            kv == views(keywords@),
            views(enriched@) == enrich(base, kv.take(i as int), max_subjects as nat),
        decreases keywords@.len() - i,
    {
        assert(kv.take(i + 1).drop_last() =~= kv.take(i as int));
        assert(kv.take(i + 1).last() == keywords@[i as int]@);
        if enriched.len() < max_subjects && !has_string_ignore_case(&enriched, keywords[i].as_str()) {
            let ghost before = views(enriched@);
            enriched.push(keywords[i].clone());
            assert(views(enriched@) =~= before.push(keywords@[i as int]@));
        }
        i = i + 1;
    }
    assert(kv.take(keywords@.len() as int) =~= kv);
    let ghost full = views(enriched@);
    enriched.truncate(max_subjects);
    assert(views(enriched@) =~= first_n(full, max_subjects as nat));
    Classification {
        subject_headings: enriched,
        call_number,
        source: SourceClassification { task, agent, branch, tool },
        temporal: TemporalClassification {
            created: now.to_owned(),
            last_accessed: now.to_owned(),
            last_validated: now.to_owned(),
        },
    }
}

/// Replace an entry's subjects (no more than the maximum) and call number
/// where new ones are given, and mark its classification checked `now`.
pub fn reclassify_entry(
    entry: &mut CatalogEntry,
    new_subjects: Option<Vec<String>>,
    new_call_number: Option<CallNumber>,
    now: &str,
    max_subjects: usize,
)
    ensures
        final(entry)@ == (EntryView {
            class: ClassView {
                subjects: match new_subjects {
                    Some(s) => first_n(views(s@), max_subjects as nat),
                    None => old(entry)@.class.subjects,
                },
                call_number: match new_call_number {
                    Some(n) => n@,
                    None => old(entry)@.class.call_number,
                },
                last_validated: now@,
                ..old(entry)@.class
            },
            ..old(entry)@
        }),
{
    match new_subjects {
        Some(subjects) => {
            let mut truncated = subjects;
            let ghost sv = views(truncated@);
            truncated.truncate(max_subjects);
            assert(views(truncated@) =~= first_n(sv, max_subjects as nat));
            entry.classification.subject_headings = truncated;
        },
        None => {},
    }
    match new_call_number {
        Some(cn) => {
            entry.classification.call_number = cn;
        },
        None => {},
    }
    entry.classification.temporal.last_validated = now.to_owned();
}

} // verus!
