//! Keyword extraction for subject headings: the words of a text, lower
//! cased, without stop words and very short words, each once, at most ten.

use vstd::prelude::*;
use crate::ids::{AgentId, EntryId};
use crate::catalog::classification::enrich;
use crate::memory::call_number::{call_number_from_path, first_n, path_segments, CallNumber};
use crate::memory::entry::{subjects_of, Classification, MemoryEntry, MemoryState};
use crate::parse::split;
use crate::text::has_string_ignore_case;
use crate::text::{chars_of, contains_string, push_char, str_eq, views};
use crate::vocab::{lower, to_lower};

verus! {

/// What `char::is_alphanumeric` says of a character.
pub uninterp spec fn is_alnum(c: char) -> bool;

/// Whether a character is alphanumeric (`char::is_alphanumeric`).
#[verifier::external_body]
pub(crate) fn char_is_alphanumeric(c: char) -> (r: bool)
    ensures
        r == is_alnum(c),
{
    c.is_alphanumeric()
}

/// A character that separates words: anything but letters, digits, `-`
/// and `_`.
pub open spec fn separates(c: char) -> bool {
    !is_alnum(c) && c != '-' && c != '_'
}

/// The pieces between separators (`str::split` with a predicate): one more
/// than there are separators, empty pieces included.
pub open spec fn pieces(s: Seq<char>) -> Seq<Seq<char>>
    decreases s.len(),
{
    if s.len() == 0 {
        seq![Seq::empty()]
    } else {
        let p = pieces(s.drop_last());
        if separates(s.last()) {
            p.push(Seq::empty())
        } else {
            p.update(p.len() - 1, p.last().push(s.last()))
        }
    }
}

proof fn lemma_pieces_nonempty(s: Seq<char>)
    ensures
        pieces(s).len() >= 1,
    decreases s.len(),
{
    if s.len() > 0 {
        lemma_pieces_nonempty(s.drop_last());
    }
}

/// The number of bytes a character takes in UTF-8.
pub open spec fn utf8_width(c: char) -> nat {
    if (c as u32) < 0x80 { 1 } else if (c as u32) < 0x800 { 2 } else if (c as u32) < 0x10000 { 3 } else { 4 }
}

/// The number of bytes a text takes in UTF-8 (`str::len`).
pub open spec fn utf8_len(s: Seq<char>) -> nat
    decreases s.len(),
{
    if s.len() == 0 { 0 } else { utf8_len(s.drop_last()) + utf8_width(s.last()) }
}

/// The words never used as keywords.
pub open spec fn is_stop_word(w: Seq<char>) -> bool {
    ||| w == "the"@ ||| w == "a"@ ||| w == "an"@ ||| w == "is"@ ||| w == "are"@ ||| w == "was"@
    ||| w == "were"@ ||| w == "be"@ ||| w == "been"@ ||| w == "being"@ ||| w == "have"@ ||| w == "has"@
    ||| w == "had"@ ||| w == "do"@ ||| w == "does"@ ||| w == "did"@ ||| w == "will"@ ||| w == "would"@
    ||| w == "could"@ ||| w == "should"@ ||| w == "may"@ ||| w == "might"@ ||| w == "shall"@
    ||| w == "can"@ ||| w == "need"@ ||| w == "dare"@ ||| w == "ought"@ ||| w == "used"@ ||| w == "to"@
    ||| w == "of"@ ||| w == "in"@ ||| w == "for"@ ||| w == "on"@ ||| w == "with"@ ||| w == "at"@
    ||| w == "by"@ ||| w == "from"@ ||| w == "as"@ ||| w == "into"@ ||| w == "through"@ ||| w == "during"@
    ||| w == "before"@ ||| w == "after"@ ||| w == "above"@ ||| w == "below"@
    ||| w == "between"@ ||| w == "out"@ ||| w == "off"@ ||| w == "over"@ ||| w == "under"@ ||| w == "again"@
    ||| w == "further"@ ||| w == "then"@ ||| w == "once"@ ||| w == "and"@
    ||| w == "but"@ ||| w == "or"@ ||| w == "nor"@ ||| w == "not"@ ||| w == "so"@ ||| w == "yet"@
    ||| w == "both"@ ||| w == "either"@ ||| w == "neither"@ ||| w == "each"@ ||| w == "every"@
    ||| w == "all"@ ||| w == "any"@ ||| w == "few"@ ||| w == "more"@ ||| w == "most"@ ||| w == "other"@
    ||| w == "some"@ ||| w == "such"@ ||| w == "no"@ ||| w == "only"@ ||| w == "own"@
    ||| w == "same"@ ||| w == "than"@ ||| w == "too"@ ||| w == "very"@ ||| w == "just"@ ||| w == "because"@
    ||| w == "if"@ ||| w == "when"@ ||| w == "while"@ ||| w == "this"@ ||| w == "that"@
    ||| w == "these"@ ||| w == "those"@ ||| w == "it"@ ||| w == "its"@
}

/// Whether a word is a stop word.
pub fn stop_word(w: &str) -> (r: bool)
    ensures
        r == is_stop_word(w@),
{
    str_eq(w, "the") || str_eq(w, "a") || str_eq(w, "an") || str_eq(w, "is") || str_eq(w, "are") || str_eq(w, "was")
    || str_eq(w, "were") || str_eq(w, "be") || str_eq(w, "been") || str_eq(w, "being") || str_eq(w, "have") || str_eq(w, "has")
    || str_eq(w, "had") || str_eq(w, "do") || str_eq(w, "does") || str_eq(w, "did") || str_eq(w, "will") || str_eq(w, "would")
    || str_eq(w, "could") || str_eq(w, "should") || str_eq(w, "may") || str_eq(w, "might") || str_eq(w, "shall")
    || str_eq(w, "can") || str_eq(w, "need") || str_eq(w, "dare") || str_eq(w, "ought") || str_eq(w, "used") || str_eq(w, "to")
    || str_eq(w, "of") || str_eq(w, "in") || str_eq(w, "for") || str_eq(w, "on") || str_eq(w, "with") || str_eq(w, "at")
    || str_eq(w, "by") || str_eq(w, "from") || str_eq(w, "as") || str_eq(w, "into") || str_eq(w, "through") || str_eq(w, "during")
    || str_eq(w, "before") || str_eq(w, "after") || str_eq(w, "above") || str_eq(w, "below")
    || str_eq(w, "between") || str_eq(w, "out") || str_eq(w, "off") || str_eq(w, "over") || str_eq(w, "under") || str_eq(w, "again")
    || str_eq(w, "further") || str_eq(w, "then") || str_eq(w, "once") || str_eq(w, "and")
    || str_eq(w, "but") || str_eq(w, "or") || str_eq(w, "nor") || str_eq(w, "not") || str_eq(w, "so") || str_eq(w, "yet")
    || str_eq(w, "both") || str_eq(w, "either") || str_eq(w, "neither") || str_eq(w, "each") || str_eq(w, "every")
    || str_eq(w, "all") || str_eq(w, "any") || str_eq(w, "few") || str_eq(w, "more") || str_eq(w, "most") || str_eq(w, "other")
    || str_eq(w, "some") || str_eq(w, "such") || str_eq(w, "no") || str_eq(w, "only") || str_eq(w, "own")
    || str_eq(w, "same") || str_eq(w, "than") || str_eq(w, "too") || str_eq(w, "very") || str_eq(w, "just") || str_eq(w, "because")
    || str_eq(w, "if") || str_eq(w, "when") || str_eq(w, "while") || str_eq(w, "this") || str_eq(w, "that")
    || str_eq(w, "these") || str_eq(w, "those") || str_eq(w, "it") || str_eq(w, "its")
}

/// The keywords of the pieces: each lower-cased piece of at least three
/// bytes that is no stop word, first occurrences only.
pub open spec fn keywords_of(ps: Seq<Seq<char>>) -> Seq<Seq<char>>
    decreases ps.len(),
{
    if ps.len() == 0 {
        Seq::empty()
    } else {
        let k = keywords_of(ps.drop_last());
        let l = lower(ps.last());
        if utf8_len(l) < 3 || is_stop_word(l) || k.contains(l) { k } else { k.push(l) }
    }
}

/// A prefix takes no more bytes than the whole.
pub proof fn lemma_utf8_prefix(s: Seq<char>, i: int)
    requires
        0 <= i <= s.len(),
    ensures
        utf8_len(s.take(i)) <= utf8_len(s),
    decreases s.len() - i,
{
    if i < s.len() {
        lemma_utf8_prefix(s, i + 1);
        assert(s.take(i + 1).drop_last() =~= s.take(i));
    } else {
        assert(s.take(i) =~= s);
    }
}

/// Whether a text takes at least three bytes in UTF-8.
fn three_bytes_or_more(s: &str) -> (r: bool)
    ensures
        r == (utf8_len(s@) >= 3),
{
    let v = chars_of(s);
    let mut n: usize = 0;
    let mut i: usize = 0;
    while i < v.len() && n < 3
        invariant
            i <= v@.len(),
            v@ == s@,
            n == utf8_len(v@.take(i as int)),
            n < 7,
        decreases v@.len() - i,
    {
        let c = v[i] as u32;
        let w: usize = if c < 0x80 { 1 } else if c < 0x800 { 2 } else if c < 0x10000 { 3 } else { 4 };
        assert(v@.take(i + 1).drop_last() =~= v@.take(i as int));
        n = n + w;
        i = i + 1;
    }
    proof {
        lemma_utf8_prefix(v@, i as int);
        if i == v@.len() {
            assert(v@.take(i as int) =~= v@);
        }
    }
    n >= 3
}

/// The pieces of a text between separator characters.
fn split_words(s: &str) -> (r: Vec<String>)
    ensures
        views(r@) == pieces(s@),
{
    let v = chars_of(s);
    let mut out: Vec<String> = Vec::new();
    let mut cur = String::new();
    let mut i: usize = 0;
    proof {
        reveal_strlit("");
        assert(v@.take(0) =~= Seq::<char>::empty());
    }
    while i < v.len()
        invariant
            i <= v@.len(),
            v@ == s@,
            views(out@).push(cur@) == pieces(v@.take(i as int)),
        decreases v@.len() - i,
    {
        let c = v[i];
        let ghost before = views(out@);
        let ghost cv = cur@;
        assert(v@.take(i + 1).drop_last() =~= v@.take(i as int));
        assert(v@.take(i + 1).last() == c);
        if !char_is_alphanumeric(c) && c != '-' && c != '_' {
            out.push(cur);
            cur = String::new();
            assert(views(out@) =~= before.push(cv));
            assert(views(out@).push(cur@) =~= before.push(cv).push(Seq::<char>::empty()));
        } else {
            push_char(&mut cur, c);
            assert(views(out@).push(cur@) =~= before.push(cv).update(before.len() as int, cv.push(c)));
        }
        i = i + 1;
    }
    assert(v@.take(v@.len() as int) =~= v@);
    let ghost before = views(out@);
    let ghost cv = cur@;
    out.push(cur);
    assert(views(out@) =~= before.push(cv));
    out
}

/// The keywords of a text: lower-cased words of at least three bytes that
/// are not stop words, each once, the first ten.
pub fn extract_keywords(content: &str) -> (r: Vec<String>)
    ensures
        views(r@) == first_n(keywords_of(pieces(content@)), 10),
{
    let ps = split_words(content);
    let ghost pv = views(ps@);
    let mut keywords: Vec<String> = Vec::new();
    let mut i: usize = 0;
    while i < ps.len()
        invariant
            i <= ps@.len(),
            pv == views(ps@),
            views(keywords@) == keywords_of(pv.take(i as int)),
        decreases ps@.len() - i,
    {
        let lower = to_lower(ps[i].as_str());
        let ghost before = views(keywords@);
        assert(pv.take(i + 1).drop_last() =~= pv.take(i as int));
        assert(pv.take(i + 1).last() == ps@[i as int]@);
        if three_bytes_or_more(lower.as_str()) && !stop_word(lower.as_str()) && !contains_string(&keywords, &lower) {
            let ghost lv = lower@;
            keywords.push(lower);
            assert(views(keywords@) =~= before.push(lv));
        }
        i = i + 1;
    }
    assert(pv.take(ps@.len() as int) =~= pv);
    keywords.truncate(10);
    proof {
        let k = keywords_of(pv);
        if 10 < k.len() {
            assert(views(keywords@) =~= k.take(10));
        } else {
            assert(views(keywords@) =~= k);
        }
    }
    keywords
}

/// Add the content's keywords to an entry's subject headings while there
/// is room, each unless a heading already equals it ignoring ASCII case;
/// then keep no more than the maximum.
pub fn auto_classify<S>(entry: &mut MemoryEntry<S>, max_subjects: usize)
    ensures
        subjects_of(*final(entry)) == first_n(
            enrich(subjects_of(*old(entry)), first_n(keywords_of(pieces(old(entry).content@)), 10), max_subjects as nat),
            max_subjects as nat,
        ),
        *final(entry) == (MemoryEntry {
            classification: Classification {
                subject_headings: final(entry).classification.subject_headings,
                ..old(entry).classification
            },
            ..*old(entry)
        }),
{
    let keywords = extract_keywords(entry.content.as_str());
    let ghost kv = views(keywords@);
    let ghost base = subjects_of(*entry);
    let mut subjects = Vec::new();
    std::mem::swap(&mut subjects, &mut entry.classification.subject_headings);
    let mut i: usize = 0;
    assert(kv.take(0) =~= Seq::<Seq<char>>::empty());
    while i < keywords.len()
        invariant
            i <= keywords@.len(),
            kv == views(keywords@),
            views(subjects@) == enrich(base, kv.take(i as int), max_subjects as nat),
        decreases keywords@.len() - i,
    {
        assert(kv.take(i + 1).drop_last() =~= kv.take(i as int));
        assert(kv.take(i + 1).last() == keywords@[i as int]@);
        if subjects.len() < max_subjects && !has_string_ignore_case(&subjects, keywords[i].as_str()) {
            let ghost before = views(subjects@);
            subjects.push(keywords[i].clone());
            assert(views(subjects@) =~= before.push(keywords@[i as int]@));
        }
        i = i + 1;
    }
    assert(kv.take(keywords@.len() as int) =~= kv);
    let ghost full = views(subjects@);
    subjects.truncate(max_subjects);
    assert(views(subjects@) =~= first_n(full, max_subjects as nat));
    entry.classification.subject_headings = subjects;
}

/// Give an entry the call number of a file path.
pub fn classify_by_path<S>(entry: &mut MemoryEntry<S>, path: &str, max_depth: usize)
    ensures
        final(entry).classification.call_number@ == first_n(path_segments(split(path@, seq!['/'])), max_depth as nat),
        *final(entry) == (MemoryEntry {
            classification: Classification {
                call_number: final(entry).classification.call_number,
                ..old(entry).classification
            },
            ..*old(entry)
        }),
{
    entry.classification.call_number = call_number_from_path(path, max_depth);
}

/// Replace an entry's subjects (no more than the maximum) and call number
/// where new ones are given.
pub fn reclassify<S>(
    entry: &mut MemoryEntry<S>,
    new_subjects: Option<Vec<String>>,
    new_call_number: Option<CallNumber>,
    max_subjects: usize,
)
    ensures
        subjects_of(*final(entry)) == (match new_subjects {
            Some(s) => first_n(views(s@), max_subjects as nat),
            None => subjects_of(*old(entry)),
        }),
        final(entry).classification.call_number == (match new_call_number {
            Some(n) => n,
            None => old(entry).classification.call_number,
        }),
        *final(entry) == (MemoryEntry {
            classification: Classification {
                subject_headings: final(entry).classification.subject_headings,
                call_number: final(entry).classification.call_number,
                ..old(entry).classification
            },
            ..*old(entry)
        }),
{
    match new_subjects {
        Some(subjects) => {
            let mut truncated = subjects;
            let ghost sv = views(truncated@);
            truncated.truncate(max_subjects);
            assert(views(truncated@) =~= first_n(sv, max_subjects as nat));
            entry.classification.subject_headings = truncated;
        },
        None => {},
    }
    match new_call_number {
        Some(cn) => {
            entry.classification.call_number = cn;
        },
        None => {},
    }
}

/// A new alive entry with the given content, classification and survival
/// metadata, made and last accessed `now`, with no links, motifs,
/// tensions, citations or accesses.
pub fn create_classified_entry<S>(
    id: &str,
    agent: &str,
    content: String,
    call_number: CallNumber,
    subject_headings: Vec<String>,
    now: &str,
    survival: S,
) -> (e: MemoryEntry<S>)
    ensures
        e.id@ == id@,
        e.agent@ == agent@,
        e.content == content,
        e.created_at@ == now@,
        e.last_accessed@ == now@,
        e.classification == (Classification { subject_headings, call_number, controlled_vocab: false }),
        e.see_also@.len() == 0,
        e.motifs@.len() == 0,
        e.tension_refs@.len() == 0,
        e.survival == survival,
        e.state == MemoryState::Alive,
        e.consensus_citations == 0,
        e.access_count == 0,
        e.source_commit is None,
{
    MemoryEntry {
        id: EntryId(id.to_owned()),
        agent: AgentId(agent.to_owned()),
        content,
        created_at: now.to_owned(),
        last_accessed: now.to_owned(),
        classification: Classification { subject_headings, call_number, controlled_vocab: false },
        see_also: Vec::new(),
        motifs: Vec::new(),
        tension_refs: Vec::new(),
        survival,
        state: MemoryState::Alive,
        consensus_citations: 0,
        access_count: 0,
        source_commit: None,
    }
}

} // verus!
