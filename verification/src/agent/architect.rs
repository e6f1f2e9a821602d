//! The architect's judgements that need no memory scores: how complex a
//! task looks, which words look like file paths, and the files a task and
//! the contents of remembered entries point at.

use vstd::prelude::*;
use crate::memory::classification::{char_is_alphanumeric, is_alnum, utf8_len};
use crate::parse::{char_is_whitespace, is_ws};
use crate::text::{chars_of, contains, contains_str, contains_string, has_char, has_prefix, push_char, starts_with, string_of, views};
use super::{Complexity, TaskPlan};
use crate::text::{push_str};

verus! {

/// The words of a text: the maximal runs of non-white-space characters
/// (`str::split_whitespace`).
pub open spec fn words(s: Seq<char>) -> Seq<Seq<char>>
    decreases s.len(),
{
    if s.len() == 0 {
        Seq::empty()
    } else {
        let w = words(s.drop_last());
        let c = s.last();
        if is_ws(c) {
            w
        } else if s.len() >= 2 && !is_ws(s[s.len() - 2]) {
            w.update(w.len() - 1, w.last().push(c))
        } else {
            w.push(seq![c])
        }
    }
}

proof fn lemma_words_nonempty(s: Seq<char>)
    requires
        s.len() > 0,
        !is_ws(s.last()),
    ensures
        words(s).len() > 0,
        words(s).last().len() > 0,
    decreases s.len(),
{
    if s.len() >= 2 && !is_ws(s[s.len() - 2]) {
        assert(s.drop_last().last() == s[s.len() - 2]);
        lemma_words_nonempty(s.drop_last());
    }
}

/// Split a text into its words.
pub fn split_whitespace(s: &str) -> (r: Vec<String>)
    ensures
        views(r@) == words(s@),
{
    let v = chars_of(s);
    let mut out: Vec<String> = Vec::new();
    let mut cur: Vec<char> = Vec::new();
    let mut i: usize = 0;
    while i < v.len()
        invariant
            i <= v@.len(),
            v@ == s@,
            cur@.len() > 0 ==> i > 0 && !is_ws(v@[i - 1]),
            cur@.len() == 0 ==> views(out@) == words(v@.take(i as int)),
            cur@.len() > 0 ==> views(out@).push(cur@) == words(v@.take(i as int)),
            cur@.len() == 0 ==> i == 0 || is_ws(v@[i - 1]),
        decreases v@.len() - i,
    {
        let c = v[i];
        let ghost t = v@.take(i + 1);
        assert(t.drop_last() =~= v@.take(i as int));
        assert(t.last() == c);
        if char_is_whitespace(c) {
            if cur.len() > 0 {
                let w = string_of(&cur);
                let ghost before = views(out@);
                out.push(w);
                assert(views(out@) =~= before.push(cur@));
                cur = Vec::new();
            }
        } else {
            if cur.len() > 0 {
                assert(t[t.len() - 2] == v@[i - 1]);
            } else if i > 0 {
                assert(t[t.len() - 2] == v@[i - 1]);
            }
            let ghost before = cur@;
            let ghost ov = views(out@);
            cur.push(c);
            assert(cur@ == before.push(c));
            proof {
                if before.len() > 0 {
                    assert(ov.push(before).update(ov.len() as int, before.push(c)) =~= ov.push(cur@));
                } else {
                    assert(before.push(c) =~= seq![c]);
                }
            }
        }
        i = i + 1;
    }
    assert(v@.take(v@.len() as int) =~= v@);
    if cur.len() > 0 {
        let w = string_of(&cur);
        let ghost before = views(out@);
        out.push(w);
        assert(views(out@) =~= before.push(cur@));
    }
    out
}

/// Whether a task mentions cross-cutting work.
pub open spec fn cross_cutting(task: Seq<char>) -> bool {
    contains(task, "cross-repo"@) || contains(task, "coordination"@) || contains(task, "migration"@) || contains(task, "refactor"@)
}

/// Complex for cross-cutting work or a long task with little memory;
/// moderate for a medium task or few memories; else simple.
pub open spec fn complexity_of(task: Seq<char>, hits: nat) -> Complexity {
    let n = words(task).len();
    if cross_cutting(task) || (n > 50 && hits < 3) {
        Complexity::Complex
    } else if n > 20 || hits < 5 {
        Complexity::Moderate
    } else {
        Complexity::Simple
    }
}

/// How complex a task looks, from its words and the memories it matched.
pub fn estimate_complexity(task: &str, memory_hits: usize) -> (c: Complexity)
    ensures
        c == complexity_of(task@, memory_hits as nat),
{
    let n = split_whitespace(task).len();
    let cross = contains_str(task, "cross-repo") || contains_str(task, "coordination")
        || contains_str(task, "migration") || contains_str(task, "refactor");
    if cross || (n > 50 && memory_hits < 3) {
        Complexity::Complex
    } else if n > 20 || memory_hits < 5 {
        Complexity::Moderate
    } else {
        Complexity::Simple
    }
}

/// `s` without leading and trailing characters that satisfy `p`
/// (`str::trim_matches`).
pub open spec fn trim_by(s: Seq<char>, p: spec_fn(char) -> bool) -> Seq<char> {
    trim_back(trim_front(s, p), p)
}

/// `s` without leading characters that satisfy `p`.
pub open spec fn trim_front(s: Seq<char>, p: spec_fn(char) -> bool) -> Seq<char>
    decreases s.len(),
{
    if s.len() > 0 && p(s[0]) { trim_front(s.drop_first(), p) } else { s }
}

/// `s` without trailing characters that satisfy `p`.
pub open spec fn trim_back(s: Seq<char>, p: spec_fn(char) -> bool) -> Seq<char>
    decreases s.len(),
{
    if s.len() > 0 && p(s.last()) { trim_back(s.drop_last(), p) } else { s }
}

/// Quote marks and commas around a word.
pub open spec fn is_quote(c: char) -> bool {
    c == '`' || c == '\'' || c == '"' || c == ','
}

/// Characters that cannot be part of a path.
pub open spec fn not_path_char(c: char) -> bool {
    !is_alnum(c) && c != '/' && c != '.' && c != '_' && c != '-'
}

/// Characters a path may hold.
pub open spec fn path_char(c: char) -> bool {
    is_alnum(c) || c == '/' || c == '.' || c == '_' || c == ' ' || c == '-'
}

/// A word looks like a path: without quotes it has a slash or a dot, more
/// than three bytes, no URL or git remote prefix, and only path characters.
pub open spec fn path_like(word: Seq<char>) -> bool {
    let s = trim_by(word, |c: char| is_quote(c));
    &&& (s.contains('/') || s.contains('.'))
    &&& utf8_len(s) > 3
    &&& !starts_with(s, "http"@)
    &&& !starts_with(s, "git@"@)
    &&& forall|i: int| 0 <= i < s.len() ==> path_char(#[trigger] s[i])
}

/// A quote mark (or, with `quotes` false, a character no path holds).
fn strippable(c: char, quotes: bool) -> (r: bool)
    ensures
        r == (if quotes { is_quote(c) } else { not_path_char(c) }),
{
    if quotes {
        c == '`' || c == '\'' || c == '"' || c == ','
    } else {
        !char_is_alphanumeric(c) && c != '/' && c != '.' && c != '_' && c != '-'
    }
}

/// Strip the characters that satisfy a test from both ends.
fn trim_chars(s: &str, quotes: bool) -> (r: String)
    ensures
        quotes ==> r@ == trim_by(s@, |c: char| is_quote(c)),
        !quotes ==> r@ == trim_by(s@, |c: char| not_path_char(c)),
{
    let v = chars_of(s);
    let ghost p = if quotes { |c: char| is_quote(c) } else { |c: char| not_path_char(c) };
    let mut a: usize = 0;
    assert(v@.skip(0) =~= v@);
    while a < v.len() && strippable(v[a], quotes)
        invariant
            a <= v@.len(),
            v@ == s@,
            p == (if quotes { |c: char| is_quote(c) } else { |c: char| not_path_char(c) }),
            trim_front(v@.skip(a as int), p) == trim_front(v@, p),
        decreases v@.len() - a,
    {
        assert(v@.skip(a as int).drop_first() =~= v@.skip(a + 1));
        a = a + 1;
    }
    assert(trim_front(v@.skip(a as int), p) == v@.skip(a as int));
    let mut b: usize = v.len();
    while b > a && strippable(v[b - 1], quotes)
        invariant
            a <= b <= v@.len(),
            v@ == s@,
            p == (if quotes { |c: char| is_quote(c) } else { |c: char| not_path_char(c) }),
            trim_back(v@.subrange(a as int, b as int), p) == trim_by(v@, p),
        decreases b - a,
    {
        assert(v@.subrange(a as int, b as int).drop_last() =~= v@.subrange(a as int, b - 1));
        b = b - 1;
    }
    let r = crate::text::slice_chars(s, a, b);
    assert(trim_back(v@.subrange(a as int, b as int), p) == v@.subrange(a as int, b as int));
    r
}

/// Whether a text takes more than three bytes in UTF-8.
fn more_than_three_bytes(s: &str) -> (r: bool)
    ensures
        r == (utf8_len(s@) > 3),
{
    let v = chars_of(s);
    let mut n: u64 = 0;
    let mut i: usize = 0;
    while i < v.len() && n <= 3
        invariant
            i <= v@.len(),
            v@ == s@,
            n == utf8_len(v@.take(i as int)),
            n <= 7,
        decreases v@.len() - i,
    {
        let c = v[i] as u32;
        let w: u64 = if c < 0x80 { 1 } else if c < 0x800 { 2 } else if c < 0x10000 { 3 } else { 4 };
        assert(v@.take(i + 1).drop_last() =~= v@.take(i as int));
        n = n + w;
        i = i + 1;
    }
    proof {
        crate::memory::classification::lemma_utf8_prefix(v@, i as int);
        if i == v@.len() {
            assert(v@.take(i as int) =~= v@);
        }
    }
    n > 3
}

/// Whether every character may be part of a path.
fn all_path_chars(s: &str) -> (r: bool)
    ensures
        r == forall|i: int| 0 <= i < s@.len() ==> path_char(#[trigger] s@[i]),
{
    let v = chars_of(s);
    let mut i: usize = 0;
    while i < v.len()
        invariant
            i <= v@.len(),
            v@ == s@,
            forall|j: int| 0 <= j < i ==> path_char(#[trigger] s@[j]),
        decreases v@.len() - i,
    {
        let c = v[i];
        if !(char_is_alphanumeric(c) || c == '/' || c == '.' || c == '_' || c == ' ' || c == '-') {
            assert(!path_char(s@[i as int]));
            return false;
        }
        i = i + 1;
    }
    true
}

/// Whether a word looks like a file path.
pub fn looks_like_path(s: &str) -> (r: bool)
    ensures
        r == path_like(s@),
{
    let t = trim_chars(s, true);
    let ts = t.as_str();
    let has_sep = has_char(ts, '/') || has_char(ts, '.');
    proof {
        reveal_strlit("http");
        reveal_strlit("git@");
    }
    has_sep && more_than_three_bytes(ts) && !has_prefix(ts, "http") && !has_prefix(ts, "git@") && all_path_chars(ts)
}

/// A path word with the characters no path holds stripped from its ends.
pub open spec fn cleaned(w: Seq<char>) -> Seq<char> {
    trim_by(w, |c: char| not_path_char(c))
}

/// The cleaned path words of `ws`, each once, in order.
pub open spec fn likely_files(ws: Seq<Seq<char>>) -> Seq<Seq<char>>
    decreases ws.len(),
{
    if ws.len() == 0 {
        Seq::empty()
    } else {
        let r = likely_files(ws.drop_last());
        let w = ws.last();
        if path_like(w) && !r.contains(cleaned(w)) { r.push(cleaned(w)) } else { r }
    }
}

/// The words of the texts, text after text.
pub open spec fn words_of_all(texts: Seq<Seq<char>>) -> Seq<Seq<char>>
    decreases texts.len(),
{
    if texts.len() == 0 { Seq::empty() } else { words_of_all(texts.drop_last()) + words(texts.last()) }
}

/// Add the path words of a text to `files` (with `seen` words so far).
fn add_paths(text: &str, files: &mut Vec<String>, Ghost(seen): Ghost<Seq<Seq<char>>>)
    requires
        views(old(files)@) == likely_files(seen),
    ensures
        views(final(files)@) == likely_files(seen + words(text@)),
{
    let ws = split_whitespace(text);
    let ghost wv = views(ws@);
    let mut i: usize = 0;
    assert(seen + wv.take(0) =~= seen);
    while i < ws.len()
        invariant
            i <= ws@.len(),
            wv == views(ws@),
            wv == words(text@),
            views(files@) == likely_files(seen + wv.take(i as int)),
        decreases ws@.len() - i,
    {
        let w = ws[i].as_str();
        let ghost before = views(files@);
        assert((seen + wv.take(i + 1)).drop_last() =~= seen + wv.take(i as int));
        assert((seen + wv.take(i + 1)).last() == w@);
        if looks_like_path(w) {
            let clean = trim_chars(w, false);
            if !contains_string(files, &clean) {
                let ghost cv = clean@;
                files.push(clean);
                assert(views(files@) =~= before.push(cv));
            }
        }
        i = i + 1;
    }
    assert(wv.take(ws@.len() as int) =~= wv);
}

/// The files a task and the first ten remembered contents point at: each
/// word that looks like a path, cleaned of surrounding punctuation, once.
pub fn extract_likely_files(task: &str, memory_contents: &Vec<String>) -> (files: Vec<String>)
    ensures
        views(files@) == likely_files(words(task@) + words_of_all(crate::memory::call_number::first_n(views(memory_contents@), 10))),
{
    let mut files: Vec<String> = Vec::new();
    assert(views(files@) =~= likely_files(Seq::<Seq<char>>::empty()));
    assert(Seq::<Seq<char>>::empty() + words(task@) =~= words(task@));
    add_paths(task, &mut files, Ghost(Seq::empty()));
    let ghost mv = views(memory_contents@);
    let n = if memory_contents.len() < 10 { memory_contents.len() } else { 10 };
    let mut i: usize = 0;
    assert(words(task@) + words_of_all(mv.take(0)) =~= words(task@));
    while i < n
        invariant
            i <= n,
            n <= memory_contents@.len(),
            mv == views(memory_contents@),
            views(files@) == likely_files(words(task@) + words_of_all(mv.take(i as int))),
        decreases n - i,
    {
        let ghost seen = words(task@) + words_of_all(mv.take(i as int));
        add_paths(memory_contents[i].as_str(), &mut files, Ghost(seen));
        proof {
            assert(mv.take(i + 1).drop_last() =~= mv.take(i as int));
            assert(mv.take(i + 1).last() == memory_contents@[i as int]@);
            assert(seen + words(memory_contents@[i as int]@) =~= words(task@) + words_of_all(mv.take(i + 1)));
        }
        i = i + 1;
    }
    proof {
        let f = crate::memory::call_number::first_n(mv, 10);
        assert(mv.take(n as int) =~= f);
    }
    files
}

/// Tokens a task of a complexity is expected to take.
pub open spec fn tokens_for(c: Complexity) -> u64 {
    match c {
        Complexity::Simple => 4000,
        Complexity::Moderate => 12000,
        Complexity::Complex => 24000,
    }
}

/// The approach when memory holds nothing relevant.
pub open spec fn greenfield_text(task: Seq<char>) -> Seq<char> {
    "Task: "@ + task + "\n\nNo prior context found -- greenfield implementation."@
}

/// The architect agent.
pub struct Architect;

impl Architect {
    /// Tokens a task of a complexity is expected to take.
    pub fn token_estimate(c: Complexity) -> (t: u64)
        ensures
            t == tokens_for(c),
    {
        match c {
            Complexity::Simple => 4000,
            Complexity::Moderate => 12000,
            Complexity::Complex => 24000,
        }
    }

    /// The approach for a task with no relevant memory.
    pub fn greenfield_approach(task: &str) -> (a: String)
        ensures
            a@ == greenfield_text(task@),
    {
        let mut a = String::new();
        push_str(&mut a, "Task: ");
        push_str(&mut a, task);
        push_str(&mut a, "\n\nNo prior context found -- greenfield implementation.");
        proof {
            reveal_strlit("Task: ");
            reveal_strlit("\n\nNo prior context found -- greenfield implementation.");
            reveal_strlit("");
        }
        a
    }

    /// The plan for a task given the contents of the memories retrieved for
    /// it (best first) and the approach written from them: complexity from
    /// the task and the number of memories, files from the task and the
    /// first ten memories, tokens from the complexity.
    pub fn plan_from(task: &str, memory_contents: &Vec<String>, approach: String) -> (p: TaskPlan)
        ensures
            p.complexity == complexity_of(task@, memory_contents@.len()),
            views(p.files@) == likely_files(words(task@) + words_of_all(crate::memory::call_number::first_n(views(memory_contents@), 10))),
            p.estimated_tokens == tokens_for(p.complexity),
            p.approach == approach,
    {
        let complexity = estimate_complexity(task, memory_contents.len());
        let files = extract_likely_files(task, memory_contents);
        let estimated_tokens = Architect::token_estimate(complexity);
        TaskPlan { approach, files, complexity, estimated_tokens }
    }

    /// The plan for a task when memory holds nothing relevant.
    pub fn plan_without_memory(task: &str) -> (p: TaskPlan)
        ensures
            p.complexity == complexity_of(task@, 0),
            views(p.files@) == likely_files(words(task@)),
            p.estimated_tokens == tokens_for(p.complexity),
            p.approach@ == greenfield_text(task@),
    {
        let none: Vec<String> = Vec::new();
        let approach = Architect::greenfield_approach(task);
        let p = Architect::plan_from(task, &none, approach);
        proof {
            let f = crate::memory::call_number::first_n(views(none@), 10);
            assert(f =~= Seq::<Seq<char>>::empty());
            assert(words(task@) + words_of_all(f) =~= words(task@));
        }
        p
    }
}

} // verus!
