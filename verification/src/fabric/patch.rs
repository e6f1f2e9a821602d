//! Unified diffs: generating them from file changes, and checking and
//! summarising patch text.

use vstd::prelude::*;
use crate::parse::trim_str;
use crate::text::{
    contains, contains_str, dec, dec_string, has_prefix, lemma_lt_connected, lemma_lt_transitive, push_char, push_str,
    seq_lt, slice_chars, starts_with, str_eq, str_lt, views,
};
use crate::manifest::entry::add_missing;
use super::diff::{Edit, EditKind, EditView, edit_script, edit_views, lines_of, script, text_lines};

verus! {

/// A file added, deleted or modified.
#[derive(Debug, PartialEq, Eq)]
pub struct FileChange {
    pub path: String,
    pub old_content: Option<String>,
    pub new_content: Option<String>,
}

/// The view of an optional text.
pub open spec fn otext(o: Option<String>) -> Option<Seq<char>> {
    match o {
        Some(s) => Some(s@),
        None => None,
    }
}

/// The plain content of a change.
pub struct ChangeView {
    pub path: Seq<char>,
    pub old: Option<Seq<char>>,
    pub new: Option<Seq<char>>,
}

/// The view of a change.
pub open spec fn change_view(c: FileChange) -> ChangeView {
    ChangeView { path: c.path@, old: otext(c.old_content), new: otext(c.new_content) }
}

impl FileChange {
    /// A new file.
    pub fn addition(path: &str, content: &str) -> (c: Self)
        ensures
            change_view(c) == (ChangeView { path: path@, old: None, new: Some(content@) }),
    {
        FileChange { path: path.to_owned(), old_content: None, new_content: Some(content.to_owned()) }
    }

    /// A deleted file.
    pub fn deletion(path: &str, content: &str) -> (c: Self)
        ensures
            change_view(c) == (ChangeView { path: path@, old: Some(content@), new: None }),
    {
        FileChange { path: path.to_owned(), old_content: Some(content.to_owned()), new_content: None }
    }

    /// A modified file.
    pub fn modification(path: &str, old: &str, new: &str) -> (c: Self)
        ensures
            change_view(c) == (ChangeView { path: path@, old: Some(old@), new: Some(new@) }),
    {
        FileChange { path: path.to_owned(), old_content: Some(old.to_owned()), new_content: Some(new.to_owned()) }
    }
}

/// Lines a sequence of edits spans in the old text.
pub open spec fn old_span(s: Seq<EditView>) -> nat {
    s.filter(|e: EditView| e.kind != EditKind::Insert).len()
}

/// Lines a sequence of edits spans in the new text.
pub open spec fn new_span(s: Seq<EditView>) -> nat {
    s.filter(|e: EditView| e.kind != EditKind::Delete).len()
}

/// The position of the first change of a group.
pub open spec fn first_change(es: Seq<EditView>) -> Option<int>
    decreases es.len(),
{
    if es.len() == 0 {
        None
    } else {
        match first_change(es.drop_last()) {
            Some(k) => Some(k),
            None => if es.last().kind != EditKind::Equal { Some(es.len() - 1) } else { None },
        }
    }
}

/// The position of the last change of a group.
pub open spec fn last_change(es: Seq<EditView>) -> Option<int>
    decreases es.len(),
{
    if es.len() == 0 {
        None
    } else if es.last().kind != EditKind::Equal {
        Some(es.len() - 1)
    } else {
        last_change(es.drop_last())
    }
}

/// The marker of an edit in a hunk.
pub open spec fn marker(k: EditKind) -> char {
    match k {
        EditKind::Equal => ' ',
        EditKind::Delete => '-',
        EditKind::Insert => '+',
    }
}

/// The hunk lines of edits, each with its marker.
pub open spec fn hunk_body(s: Seq<EditView>) -> Seq<char>
    decreases s.len(),
{
    if s.len() == 0 {
        Seq::empty()
    } else {
        hunk_body(s.drop_last()).push(marker(s.last().kind)) + s.last().line + seq!['\n']
    }
}

/// A hunk of a group of edits that follows `old_off` old and `new_off` new
/// lines of the file: the changes with up to `context` kept lines around them,
/// under a header giving the line where they start in each file (counted from
/// 1) and how many lines they span.
pub open spec fn hunk_text(es: Seq<EditView>, context: nat, old_off: nat, new_off: nat) -> Seq<char> {
    let first: int = match first_change(es) { Some(k) => k, None => 0 };
    let last: int = match last_change(es) { Some(k) => k, None => if es.len() > 0 { es.len() - 1 } else { 0 } };
    let start: int = if first >= context { first - context } else { 0 };
    let end: int = if last + context + 1 <= es.len() { last + context + 1 } else { es.len() as int };
    let trimmed = es.subrange(start, end);
    let before = es.take(start);
    "@@ -"@ + dec(old_off + 1 + old_span(before)) + ","@ + dec(old_span(trimmed)) + " +"@ + dec(new_off + 1 + new_span(before)) + ","@
        + dec(new_span(trimmed)) + " @@\n"@ + hunk_body(trimmed)
}

/// Where grouping edits into hunks stands.
pub struct Grouping {
    pub hunks: Seq<Seq<char>>,
    pub current: Seq<EditView>,
    pub last: Option<int>,
    pub start: nat,
}

/// The hunk of the group of `es` that begins at `start`.
pub open spec fn group_hunk(es: Seq<EditView>, group: Seq<EditView>, context: nat, start: nat) -> Seq<char> {
    hunk_text(group, context, old_span(es.take(start as int)), new_span(es.take(start as int)))
}

/// Grouping after the first `k` edits: a kept line more than twice the
/// context after the last change closes the current group.
pub open spec fn grouping(es: Seq<EditView>, context: nat, k: nat) -> Grouping
    decreases k,
{
    if k == 0 {
        Grouping { hunks: Seq::empty(), current: Seq::empty(), last: None, start: 0 }
    } else {
        let g = grouping(es, context, (k - 1) as nat);
        let i = k - 1;
        let e = es[i];
        if e.kind == EditKind::Equal {
            let close = match g.last { Some(l) => i - l > 2 * context && g.current.len() > 0, None => false };
            if close {
                Grouping {
                    hunks: g.hunks.push(group_hunk(es, g.current, context, g.start)),
                    current: seq![e],
                    last: g.last,
                    start: i as nat,
                }
            } else {
                Grouping { current: g.current.push(e), ..g }
            }
        } else {
            Grouping { current: g.current.push(e), last: Some(i), ..g }
        }
    }
}

/// The hunks of an edit script.
pub open spec fn hunks_of(es: Seq<EditView>, context: nat) -> Seq<Seq<char>> {
    let g = grouping(es, context, es.len());
    if g.current.len() > 0 { g.hunks.push(group_hunk(es, g.current, context, g.start)) } else { g.hunks }
}

/// The texts joined end to end.
pub open spec fn concat(s: Seq<Seq<char>>) -> Seq<char>
    decreases s.len(),
{
    if s.len() == 0 { Seq::empty() } else { concat(s.drop_last()) + s.last() }
}

proof fn lemma_first_change_bound(es: Seq<EditView>)
    ensures
        match first_change(es) { Some(k) => 0 <= k < es.len() && es[k].kind != EditKind::Equal && forall|j: int| 0 <= j < k ==> es[j].kind == EditKind::Equal, None => forall|j: int| 0 <= j < es.len() ==> es[j].kind == EditKind::Equal },
    decreases es.len(),
{
    if es.len() > 0 {
        let d = es.drop_last();
        lemma_first_change_bound(d);
        assert forall|j: int| 0 <= j < d.len() implies d[j] == es[j] by {}
        match first_change(d) {
            Some(k) => {
                assert(d[k] == es[k]);
                assert forall|j: int| 0 <= j < k implies es[j].kind == EditKind::Equal by {
                    assert(d[j] == es[j]);
                }
            },
            None => {
                assert forall|j: int| 0 <= j < d.len() implies es[j].kind == EditKind::Equal by {
                    assert(d[j] == es[j]);
                }
            },
        }
    }
}

proof fn lemma_last_change_bound(es: Seq<EditView>)
    ensures
        match last_change(es) { Some(k) => 0 <= k < es.len() && es[k].kind != EditKind::Equal && forall|j: int| k < j < es.len() ==> es[j].kind == EditKind::Equal, None => forall|j: int| 0 <= j < es.len() ==> es[j].kind == EditKind::Equal },
    decreases es.len(),
{
    if es.len() > 0 && es.last().kind == EditKind::Equal {
        let d = es.drop_last();
        lemma_last_change_bound(d);
        match last_change(d) {
            Some(k) => {
                assert(d[k] == es[k]);
                assert forall|j: int| k < j < es.len() implies es[j].kind == EditKind::Equal by {
                    if j < d.len() { assert(d[j] == es[j]); }
                }
            },
            None => {
                assert forall|j: int| 0 <= j < es.len() implies es[j].kind == EditKind::Equal by {
                    if j < d.len() { assert(d[j] == es[j]); }
                }
            },
        }
    }
}

/// Count the old and new lines of `es[from..to]`.
fn spans(es: &Vec<Edit>, from: usize, to: usize) -> (r: (u64, u64))
    requires
        from <= to <= es@.len(),
        es@.len() < u32::MAX,
    ensures
        r.0 == old_span(edit_views(es@).subrange(from as int, to as int)),
        r.1 == new_span(edit_views(es@).subrange(from as int, to as int)),
        r.0 <= to - from,
        r.1 <= to - from,
{
    let ghost ev = edit_views(es@);
    let mut o: u64 = 0;
    let mut n: u64 = 0;
    let mut i: usize = from;
    while i < to
        invariant
            from <= i <= to,
            to <= es@.len(),
            es@.len() < u32::MAX,
            ev == edit_views(es@),
            o == old_span(ev.subrange(from as int, i as int)),
            n == new_span(ev.subrange(from as int, i as int)),
            o <= i - from,
            n <= i - from,
        decreases to - i,
    {
        proof {
            reveal_with_fuel(Seq::filter, 1);
            assert(ev.subrange(from as int, i + 1).drop_last() =~= ev.subrange(from as int, i as int));
        }
        match es[i].kind {
            EditKind::Equal => {
                o = o + 1;
                n = n + 1;
            },
            EditKind::Delete => {
                o = o + 1;
            },
            EditKind::Insert => {
                n = n + 1;
            },
        }
        i = i + 1;
    }
    (o, n)
}

/// Format a group of edits, which follows `old_off` old and `new_off` new
/// lines of the file, as a hunk.
fn format_hunk(es: &Vec<Edit>, context: usize, old_off: u64, new_off: u64) -> (h: String)
    requires
        es@.len() < u32::MAX,
        context <= usize::MAX / 4,
        old_off < u32::MAX,
        new_off < u32::MAX,
    ensures
        h@ == hunk_text(edit_views(es@), context as nat, old_off as nat, new_off as nat),
{
    let ghost ev = edit_views(es@);
    let len = es.len();
    proof {
        lemma_first_change_bound(ev);
        lemma_last_change_bound(ev);
    }
    let mut first: usize = 0;
    let mut found = false;
    let mut i: usize = 0;
    while i < len && !found
        invariant
            i <= len,
            len == es@.len(),
            ev == edit_views(es@),
            !found ==> first == 0 && forall|j: int| 0 <= j < i ==> ev[j].kind == EditKind::Equal,
            found ==> first < len && ev[first as int].kind != EditKind::Equal && forall|j: int| 0 <= j < first ==> ev[j].kind == EditKind::Equal,
        decreases len - i,
    {
        if es[i].kind != EditKind::Equal {
            first = i;
            found = true;
        }
        i = i + 1;
    }
    proof {
        match first_change(ev) {
            Some(k) => {
                if found {
                    if first < k { assert(ev[first as int].kind == EditKind::Equal); }
                    if first > k { assert(ev[k].kind == EditKind::Equal); }
                } else {
                    assert(ev[k].kind == EditKind::Equal);
                }
            },
            None => {
                if found { assert(ev[first as int].kind == EditKind::Equal); }
            },
        }
    }
    let mut last: usize = if len > 0 { len - 1 } else { 0 };
    let mut k: usize = len;
    let mut seen = false;
    while k > 0 && !seen
        invariant
            k <= len,
            len == es@.len(),
            ev == edit_views(es@),
            !seen ==> last == (if len > 0 { len - 1 } else { 0 }) && forall|j: int| k <= j < len ==> ev[j].kind == EditKind::Equal,
            seen ==> last < len && ev[last as int].kind != EditKind::Equal && forall|j: int| last < j < len ==> ev[j].kind == EditKind::Equal,
        decreases k,
    {
        k = k - 1;
        if es[k].kind != EditKind::Equal {
            last = k;
            seen = true;
        }
    }
    proof {
        match last_change(ev) {
            Some(q) => {
                if seen {
                    if last < q { assert(ev[q].kind == EditKind::Equal); }
                    if last > q { assert(ev[last as int].kind == EditKind::Equal); }
                } else {
                    assert(ev[q].kind == EditKind::Equal);
                }
            },
            None => {
                if seen { assert(ev[last as int].kind == EditKind::Equal); }
            },
        }
    }
    let start = if first >= context { first - context } else { 0 };
    let lim: u64 = (last as u64) + (context as u64) + 1;
    let end: usize = if lim <= len as u64 { lim as usize } else { len };
    assert(start <= end) by {
        if len > 0 {
            if found { assert(first <= last) by {
                if seen {
                    if first > last { assert(ev[first as int].kind == EditKind::Equal); }
                } else {
                    assert(ev[first as int].kind == EditKind::Equal);
                }
            } }
        }
    }
    let (oc, nc) = spans(es, start, end);
    let (ob, nb) = spans(es, 0, start);
    let mut h = String::new();
    push_str(&mut h, "@@ -");
    let a = dec_string(old_off + ob + 1);
    push_str(&mut h, a.as_str());
    push_str(&mut h, ",");
    let b = dec_string(oc);
    push_str(&mut h, b.as_str());
    push_str(&mut h, " +");
    let c = dec_string(new_off + nb + 1);
    push_str(&mut h, c.as_str());
    push_str(&mut h, ",");
    let d = dec_string(nc);
    push_str(&mut h, d.as_str());
    push_str(&mut h, " @@\n");
    proof {
        reveal_strlit("@@ -");
        reveal_strlit(",");
        reveal_strlit(" +");
        reveal_strlit(" @@\n");
        reveal_strlit("");
        assert(ev.subrange(0, start as int) =~= ev.take(start as int));
    }
    let ghost head = h@;
    let mut j: usize = start;
    while j < end
        invariant
            start <= j <= end,
            end <= len,
            len == es@.len(),
            ev == edit_views(es@),
            h@ == head + hunk_body(ev.subrange(start as int, j as int)),
        decreases end - j,
    {
        let mark = match es[j].kind {
            EditKind::Equal => ' ',
            EditKind::Delete => '-',
            EditKind::Insert => '+',
        };
        push_char(&mut h, mark);
        push_str(&mut h, es[j].line.as_str());
        push_char(&mut h, '\n');
        proof {
            assert(ev.subrange(start as int, j + 1).drop_last() =~= ev.subrange(start as int, j as int));
            assert(h@ =~= head + hunk_body(ev.subrange(start as int, j + 1)));
        }
        j = j + 1;
    }
    h
}


proof fn lemma_script_len(a: Seq<Seq<char>>, b: Seq<Seq<char>>, i: nat, j: nat)
    ensures
        script(a, b, i, j).len() == 0 || script(a, b, i, j).len() <= i + j,
        script(a, b, i, j).len() <= i + j,
    decreases i + j,
{
    if i > 0 && j > 0 && a[i - 1] == b[j - 1] {
        lemma_script_len(a, b, (i - 1) as nat, (j - 1) as nat);
    } else if j > 0 && (i == 0 || super::diff::lcs(a, b, i, (j - 1) as nat) >= super::diff::lcs(a, b, (i - 1) as nat, j)) {
        lemma_script_len(a, b, i, (j - 1) as nat);
    } else if i > 0 {
        lemma_script_len(a, b, (i - 1) as nat, j);
    }
}

fn copy_edit(e: &Edit) -> (r: Edit)
    ensures
        r.kind == e.kind,
        r.line@ == e.line@,
{
    Edit { kind: e.kind, line: e.line.clone() }
}

/// The hunks of the diff between two texts' lines.
fn compute_hunks(old: &Vec<String>, new: &Vec<String>, context: usize) -> (r: Vec<String>)
    requires
        old@.len() + new@.len() < u32::MAX,
        context <= usize::MAX / 4,
    ensures
        views(r@) == hunks_of(script(views(old@), views(new@), old@.len(), new@.len()), context as nat),
{
    let edits = edit_script(old, new);
    let ghost ev = edit_views(edits@);
    proof { lemma_script_len(views(old@), views(new@), old@.len(), new@.len()); }
    let mut hunks: Vec<String> = Vec::new();
    let mut current: Vec<Edit> = Vec::new();
    let mut last: Option<usize> = None;
    let mut start: usize = 0;
    let mut i: usize = 0;
    while i < edits.len()
        invariant
            i <= edits@.len(),
            edits@.len() < u32::MAX,
            context <= usize::MAX / 4,
            ev == edit_views(edits@),
            current@.len() <= i,
            start <= i,
            start == grouping(ev, context as nat, i as nat).start,
            views(hunks@) == grouping(ev, context as nat, i as nat).hunks,
            edit_views(current@) == grouping(ev, context as nat, i as nat).current,
            (match last { Some(l) => Some(l as int), None => None }) == grouping(ev, context as nat, i as nat).last,
            match last { Some(l) => l < i, None => true },
        decreases edits@.len() - i,
    {
        let e = copy_edit(&edits[i]);
        let ghost g = grouping(ev, context as nat, i as nat);
        assert(ev[i as int] == EditView { kind: e.kind, line: e.line@ });
        match e.kind {
            EditKind::Equal => {
                let close = match last {
                    Some(l) => i - l > context * 2 && current.len() > 0,
                    None => false,
                };
                if close {
                    let (ob, nb) = spans(&edits, 0, start);
                    assert(ev.subrange(0, start as int) =~= ev.take(start as int));
                    let h = format_hunk(&current, context, ob, nb);
                    let ghost hb = views(hunks@);
                    hunks.push(h);
                    assert(views(hunks@) =~= hb.push(group_hunk(ev, g.current, context as nat, g.start)));
                    current = Vec::new();
                    current.push(e);
                    start = i;
                    assert(edit_views(current@) =~= seq![ev[i as int]]);
                } else {
                    let ghost cb = edit_views(current@);
                    current.push(e);
                    assert(edit_views(current@) =~= cb.push(ev[i as int]));
                }
            },
            _ => {
                let ghost cb = edit_views(current@);
                current.push(e);
                assert(edit_views(current@) =~= cb.push(ev[i as int]));
                last = Some(i);
            },
        }
        i = i + 1;
    }
    if current.len() > 0 {
        let (ob, nb) = spans(&edits, 0, start);
        assert(ev.subrange(0, start as int) =~= ev.take(start as int));
        let h = format_hunk(&current, context, ob, nb);
        let ghost hb = views(hunks@);
        hunks.push(h);
        assert(views(hunks@) =~= hb.push(group_hunk(ev, edit_views(current@), context as nat, start as nat)));
    }
    hunks
}

/// The diff of one file: its header lines and its hunks.
pub open spec fn file_diff_text(c: ChangeView, context: nat) -> Seq<char> {
    let old_lines = match c.old { Some(t) => lines_of(t), None => Seq::empty() };
    let new_lines = match c.new { Some(t) => lines_of(t), None => Seq::empty() };
    "diff --git a/"@ + c.path + " b/"@ + c.path + "\n"@
        + (if c.old is None { "new file mode 100644\n"@ } else if c.new is None { "deleted file mode 100644\n"@ } else { Seq::empty() })
        + "--- "@ + (if c.old is Some { "a/"@ + c.path } else { "/dev/null"@ }) + "\n"@
        + "+++ "@ + (if c.new is Some { "b/"@ + c.path } else { "/dev/null"@ }) + "\n"@
        + concat(hunks_of(script(old_lines, new_lines, old_lines.len(), new_lines.len()), context))
}

/// The header of a file's diff: after the `diff --git` line, an added file
/// (no old content) is marked "new file mode 100644" and compared from
/// /dev/null, a deleted file (no new content) is marked "deleted file mode
/// 100644" and compared to /dev/null, and a modified file gets no mode line.
pub proof fn lemma_file_diff_header(c: ChangeView, context: nat)
    ensures
        ({
            let d = file_diff_text(c, context);
            let git = "diff --git a/"@ + c.path + " b/"@ + c.path + "\n"@;
            let n = git.len() as int;
            &&& d.subrange(0, n) == git
            &&& (c.old is None ==> d.subrange(n, n + 21) == "new file mode 100644\n"@
                && d.subrange(n + 21, n + 35) == "--- /dev/null\n"@)
            &&& (c.old is Some && c.new is None ==> d.subrange(n, n + 25) == "deleted file mode 100644\n"@
                && d.subrange(n + 25, n + 29 + c.path.len() + 3) == "--- a/"@ + c.path + "\n"@)
            &&& (c.old is Some && c.new is Some ==> d.subrange(n, n + 6 + c.path.len() + 1) == "--- a/"@ + c.path + "\n"@)
        }),
{
    reveal_strlit("diff --git a/");
    reveal_strlit(" b/");
    reveal_strlit("\n");
    reveal_strlit("new file mode 100644\n");
    reveal_strlit("deleted file mode 100644\n");
    reveal_strlit("--- ");
    reveal_strlit("a/");
    reveal_strlit("/dev/null");
    reveal_strlit("--- /dev/null\n");
    reveal_strlit("--- a/");
    reveal_strlit("+++ ");
    reveal_strlit("b/");
    reveal_strlit("");
    let d = file_diff_text(c, context);
    let git = "diff --git a/"@ + c.path + " b/"@ + c.path + "\n"@;
    let n = git.len() as int;
    assert(d.subrange(0, n) =~= git);
    if c.old is None {
        assert(d.subrange(n, n + 21) =~= "new file mode 100644\n"@);
        assert(d.subrange(n + 21, n + 35) =~= "--- /dev/null\n"@);
    } else if c.new is None {
        assert(d.subrange(n, n + 25) =~= "deleted file mode 100644\n"@);
        assert(d.subrange(n + 25, n + 29 + c.path.len() + 3) =~= "--- a/"@ + c.path + "\n"@);
    } else {
        assert(d.subrange(n, n + 6 + c.path.len() + 1) =~= "--- a/"@ + c.path + "\n"@);
    }
}

/// The lines of an optional text.
fn content_lines(o: &Option<String>) -> (r: Vec<String>)
    ensures
        views(r@) == (match otext(*o) { Some(t) => lines_of(t), None => Seq::empty() }),
{
    match o {
        Some(t) => text_lines(t.as_str()),
        None => {
            let v: Vec<String> = Vec::new();
            assert(views(v@) =~= Seq::<Seq<char>>::empty());
            v
        },
    }
}

/// A change is small enough to diff.
pub open spec fn diffable(c: ChangeView) -> bool {
    (match c.old { Some(t) => lines_of(t).len() as int, None => 0int })
        + (match c.new { Some(t) => lines_of(t).len() as int, None => 0int }) < u32::MAX
}

fn file_diff(change: &FileChange, context: usize) -> (s: String)
    requires
        diffable(change_view(*change)),
        context <= usize::MAX / 4,
    ensures
        s@ == file_diff_text(change_view(*change), context as nat),
{
    let path = change.path.as_str();
    let old_lines = content_lines(&change.old_content);
    let new_lines = content_lines(&change.new_content);
    let mut d = String::new();
    push_str(&mut d, "diff --git a/");
    push_str(&mut d, path);
    push_str(&mut d, " b/");
    push_str(&mut d, path);
    push_str(&mut d, "\n");
    if change.old_content.is_none() {
        push_str(&mut d, "new file mode 100644\n");
    } else if change.new_content.is_none() {
        push_str(&mut d, "deleted file mode 100644\n");
    }
    push_str(&mut d, "--- ");
    if change.old_content.is_some() {
        push_str(&mut d, "a/");
        push_str(&mut d, path);
    } else {
        push_str(&mut d, "/dev/null");
    }
    push_str(&mut d, "\n");
    push_str(&mut d, "+++ ");
    if change.new_content.is_some() {
        push_str(&mut d, "b/");
        push_str(&mut d, path);
    } else {
        push_str(&mut d, "/dev/null");
    }
    push_str(&mut d, "\n");
    proof {
        reveal_strlit("diff --git a/");
        reveal_strlit(" b/");
        reveal_strlit("\n");
        reveal_strlit("new file mode 100644\n");
        reveal_strlit("deleted file mode 100644\n");
        reveal_strlit("--- ");
        reveal_strlit("a/");
        reveal_strlit("/dev/null");
        reveal_strlit("+++ ");
        reveal_strlit("b/");
        reveal_strlit("");
    }
    let ghost head = d@;
    let hunks = compute_hunks(&old_lines, &new_lines, context);
    let ghost hv = views(hunks@);
    let mut i: usize = 0;
    while i < hunks.len()
        invariant
            i <= hunks@.len(),
            hv == views(hunks@),
            d@ == head + concat(hv.take(i as int)),
        decreases hunks@.len() - i,
    {
        push_str(&mut d, hunks[i].as_str());
        assert(hv.take(i + 1).drop_last() =~= hv.take(i as int));
        i = i + 1;
    }
    assert(hv.take(hv.len() as int) =~= hv);
    d
}


/// The last change of `cs` for the path.
pub open spec fn last_of(cs: Seq<ChangeView>, path: Seq<char>) -> ChangeView
    decreases cs.len(),
{
    if cs.len() == 0 {
        ChangeView { path, old: None, new: None }
    } else if cs.last().path == path {
        cs.last()
    } else {
        last_of(cs.drop_last(), path)
    }
}

/// Some entry of `order` is for `path`.
pub open spec fn lists_path(order: Seq<ChangeView>, path: Seq<char>) -> bool {
    exists|k: int| 0 <= k < order.len() && (#[trigger] order[k]).path == path
}

/// `order` lists each path of `cs` once, in increasing order, with the last
/// change made to it.
pub open spec fn path_table(cs: Seq<ChangeView>, order: Seq<ChangeView>) -> bool {
    &&& forall|i: int, j: int| 0 <= i < j < order.len() ==> seq_lt(#[trigger] order[i].path, #[trigger] order[j].path)
    &&& forall|k: int| 0 <= k < order.len() ==> #[trigger] order[k] == last_of(cs, order[k].path)
    &&& forall|i: int| 0 <= i < cs.len() ==> lists_path(order, #[trigger] cs[i].path)
}

proof fn lemma_last_of(cs: Seq<ChangeView>, idx: int)
    requires
        0 <= idx < cs.len(),
        forall|j: int| idx < j < cs.len() ==> cs[j].path != cs[idx].path,
    ensures
        last_of(cs, cs[idx].path) == cs[idx],
    decreases cs.len(),
{
    if idx < cs.len() - 1 {
        let d = cs.drop_last();
        assert forall|j: int| idx < j < d.len() implies d[j].path != d[idx].path by {
            assert(d[j] == cs[j]);
        }
        lemma_last_of(d, idx);
    }
}

/// No changes were given to a generator.
#[derive(Debug, Clone, Copy, PartialEq, Eq, Structural)]
pub enum PatchError {
    NoChanges,
    Empty,
    NotUnifiedDiff,
    ConflictMarkers,
}

impl PatchError {
    /// The error as a sentence.
    pub fn message(&self) -> (s: String)
        ensures
            s@ == (match self {
                PatchError::NoChanges => "No file changes to generate patch from"@,
                PatchError::Empty => "Patch content is empty"@,
                PatchError::NotUnifiedDiff => "Patch does not appear to be a valid unified diff"@,
                PatchError::ConflictMarkers => "Patch contains unresolved conflict markers"@,
            }),
    {
        match self {
            PatchError::NoChanges => "No file changes to generate patch from".to_owned(),
            PatchError::Empty => "Patch content is empty".to_owned(),
            PatchError::NotUnifiedDiff => "Patch does not appear to be a valid unified diff".to_owned(),
            PatchError::ConflictMarkers => "Patch contains unresolved conflict markers".to_owned(),
        }
    }
}

/// Builds a unified diff from file changes.
pub struct PatchGenerator {
    changes: Vec<FileChange>,
    context_lines: usize,
}

/// The views of changes.
pub open spec fn change_views(v: Seq<FileChange>) -> Seq<ChangeView> {
    v.map_values(|c: FileChange| change_view(c))
}

/// Every index in `picked` is below `i`.
#[verifier::opaque]
pub open spec fn picked_below(picked: Seq<usize>, i: int) -> bool {
    forall|k: int| 0 <= k < picked.len() ==> (#[trigger] picked[k]) < i
}

/// The paths that `picked` indexes increase.
#[verifier::opaque]
pub open spec fn picked_sorted(cs: Seq<ChangeView>, picked: Seq<usize>) -> bool {
    forall|a: int, b: int| 0 <= a < b < picked.len() ==> seq_lt(#[trigger] cs[picked[a] as int].path, #[trigger] cs[picked[b] as int].path)
}

/// No change among the first `i` after an indexed one is for its path.
#[verifier::opaque]
pub open spec fn picked_latest(cs: Seq<ChangeView>, picked: Seq<usize>, i: int) -> bool {
    forall|k: int, j: int| #![trigger cs[picked[k] as int], cs[j]] 0 <= k < picked.len() && picked[k] < j < i ==> cs[j].path != cs[picked[k] as int].path
}

/// Some index in `picked` is for `path`.
pub open spec fn picks_path(cs: Seq<ChangeView>, picked: Seq<usize>, path: Seq<char>) -> bool {
    exists|k: int| 0 <= k < picked.len() && (#[trigger] cs[picked[k] as int]).path == path
}

/// Every path among the first `i` changes is indexed.
#[verifier::opaque]
pub open spec fn picked_covers(cs: Seq<ChangeView>, picked: Seq<usize>, i: int) -> bool {
    forall|j: int| 0 <= j < i ==> picks_path(cs, picked, #[trigger] cs[j].path)
}

/// `picked` indexes, in increasing path order, the last change of each
/// path among the first `i` changes.
pub open spec fn table_inv(cs: Seq<ChangeView>, picked: Seq<usize>, i: int) -> bool {
    &&& picked_below(picked, i)
    &&& picked_sorted(cs, picked)
    &&& picked_latest(cs, picked, i)
    &&& picked_covers(cs, picked, i)
}

proof fn lemma_replace_sorted(cs: Seq<ChangeView>, before: Seq<usize>, k: int, i: int)
    requires
        0 <= i <= usize::MAX,
        picked_sorted(cs, before),
        0 <= k < before.len(),
        cs[before[k] as int].path == cs[i].path,
    ensures
        picked_sorted(cs, before.update(k, i as usize)),
{
    reveal(picked_sorted);
    let picked = before.update(k, i as usize);
    assert forall|a: int, b: int| 0 <= a < b < picked.len() implies seq_lt(#[trigger] cs[picked[a] as int].path, #[trigger] cs[picked[b] as int].path) by {
        assert(cs[before[a] as int].path == cs[picked[a] as int].path);
        assert(cs[before[b] as int].path == cs[picked[b] as int].path);
        assert(seq_lt(cs[before[a] as int].path, cs[before[b] as int].path));
    }
}

proof fn lemma_replace_latest(cs: Seq<ChangeView>, before: Seq<usize>, k: int, i: int)
    requires
        0 <= i <= usize::MAX,
        picked_sorted(cs, before),
        picked_latest(cs, before, i),
        0 <= k < before.len(),
        cs[before[k] as int].path == cs[i].path,
    ensures
        picked_latest(cs, before.update(k, i as usize), i + 1),
{
    reveal(picked_sorted);
    reveal(picked_latest);
    let picked = before.update(k, i as usize);
    let path = cs[i].path;
    assert forall|q: int, j: int| #![trigger cs[picked[q] as int], cs[j]] 0 <= q < picked.len() && picked[q] < j < i + 1 implies cs[j].path != cs[picked[q] as int].path by {
        if q != k {
            assert(picked[q] == before[q]);
            if j == i {
                if cs[j].path == cs[before[q] as int].path {
                    crate::text::lemma_lt_irreflexive(path);
                    if q < k {
                        assert(seq_lt(cs[before[q] as int].path, cs[before[k] as int].path));
                    } else {
                        assert(seq_lt(cs[before[k] as int].path, cs[before[q] as int].path));
                    }
                }
            } else {
                assert(cs[j].path != cs[before[q] as int].path);
            }
        }
    }
}

proof fn lemma_replace_covers(cs: Seq<ChangeView>, before: Seq<usize>, k: int, i: int)
    requires
        0 <= i <= usize::MAX,
        picked_covers(cs, before, i),
        0 <= k < before.len(),
        cs[before[k] as int].path == cs[i].path,
    ensures
        picked_covers(cs, before.update(k, i as usize), i + 1),
{
    reveal(picked_covers);
    let picked = before.update(k, i as usize);
    assert forall|j: int| 0 <= j < i + 1 implies picks_path(cs, picked, #[trigger] cs[j].path) by {
        if j == i {
            assert(cs[picked[k] as int].path == cs[j].path);
        } else {
            assert(picks_path(cs, before, cs[j].path));
            let q = choose|q: int| 0 <= q < before.len() && (#[trigger] cs[before[q] as int]).path == cs[j].path;
            assert(cs[picked[q] as int].path == cs[j].path);
        }
    }
}

proof fn lemma_table_replace(cs: Seq<ChangeView>, before: Seq<usize>, k: int, i: int)
    requires
        0 <= i < cs.len(),
        i <= usize::MAX,
        table_inv(cs, before, i),
        0 <= k < before.len(),
        cs[before[k] as int].path == cs[i].path,
    ensures
        table_inv(cs, before.update(k, i as usize), i + 1),
{
    reveal(picked_below);
    lemma_replace_sorted(cs, before, k, i);
    lemma_replace_latest(cs, before, k, i);
    lemma_replace_covers(cs, before, k, i);
    let picked = before.update(k, i as usize);
    assert forall|q: int| 0 <= q < picked.len() implies (#[trigger] picked[q]) < i + 1 by {
        if q != k {
            assert(picked[q] == before[q]);
        }
    }
}

proof fn lemma_insert_sorted(cs: Seq<ChangeView>, before: Seq<usize>, k: int, i: int)
    requires
        0 <= i <= usize::MAX,
        picked_sorted(cs, before),
        0 <= k <= before.len(),
        forall|q: int| 0 <= q < k ==> seq_lt(#[trigger] cs[before[q] as int].path, cs[i].path),
        k < before.len() ==> seq_lt(cs[i].path, cs[before[k] as int].path),
    ensures
        picked_sorted(cs, before.insert(k, i as usize)),
{
    reveal(picked_sorted);
    let picked = before.insert(k, i as usize);
    let path = cs[i].path;
    assert forall|a: int, b: int| 0 <= a < b < picked.len() implies seq_lt(#[trigger] cs[picked[a] as int].path, #[trigger] cs[picked[b] as int].path) by {
        if a < k && b < k {
            assert(picked[a] == before[a] && picked[b] == before[b]);
            assert(seq_lt(cs[before[a] as int].path, cs[before[b] as int].path));
        } else if a < k && b == k {
            assert(picked[a] == before[a]);
            assert(seq_lt(cs[before[a] as int].path, path));
        } else if a < k && b > k {
            assert(picked[a] == before[a] && picked[b] == before[b - 1]);
            assert(seq_lt(cs[before[a] as int].path, path));
            if b - 1 > k {
                assert(seq_lt(cs[before[k] as int].path, cs[before[b - 1] as int].path));
                crate::text::lemma_lt_transitive(path, cs[before[k] as int].path, cs[before[b - 1] as int].path);
            }
            crate::text::lemma_lt_transitive(cs[before[a] as int].path, path, cs[before[b - 1] as int].path);
        } else if a == k {
            assert(picked[b] == before[b - 1]);
            if b - 1 > k {
                assert(seq_lt(cs[before[k] as int].path, cs[before[b - 1] as int].path));
                crate::text::lemma_lt_transitive(path, cs[before[k] as int].path, cs[before[b - 1] as int].path);
            }
        } else {
            assert(picked[a] == before[a - 1] && picked[b] == before[b - 1]);
            assert(seq_lt(cs[before[a - 1] as int].path, cs[before[b - 1] as int].path));
        }
    }
}

proof fn lemma_insert_latest(cs: Seq<ChangeView>, before: Seq<usize>, k: int, i: int)
    requires
        0 <= i <= usize::MAX,
        picked_sorted(cs, before),
        picked_latest(cs, before, i),
        0 <= k <= before.len(),
        forall|q: int| 0 <= q < k ==> seq_lt(#[trigger] cs[before[q] as int].path, cs[i].path),
        k < before.len() ==> seq_lt(cs[i].path, cs[before[k] as int].path),
    ensures
        picked_latest(cs, before.insert(k, i as usize), i + 1),
{
    reveal(picked_sorted);
    reveal(picked_latest);
    let picked = before.insert(k, i as usize);
    let path = cs[i].path;
    assert forall|q: int, j: int| #![trigger cs[picked[q] as int], cs[j]] 0 <= q < picked.len() && picked[q] < j < i + 1 implies cs[j].path != cs[picked[q] as int].path by {
        if q != k {
            let q0 = if q < k { q } else { q - 1 };
            assert(picked[q] == before[q0]);
            if j == i {
                crate::text::lemma_lt_irreflexive(path);
                if q0 < k {
                    assert(seq_lt(cs[before[q0] as int].path, path));
                } else {
                    if q0 > k {
                        assert(seq_lt(cs[before[k] as int].path, cs[before[q0] as int].path));
                        crate::text::lemma_lt_transitive(path, cs[before[k] as int].path, cs[before[q0] as int].path);
                    }
                }
            } else {
                assert(cs[j].path != cs[before[q0] as int].path);
            }
        }
    }
}

proof fn lemma_insert_covers(cs: Seq<ChangeView>, before: Seq<usize>, k: int, i: int)
    requires
        0 <= i <= usize::MAX,
        picked_covers(cs, before, i),
        0 <= k <= before.len(),
    ensures
        picked_covers(cs, before.insert(k, i as usize), i + 1),
{
    reveal(picked_covers);
    let picked = before.insert(k, i as usize);
    assert forall|j: int| 0 <= j < i + 1 implies picks_path(cs, picked, #[trigger] cs[j].path) by {
        if j == i {
            assert(cs[picked[k] as int].path == cs[j].path);
        } else {
            assert(picks_path(cs, before, cs[j].path));
            let q = choose|q: int| 0 <= q < before.len() && (#[trigger] cs[before[q] as int]).path == cs[j].path;
            if q < k {
                assert(picked[q] == before[q]);
                assert(cs[picked[q] as int].path == cs[j].path);
            } else {
                assert(picked[q + 1] == before[q]);
                assert(cs[picked[q + 1] as int].path == cs[j].path);
            }
        }
    }
}

proof fn lemma_table_insert(cs: Seq<ChangeView>, before: Seq<usize>, k: int, i: int)
    requires
        0 <= i < cs.len(),
        i <= usize::MAX,
        table_inv(cs, before, i),
        0 <= k <= before.len(),
        forall|q: int| 0 <= q < k ==> seq_lt(#[trigger] cs[before[q] as int].path, cs[i].path),
        k < before.len() ==> seq_lt(cs[i].path, cs[before[k] as int].path),
    ensures
        table_inv(cs, before.insert(k, i as usize), i + 1),
{
    reveal(picked_below);
    lemma_insert_sorted(cs, before, k, i);
    lemma_insert_latest(cs, before, k, i);
    lemma_insert_covers(cs, before, k, i);
    let picked = before.insert(k, i as usize);
    assert forall|q: int| 0 <= q < picked.len() implies (#[trigger] picked[q]) < i + 1 by {
        if q < k {
            assert(picked[q] == before[q]);
        } else if q > k {
            assert(picked[q] == before[q - 1]);
        }
    }
}

/// A finished index lists the paths as the generated patch does.
proof fn lemma_table_order(cs: Seq<ChangeView>, picked: Seq<usize>)
    requires
        table_inv(cs, picked, cs.len() as int),
    ensures
        forall|q: int| 0 <= q < picked.len() ==> (#[trigger] picked[q]) < cs.len(),
        path_table(cs, picked.map_values(|x: usize| cs[x as int])),
{
    reveal(picked_below);
    reveal(picked_sorted);
    reveal(picked_latest);
    reveal(picked_covers);
    let order = picked.map_values(|x: usize| cs[x as int]);
    assert forall|k: int| 0 <= k < order.len() implies #[trigger] order[k] == last_of(cs, order[k].path) by {
        assert forall|j: int| picked[k] < j < cs.len() implies (#[trigger] cs[j]).path != cs[picked[k] as int].path by {
            assert(cs[j].path != cs[picked[k] as int].path);
        }
        lemma_last_of(cs, picked[k] as int);
    }
    assert forall|i2: int| 0 <= i2 < cs.len() implies lists_path(order, #[trigger] cs[i2].path) by {
        assert(picks_path(cs, picked, cs[i2].path));
        let k = choose|k: int| 0 <= k < picked.len() && (#[trigger] cs[picked[k] as int]).path == cs[i2].path;
        assert(order[k] == cs[picked[k] as int]);
    }
    assert forall|a: int, b: int| 0 <= a < b < order.len() implies seq_lt(#[trigger] order[a].path, #[trigger] order[b].path) by {
        assert(order[a] == cs[picked[a] as int] && order[b] == cs[picked[b] as int]);
        assert(seq_lt(cs[picked[a] as int].path, cs[picked[b] as int].path));
    }
}

/// Index, in increasing path order, the last change of each path.
fn pick_changes(changes: &Vec<FileChange>) -> (picked: Vec<usize>)
    ensures
        table_inv(change_views(changes@), picked@, changes@.len() as int),
{
    let ghost cs = change_views(changes@);
    let mut picked: Vec<usize> = Vec::new();
    proof {
        reveal(picked_below);
        reveal(picked_sorted);
        reveal(picked_latest);
        reveal(picked_covers);
    }
    let mut i: usize = 0;
    while i < changes.len()
        invariant
            i <= changes@.len(),
            cs == change_views(changes@),
            table_inv(cs, picked@, i as int),
        decreases changes@.len() - i,
    {
        let path = changes[i].path.as_str();
        assert(cs[i as int].path == path@);
        proof { reveal(picked_below); }
        let mut k: usize = 0;
        while k < picked.len() && str_lt(changes[picked[k]].path.as_str(), path)
            invariant
                k <= picked@.len(),
                cs == change_views(changes@),
                forall|q: int| 0 <= q < picked@.len() ==> (#[trigger] picked@[q]) < i,
                i < changes@.len(),
                path@ == cs[i as int].path,
                forall|q: int| 0 <= q < k ==> seq_lt(#[trigger] cs[picked@[q] as int].path, path@),
            decreases picked@.len() - k,
        {
            assert(cs[picked@[k as int] as int].path == changes@[picked@[k as int] as int].path@);
            k = k + 1;
        }
        let ghost before = picked@;
        if k < picked.len() && str_eq(changes[picked[k]].path.as_str(), path) {
            assert(cs[picked@[k as int] as int].path == changes@[picked@[k as int] as int].path@);
            proof { lemma_table_replace(cs, before, k as int, i as int); }
            picked.set(k, i);
        } else {
            proof {
                if k < before.len() {
                    assert(cs[before[k as int] as int].path == changes@[before[k as int] as int].path@);
                    crate::text::lemma_lt_connected(cs[before[k as int] as int].path, path@);
                }
                lemma_table_insert(cs, before, k as int, i as int);
            }
            picked.insert(k, i);
        }
        i = i + 1;
    }
    picked
}

impl Default for PatchGenerator {
    fn default() -> (g: Self)
        ensures
            g.changes_view() == Seq::<ChangeView>::empty(),
            g.context() == 3,
    {
        PatchGenerator::new()
    }
}

impl PatchGenerator {
    /// The changes, in the order added.
    pub closed spec fn changes_view(self) -> Seq<ChangeView> {
        change_views(self.changes@)
    }

    /// Lines of context around each change.
    pub closed spec fn context(self) -> usize {
        self.context_lines
    }

    /// No changes, three lines of context.
    pub fn new() -> (g: Self)
        ensures
            g.changes_view() == Seq::<ChangeView>::empty(),
            g.context() == 3,
    {
        let g = PatchGenerator { changes: Vec::new(), context_lines: 3 };
        assert(change_views(g.changes@) =~= Seq::<ChangeView>::empty());
        g
    }

    /// Set the lines of context.
    pub fn with_context_lines(self, n: usize) -> (g: Self)
        ensures
            g.changes_view() == self.changes_view(),
            g.context() == n,
    {
        let mut s = self;
        s.context_lines = n;
        s
    }

    /// Add a change.
    pub fn add_change(self, change: FileChange) -> (g: Self)
        ensures
            g.changes_view() == self.changes_view().push(change_view(change)),
            g.context() == self.context(),
    {
        let mut s = self;
        let ghost before = s.changes@;
        s.changes.push(change);
        assert(change_views(s.changes@) =~= change_views(before).push(change_view(change)));
        s
    }

    /// The patch: the diff of each changed path, in increasing path order,
    /// using the last change given for a path; an error without changes.
    pub fn generate(self) -> (r: Result<String, PatchError>)
        requires
            forall|i: int| 0 <= i < self.changes_view().len() ==> diffable(#[trigger] self.changes_view()[i]),
            self.context() <= usize::MAX / 4,
        ensures
            match r {
                Err(e) => e == PatchError::NoChanges && self.changes_view().len() == 0,
                Ok(text) => self.changes_view().len() > 0 && exists|order: Seq<ChangeView>| {
                    &&& path_table(self.changes_view(), order)
                    &&& text@ == concat(order.map_values(|c: ChangeView| file_diff_text(c, self.context() as nat)))
                },
            },
    {
        if self.changes.len() == 0 {
            return Err(PatchError::NoChanges);
        }
        let ghost cs = change_views(self.changes@);
        let picked = pick_changes(&self.changes);
        let ghost order = picked@.map_values(|x: usize| cs[x as int]);
        proof { lemma_table_order(cs, picked@); }
        assert(cs == self.changes_view());
        let ghost diffs = order.map_values(|c: ChangeView| file_diff_text(c, self.context_lines as nat));
        let mut out = String::new();
        let mut k: usize = 0;
        while k < picked.len()
            invariant
                k <= picked@.len(),
                cs == change_views(self.changes@),
                forall|q: int| 0 <= q < picked@.len() ==> (#[trigger] picked@[q]) < self.changes@.len(),
                forall|q: int| 0 <= q < self.changes@.len() ==> diffable(#[trigger] cs[q]),
                self.context_lines <= usize::MAX / 4,
                order == picked@.map_values(|x: usize| cs[x as int]),
                diffs == order.map_values(|c: ChangeView| file_diff_text(c, self.context_lines as nat)),
                out@ == concat(diffs.take(k as int)),
            decreases picked@.len() - k,
        {
            assert(cs[picked@[k as int] as int] == change_view(self.changes@[picked@[k as int] as int]));
            let d = file_diff(&self.changes[picked[k]], self.context_lines);
            push_str(&mut out, d.as_str());
            assert(diffs.take(k + 1).drop_last() =~= diffs.take(k as int));
            k = k + 1;
        }
        assert(diffs.take(diffs.len() as int) =~= diffs);
        Ok(out)
    }
}


/// Counts over the lines of a patch.
#[derive(Debug, Clone, Copy, PartialEq, Eq, Structural)]
pub struct PatchStats {
    pub files_changed: usize,
    pub insertions: usize,
    pub deletions: usize,
    pub hunks: usize,
}

impl Default for PatchStats {
    fn default() -> (s: Self)
        ensures
            s == (PatchStats { files_changed: 0, insertions: 0, deletions: 0, hunks: 0 }),
    {
        PatchStats { files_changed: 0, insertions: 0, deletions: 0, hunks: 0 }
    }
}

/// The header that names a file after a change.
pub open spec fn new_file_marker() -> Seq<char> {
    seq!['+', '+', '+', ' ', 'b', '/']
}

/// The header that names a file before a change.
pub open spec fn old_file_marker() -> Seq<char> {
    seq!['-', '-', '-', ' ', 'a', '/']
}

/// The paths named by lines that start with `marker`, in order.
pub open spec fn marked_paths(lines: Seq<Seq<char>>, marker: Seq<char>) -> Seq<Seq<char>>
    decreases lines.len(),
{
    if lines.len() == 0 {
        Seq::empty()
    } else {
        let rest = marked_paths(lines.drop_last(), marker);
        if starts_with(lines.last(), marker) {
            rest.push(lines.last().skip(marker.len() as int))
        } else {
            rest
        }
    }
}

/// How many lines satisfy `f`.
pub open spec fn count_lines(lines: Seq<Seq<char>>, f: spec_fn(Seq<char>) -> bool) -> nat
    decreases lines.len(),
{
    if lines.len() == 0 {
        0
    } else {
        count_lines(lines.drop_last(), f) + if f(lines.last()) { 1nat } else { 0nat }
    }
}

/// A line that opens a hunk.
pub open spec fn is_hunk_line(l: Seq<char>) -> bool {
    starts_with(l, seq!['@', '@'])
}

/// A line that adds text (not a file header).
pub open spec fn is_insertion(l: Seq<char>) -> bool {
    starts_with(l, seq!['+']) && !starts_with(l, seq!['+', '+', '+'])
}

/// A line that removes text (not a file header).
pub open spec fn is_deletion(l: Seq<char>) -> bool {
    starts_with(l, seq!['-']) && !starts_with(l, seq!['-', '-', '-'])
}

/// The counts of a patch text.
pub open spec fn stats_of(text: Seq<char>) -> PatchStats {
    let lines = lines_of(text);
    PatchStats {
        files_changed: (marked_paths(lines, new_file_marker()) + marked_paths(lines, old_file_marker())).to_set().len() as usize,
        insertions: count_lines(lines, |l: Seq<char>| is_insertion(l)) as usize,
        deletions: count_lines(lines, |l: Seq<char>| is_deletion(l)) as usize,
        hunks: count_lines(lines, |l: Seq<char>| is_hunk_line(l)) as usize,
    }
}

/// A line is of at most one kind.
proof fn lemma_line_kinds(l: Seq<char>)
    ensures
        is_hunk_line(l) ==> !is_insertion(l) && !is_deletion(l),
        is_insertion(l) ==> !is_deletion(l),
{
    if l.len() > 0 {
        if is_hunk_line(l) {
            assert(l.subrange(0, 2)[0] == l[0]);
        }
        if starts_with(l, seq!['+']) {
            assert(l.subrange(0, 1)[0] == l[0]);
        }
        if starts_with(l, seq!['-']) {
            assert(l.subrange(0, 1)[0] == l[0]);
        }
    }
}

/// Why a patch text is refused, if it is: it is blank; it has neither a
/// `---` nor a `+++` marker; it holds a conflict marker (in that order).
pub open spec fn validation_error(c: Seq<char>) -> Option<PatchError> {
    if crate::parse::trim(c).len() == 0 {
        Some(PatchError::Empty)
    } else if !contains(c, seq!['-', '-', '-']) && !contains(c, seq!['+', '+', '+']) {
        Some(PatchError::NotUnifiedDiff)
    } else if contains(c, seq!['<', '<', '<', '<', '<', '<', '<']) {
        Some(PatchError::ConflictMarkers)
    } else {
        None
    }
}

/// Patch text, checked before use.
pub struct PatchBuilder {
    content: String,
}

/// Keep the paths of the lines that start with `marker`, adding to `out`
/// those it does not hold yet.
fn collect_marked(lines: &Vec<String>, marker: &str, out: &mut Vec<String>)
    requires
        views(old(out)@).no_duplicates(),
    ensures
        views(final(out)@).no_duplicates(),
        views(final(out)@).to_set() == views(old(out)@).to_set() + marked_paths(views(lines@), marker@).to_set(),
{
    let ghost lv = views(lines@);
    let ghost start = views(out@).to_set();
    let mut i: usize = 0;
    while i < lines.len()
        invariant
            i <= lines@.len(),
            lv == views(lines@),
            views(out@).no_duplicates(),
            views(out@).to_set() == start + marked_paths(lv.take(i as int), marker@).to_set(),
        decreases lines@.len() - i,
    {
        let line = lines[i].as_str();
        assert(lv.take(i + 1).drop_last() =~= lv.take(i as int));
        assert(lv.take(i + 1).last() == line@);
        if has_prefix(line, marker) {
            let path = slice_chars(line, marker.unicode_len(), line.unicode_len());
            assert(path@ =~= line@.skip(marker@.len() as int));
            let ghost before = views(out@);
            if !crate::text::contains_string(out, &path) {
                let ghost pv = path@;
                out.push(path);
                assert(views(out@) =~= before.push(pv));
                proof {
                    before.lemma_push_to_set_commute(pv);
                    assert forall|a: int, b: int| 0 <= a < b < views(out@).len() implies views(out@)[a] != views(out@)[b] by {
                        if b == before.len() {
                            assert(before[a] == views(out@)[a]);
                            assert(before.contains(before[a]));
                        }
                    }
                }
            } else {
                assert(before.contains(path@));
            }
            proof {
                marked_paths(lv.take(i as int), marker@).lemma_push_to_set_commute(path@);
            }
            assert(views(out@).to_set() =~= start + marked_paths(lv.take(i + 1), marker@).to_set());
        } else {
            assert(marked_paths(lv.take(i + 1), marker@) == marked_paths(lv.take(i as int), marker@));
        }
        i = i + 1;
    }
    assert(lv.take(lines@.len() as int) =~= lv);
}

impl PatchBuilder {
    /// The patch text.
    pub closed spec fn content(self) -> Seq<char> {
        self.content@
    }

    /// Wrap the text.
    pub fn new(content: &str) -> (b: Self)
        ensures
            b.content() == content@,
    {
        PatchBuilder { content: content.to_owned() }
    }

    /// Refuse empty text, text with neither a `---` nor a `+++` marker, and
    /// text with conflict markers, in that order.
    pub fn validate(self) -> (r: Result<Self, PatchError>)
        ensures
            match validation_error(self.content()) {
                Some(e) => r == Err::<Self, PatchError>(e),
                None => r is Ok && r->Ok_0.content() == self.content(),
            },
    {
        proof {
            reveal_strlit("---");
            reveal_strlit("+++");
            reveal_strlit("<<<<<<<");
            assert("---"@ =~= seq!['-', '-', '-']);
            assert("+++"@ =~= seq!['+', '+', '+']);
            assert("<<<<<<<"@ =~= seq!['<', '<', '<', '<', '<', '<', '<']);
        }
        if trim_str(self.content.as_str()).unicode_len() == 0 {
            return Err(PatchError::Empty);
        }
        if !contains_str(self.content.as_str(), "---") && !contains_str(self.content.as_str(), "+++") {
            return Err(PatchError::NotUnifiedDiff);
        }
        if contains_str(self.content.as_str(), "<<<<<<<") {
            return Err(PatchError::ConflictMarkers);
        }
        Ok(self)
    }

    /// The patch text.
    pub fn build(self) -> (s: String)
        ensures
            s@ == self.content(),
    {
        self.content
    }

    /// The paths named by `+++ b/` lines, in order.
    pub fn modified_files(&self) -> (r: Vec<String>)
        ensures
            views(r@) == marked_paths(lines_of(self.content()), new_file_marker()),
    {
        proof {
            reveal_strlit("+++ b/");
            assert("+++ b/"@ =~= new_file_marker());
        }
        let marker = "+++ b/";
        let lines = text_lines(self.content.as_str());
        let ghost lv = views(lines@);
        let mut out: Vec<String> = Vec::new();
        let mut i: usize = 0;
        while i < lines.len()
            invariant
                i <= lines@.len(),
                lv == views(lines@),
                marker@ == new_file_marker(),
                views(out@) == marked_paths(lv.take(i as int), new_file_marker()),
            decreases lines@.len() - i,
        {
            let line = lines[i].as_str();
            assert(lv.take(i + 1).drop_last() =~= lv.take(i as int));
            assert(lv.take(i + 1).last() == line@);
            if has_prefix(line, marker) {
                let path = slice_chars(line, 6, line.unicode_len());
                assert(path@ =~= line@.skip(6));
                let ghost before = views(out@);
                let ghost pv = path@;
                out.push(path);
                assert(views(out@) =~= before.push(pv));
            }
            i = i + 1;
        }
        assert(lv.take(lines@.len() as int) =~= lv);
        out
    }

    /// The counts of the patch: hunks, added and removed lines, and the
    /// distinct paths named by `+++ b/` and `--- a/` lines.
    pub fn stats(&self) -> (st: PatchStats)
        ensures
            st == stats_of(self.content()),
    {
        proof {
            reveal_strlit("+++ b/");
            reveal_strlit("--- a/");
            reveal_strlit("@@");
            reveal_strlit("+");
            reveal_strlit("-");
            reveal_strlit("+++");
            reveal_strlit("---");
            assert("+++ b/"@ =~= new_file_marker());
            assert("--- a/"@ =~= old_file_marker());
            assert("@@"@ =~= seq!['@', '@']);
            assert("+"@ =~= seq!['+']);
            assert("-"@ =~= seq!['-']);
            assert("+++"@ =~= seq!['+', '+', '+']);
            assert("---"@ =~= seq!['-', '-', '-']);
        }
        let lines = text_lines(self.content.as_str());
        let ghost lv = views(lines@);
        let mut insertions: usize = 0;
        let mut deletions: usize = 0;
        let mut hunks: usize = 0;
        let mut i: usize = 0;
        while i < lines.len()
            invariant
                i <= lines@.len(),
                lv == views(lines@),
                insertions == count_lines(lv.take(i as int), |l: Seq<char>| is_insertion(l)),
                deletions == count_lines(lv.take(i as int), |l: Seq<char>| is_deletion(l)),
                hunks == count_lines(lv.take(i as int), |l: Seq<char>| is_hunk_line(l)),
                insertions <= i && deletions <= i && hunks <= i,
            decreases lines@.len() - i,
        {
            let line = lines[i].as_str();
            assert(lv.take(i + 1).drop_last() =~= lv.take(i as int));
            assert(lv.take(i + 1).last() == line@);
            proof {
                lemma_line_kinds(line@);
                reveal_strlit("@@");
                reveal_strlit("+");
                reveal_strlit("-");
                reveal_strlit("+++");
                reveal_strlit("---");
                assert("@@"@ =~= seq!['@', '@']);
                assert("+"@ =~= seq!['+']);
                assert("-"@ =~= seq!['-']);
                assert("+++"@ =~= seq!['+', '+', '+']);
                assert("---"@ =~= seq!['-', '-', '-']);
            }
            if has_prefix(line, "@@") {
                hunks = hunks + 1;
            } else if has_prefix(line, "+") && !has_prefix(line, "+++") {
                insertions = insertions + 1;
            } else if has_prefix(line, "-") && !has_prefix(line, "---") {
                deletions = deletions + 1;
            }
            i = i + 1;
        }
        assert(lv.take(lines@.len() as int) =~= lv);
        let mut seen: Vec<String> = Vec::new();
        assert(views(seen@) =~= Seq::<Seq<char>>::empty());
        collect_marked(&lines, "+++ b/", &mut seen);
        collect_marked(&lines, "--- a/", &mut seen);
        proof {
            let a = marked_paths(lv, new_file_marker());
            let b = marked_paths(lv, old_file_marker());
            vstd::seq_lib::seq_to_set_distributes_over_add(a, b);
            assert(Seq::<Seq<char>>::empty().to_set() =~= Set::<Seq<char>>::empty());
            assert((a + b).to_set() =~= Seq::<Seq<char>>::empty().to_set() + a.to_set() + b.to_set());
            views(seen@).unique_seq_to_set();
        }
        PatchStats { files_changed: seen.len(), insertions, deletions, hunks }
    }
}

} // verus!
