//! Line diffs: the longest common subsequence of two texts' lines and the
//! edit script read back from it.

use vstd::prelude::*;
use crate::parse::split_str;
use crate::text::{push_char, push_str, slice_chars, str_eq, views};

verus! {

/// The lines of a text as `str::lines` gives them: split at `\n`, without
/// the empty piece after a final `\n`, each without one trailing `\r`.
pub open spec fn lines_of(s: Seq<char>) -> Seq<Seq<char>> {
    let pieces = crate::parse::split(s, seq!['\n']);
    let kept = if pieces.len() > 0 && pieces.last().len() == 0 { pieces.drop_last() } else { pieces };
    kept.map_values(|l: Seq<char>| if l.len() > 0 && l.last() == '\r' { l.drop_last() } else { l })
}

/// The lines of a text (`str::lines`).
pub fn text_lines(s: &str) -> (r: Vec<String>)
    ensures
        views(r@) == lines_of(s@),
{
    proof {
        reveal_strlit("\n");
        assert("\n"@ =~= seq!['\n']);
    }
    let pieces = split_str(s, "\n");
    let ghost pv = views(pieces@);
    let n = if pieces.len() > 0 && pieces[pieces.len() - 1].unicode_len() == 0 { pieces.len() - 1 } else { pieces.len() };
    let ghost kept = if pv.len() > 0 && pv.last().len() == 0 { pv.drop_last() } else { pv };
    assert(kept =~= pv.take(n as int));
    let mut out: Vec<String> = Vec::new();
    let mut i: usize = 0;
    while i < n
        invariant
            n <= pieces@.len(),
            i <= n,
            pv == views(pieces@),
            kept == pv.take(n as int),
            views(out@) == kept.take(i as int).map_values(|l: Seq<char>| if l.len() > 0 && l.last() == '\r' { l.drop_last() } else { l }),
        decreases n - i,
    {
        let p = &pieces[i];
        let len = p.unicode_len();
        let line = if len > 0 && p.as_str().get_char(len - 1) == '\r' {
            let l = slice_chars(p.as_str(), 0, len - 1);
            assert(l@ =~= p@.drop_last());
            l
        } else {
            p.clone()
        };
        assert(line@ == (if p@.len() > 0 && p@.last() == '\r' { p@.drop_last() } else { p@ }));
        let ghost before = views(out@);
        assert(pv[i as int] == p@);
        let ghost lv = line@;
        out.push(line);
        assert(kept[i as int] == p@);
        assert(views(out@) =~= before.push(lv));
        assert(kept.take(i + 1).map_values(|l: Seq<char>| if l.len() > 0 && l.last() == '\r' { l.drop_last() } else { l })
            =~= kept.take(i as int).map_values(|l: Seq<char>| if l.len() > 0 && l.last() == '\r' { l.drop_last() } else { l }).push(lv));
        assert(views(out@) =~= kept.take(i + 1).map_values(|l: Seq<char>| if l.len() > 0 && l.last() == '\r' { l.drop_last() } else { l }));
        i = i + 1;
    }
    assert(kept.take(n as int) =~= kept);
    out
}

/// One step of an edit script.
#[derive(Debug, Clone, Copy, PartialEq, Eq, Structural)]
pub enum EditKind {
    Equal,
    Insert,
    Delete,
}

/// A line kept, inserted or deleted.
pub struct EditView {
    pub kind: EditKind,
    pub line: Seq<char>,
}

/// The length of a longest common subsequence of the first `i` lines of
/// `a` and the first `j` lines of `b`.
pub open spec fn lcs(a: Seq<Seq<char>>, b: Seq<Seq<char>>, i: nat, j: nat) -> nat
    decreases i, j,
{
    if i == 0 || j == 0 {
        0
    } else if a[i - 1] == b[j - 1] {
        lcs(a, b, (i - 1) as nat, (j - 1) as nat) + 1
    } else {
        let x = lcs(a, b, (i - 1) as nat, j);
        let y = lcs(a, b, i, (j - 1) as nat);
        if x >= y { x } else { y }
    }
}

/// The edit script turning the first `i` lines of `a` into the first `j`
/// lines of `b`, read back from the common subsequence: a common last line
/// is kept; otherwise an insertion is preferred when it loses nothing.
pub open spec fn script(a: Seq<Seq<char>>, b: Seq<Seq<char>>, i: nat, j: nat) -> Seq<EditView>
    decreases i + j,
{
    if i == 0 && j == 0 {
        Seq::empty()
    } else if i > 0 && j > 0 && a[i - 1] == b[j - 1] {
        script(a, b, (i - 1) as nat, (j - 1) as nat).push(EditView { kind: EditKind::Equal, line: a[i - 1] })
    } else if j > 0 && (i == 0 || lcs(a, b, i, (j - 1) as nat) >= lcs(a, b, (i - 1) as nat, j)) {
        script(a, b, i, (j - 1) as nat).push(EditView { kind: EditKind::Insert, line: b[j - 1] })
    } else {
        script(a, b, (i - 1) as nat, j).push(EditView { kind: EditKind::Delete, line: a[i - 1] })
    }
}

/// The lines an edit script keeps or deletes: the text it starts from.
pub open spec fn source_of(es: Seq<EditView>) -> Seq<Seq<char>> {
    es.filter(|e: EditView| e.kind != EditKind::Insert).map_values(|e: EditView| e.line)
}

/// The lines an edit script keeps or inserts: the text it produces.
pub open spec fn target_of(es: Seq<EditView>) -> Seq<Seq<char>> {
    es.filter(|e: EditView| e.kind != EditKind::Delete).map_values(|e: EditView| e.line)
}

/// An edit as computed.
pub struct Edit {
    pub kind: EditKind,
    pub line: String,
}

/// The views of edits.
pub open spec fn edit_views(v: Seq<Edit>) -> Seq<EditView> {
    v.map_values(|e: Edit| EditView { kind: e.kind, line: e.line@ })
}

proof fn lemma_lcs_bound(a: Seq<Seq<char>>, b: Seq<Seq<char>>, i: nat, j: nat)
    ensures
        lcs(a, b, i, j) <= i,
        lcs(a, b, i, j) <= j,
    decreases i, j,
{
    if i > 0 && j > 0 {
        lemma_lcs_bound(a, b, (i - 1) as nat, (j - 1) as nat);
        lemma_lcs_bound(a, b, (i - 1) as nat, j);
        lemma_lcs_bound(a, b, i, (j - 1) as nat);
    }
}

/// The rows of the table of common-subsequence lengths.
fn lcs_table(old: &Vec<String>, new: &Vec<String>) -> (t: Vec<Vec<u32>>)
    requires
        old@.len() < u32::MAX,
        new@.len() < usize::MAX,
    ensures
        t@.len() == old@.len() + 1,
        forall|i: int| 0 <= i <= old@.len() ==> (#[trigger] t@[i])@.len() == new@.len() + 1,
        forall|i: int, j: int| 0 <= i <= old@.len() && 0 <= j <= new@.len() ==> (#[trigger] t@[i]@[j]) == lcs(views(old@), views(new@), i as nat, j as nat),
{
    let ghost a = views(old@);
    let ghost b = views(new@);
    let n = old.len();
    let m = new.len();
    let mut table: Vec<Vec<u32>> = Vec::new();
    let mut row0: Vec<u32> = Vec::new();
    let mut j: usize = 0;
    while j <= m
        invariant
            j <= m + 1,
            m == new@.len(),
            m < usize::MAX,
            row0@.len() == j,
            forall|k: int| 0 <= k < j ==> row0@[k] == 0,
        decreases m + 1 - j,
    {
        row0.push(0);
        j = j + 1;
    }
    table.push(row0);
    let mut i: usize = 1;
    while i <= n
        invariant
            1 <= i <= n + 1,
            n == old@.len(),
            m == new@.len(),
            n < u32::MAX,
            m < usize::MAX,
            a == views(old@),
            b == views(new@),
            table@.len() == i,
            forall|r: int| 0 <= r < i ==> (#[trigger] table@[r])@.len() == m + 1,
            forall|r: int, c: int| 0 <= r < i && 0 <= c <= m ==> (#[trigger] table@[r]@[c]) == lcs(a, b, r as nat, c as nat),
        decreases n + 1 - i,
    {
        let prev = &table[i - 1];
        let mut row: Vec<u32> = Vec::new();
        row.push(0);
        let mut j: usize = 1;
        while j <= m
            invariant
                1 <= i <= n,
                1 <= j <= m + 1,
                n == old@.len(),
                m == new@.len(),
                n < u32::MAX,
                m < usize::MAX,
                a == views(old@),
                b == views(new@),
                prev@.len() == m + 1,
                forall|c: int| 0 <= c <= m ==> (#[trigger] prev@[c]) == lcs(a, b, (i - 1) as nat, c as nat),
                row@.len() == j,
                forall|c: int| 0 <= c < j ==> (#[trigger] row@[c]) == lcs(a, b, i as nat, c as nat),
            decreases m + 1 - j,
        {
            assert(a[i - 1] == old@[i - 1]@ && b[j - 1] == new@[j - 1]@);
            proof {
                lemma_lcs_bound(a, b, (i - 1) as nat, (j - 1) as nat);
                lemma_lcs_bound(a, b, i as nat, (j - 1) as nat);
                lemma_lcs_bound(a, b, (i - 1) as nat, j as nat);
            }
            let v = if str_eq(old[i - 1].as_str(), new[j - 1].as_str()) {
                prev[j - 1] + 1
            } else {
                let x = prev[j];
                let y = row[j - 1];
                if x >= y { x } else { y }
            };
            row.push(v);
            j = j + 1;
        }
        table.push(row);
        i = i + 1;
    }
    table
}

/// The edit script turning `old` into `new`.
pub fn edit_script(old: &Vec<String>, new: &Vec<String>) -> (r: Vec<Edit>)
    requires
        old@.len() < u32::MAX,
        new@.len() < u32::MAX,
    ensures
        edit_views(r@) == script(views(old@), views(new@), old@.len(), new@.len()),
{
    let ghost a = views(old@);
    let ghost b = views(new@);
    let table = lcs_table(old, new);
    let mut rev: Vec<Edit> = Vec::new();
    let mut i: usize = old.len();
    let mut j: usize = new.len();
    while i > 0 || j > 0
        invariant
            i <= old@.len(),
            j <= new@.len(),
            a == views(old@),
            b == views(new@),
            table@.len() == old@.len() + 1,
            forall|r: int| 0 <= r <= old@.len() ==> (#[trigger] table@[r])@.len() == new@.len() + 1,
            forall|r: int, c: int| 0 <= r <= old@.len() && 0 <= c <= new@.len() ==> (#[trigger] table@[r]@[c]) == lcs(a, b, r as nat, c as nat),
            script(a, b, old@.len(), new@.len()) == script(a, b, i as nat, j as nat) + edit_views(rev@).reverse(),
        decreases i + j,
    {
        let ghost before = edit_views(rev@);
        if i > 0 && j > 0 && str_eq(old[i - 1].as_str(), new[j - 1].as_str()) {
            assert(a[i - 1] == old@[i - 1]@ && b[j - 1] == new@[j - 1]@);
            rev.push(Edit { kind: EditKind::Equal, line: old[i - 1].clone() });
            assert(edit_views(rev@).reverse() =~= seq![EditView { kind: EditKind::Equal, line: a[i - 1] }] + before.reverse());
            i = i - 1;
            j = j - 1;
        } else if j > 0 && (i == 0 || table[i][j - 1] >= table[i - 1][j]) {
            assert(i > 0 ==> a[i - 1] == old@[i - 1]@);
            assert(b[j - 1] == new@[j - 1]@);
            rev.push(Edit { kind: EditKind::Insert, line: new[j - 1].clone() });
            assert(edit_views(rev@).reverse() =~= seq![EditView { kind: EditKind::Insert, line: b[j - 1] }] + before.reverse());
            j = j - 1;
        } else {
            assert(a[i - 1] == old@[i - 1]@);
            assert(j > 0 ==> b[j - 1] == new@[j - 1]@);
            rev.push(Edit { kind: EditKind::Delete, line: old[i - 1].clone() });
            assert(edit_views(rev@).reverse() =~= seq![EditView { kind: EditKind::Delete, line: a[i - 1] }] + before.reverse());
            i = i - 1;
        }
    }
    let mut out: Vec<Edit> = Vec::new();
    let mut k: usize = rev.len();
    while k > 0
        invariant
            k <= rev@.len(),
            edit_views(out@) == edit_views(rev@).reverse().take(rev@.len() - k),
        decreases k,
    {
        k = k - 1;
        let e = Edit { kind: rev[k].kind, line: rev[k].line.clone() };
        let ghost before = edit_views(out@);
        out.push(e);
        proof {
            let rv = edit_views(rev@).reverse();
            assert(rv[rev@.len() - 1 - k] == edit_views(rev@)[k as int]);
            assert(edit_views(out@) =~= before.push(edit_views(rev@)[k as int]));
            assert(rv.take(rev@.len() - k) =~= rv.take(rev@.len() - k - 1).push(rv[rev@.len() - 1 - k]));
        }
    }
    assert(edit_views(rev@).reverse().take(rev@.len() as int) =~= edit_views(rev@).reverse());
    assert(script(a, b, 0, 0) =~= Seq::<EditView>::empty());
    assert(script(a, b, old@.len(), new@.len()) =~= edit_views(rev@).reverse());
    out
}

/// An edit script replays both texts: the lines it keeps or deletes are the
/// old text, and the lines it keeps or inserts are the new one.
pub proof fn lemma_script_replays(a: Seq<Seq<char>>, b: Seq<Seq<char>>, i: nat, j: nat)
    requires
        i <= a.len(),
        j <= b.len(),
    ensures
        source_of(script(a, b, i, j)) == a.take(i as int),
        target_of(script(a, b, i, j)) == b.take(j as int),
    decreases i + j,
{
    reveal_with_fuel(Seq::filter, 1);
    let s = script(a, b, i, j);
    if i == 0 && j == 0 {
        assert(source_of(s) =~= a.take(0));
        assert(target_of(s) =~= b.take(0));
    } else if i > 0 && j > 0 && a[i - 1] == b[j - 1] {
        let t = script(a, b, (i - 1) as nat, (j - 1) as nat);
        lemma_script_replays(a, b, (i - 1) as nat, (j - 1) as nat);
        assert(s.drop_last() =~= t);
        assert(source_of(s) =~= source_of(t).push(a[i - 1]));
        assert(target_of(s) =~= target_of(t).push(b[j - 1]));
        assert(a.take(i as int) =~= a.take(i - 1).push(a[i - 1]));
        assert(b.take(j as int) =~= b.take(j - 1).push(b[j - 1]));
    } else if j > 0 && (i == 0 || lcs(a, b, i, (j - 1) as nat) >= lcs(a, b, (i - 1) as nat, j)) {
        let t = script(a, b, i, (j - 1) as nat);
        lemma_script_replays(a, b, i, (j - 1) as nat);
        assert(s.drop_last() =~= t);
        assert(source_of(s) =~= source_of(t));
        assert(target_of(s) =~= target_of(t).push(b[j - 1]));
        assert(b.take(j as int) =~= b.take(j - 1).push(b[j - 1]));
    } else {
        let t = script(a, b, (i - 1) as nat, j);
        lemma_script_replays(a, b, (i - 1) as nat, j);
        assert(s.drop_last() =~= t);
        assert(source_of(s) =~= source_of(t).push(a[i - 1]));
        assert(target_of(s) =~= target_of(t));
        assert(a.take(i as int) =~= a.take(i - 1).push(a[i - 1]));
    }
}

} // verus!
