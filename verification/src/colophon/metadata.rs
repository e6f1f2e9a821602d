//! Commit metadata: narrative trailers appended to commit messages, the
//! builder of such messages, and the parser that reads trailers back.

use vstd::prelude::*;
use crate::ids::{AgentId, ArcId, MotifId, TensionId};
use crate::parse::{
    all_digits, find, first_at, is_ws, join, join_strings, parse_u64, parse_u64_str, split, split_str, trim,
    trim_end_matches, trim_end_matches_str, trim_start, trim_str,
};
use crate::text::{
    contains, dec, dec_pad, dec_pad_string, dec_string, ends_with, has_prefix, occurs_at, push_str, slice_chars,
    starts_with, views,
};
use super::ManuscriptColophon;

verus! {

/// The narrative trailer of a commit.
#[derive(Debug, PartialEq, Eq)]
pub struct NarrativeTrailer {
    pub chapter_number: u64,
    pub arc: ArcId,
    pub motifs: Vec<MotifId>,
    pub tensions_introduced: Vec<TensionId>,
    pub continuity_verified_by: Option<AgentId>,
}

/// The plain content of a trailer.
pub struct TrailerView {
    pub chapter: u64,
    pub arc: Seq<char>,
    pub motifs: Seq<Seq<char>>,
    pub tensions: Seq<Seq<char>>,
    pub continuity: Option<Seq<char>>,
}

impl View for NarrativeTrailer {
    type V = TrailerView;

    open spec fn view(&self) -> TrailerView {
        TrailerView {
            chapter: self.chapter_number,
            arc: self.arc@,
            motifs: self.motifs@.map_values(|m: MotifId| m@),
            tensions: self.tensions_introduced@.map_values(|t: TensionId| t@),
            continuity: match self.continuity_verified_by { Some(a) => Some(a@), None => None },
        }
    }
}

/// The trailer lines, each a `Key: value` line.
pub open spec fn trailer_line_seq(t: TrailerView) -> Seq<Seq<char>> {
    seq!["Chapter: "@ + dec(t.chapter as nat) + " of the "@ + t.arc + " arc"@]
        + (if t.motifs.len() > 0 { seq!["Motifs: "@ + join(t.motifs, ", "@)] } else { Seq::empty() })
        + t.tensions.map_values(|x: Seq<char>| "Tension-introduced: "@ + x)
        + (match t.continuity { Some(c) => seq!["Continuity: verified by "@ + c], None => Seq::empty() })
}

/// What one trimmed line of a message contributes to a trailer being read.
pub struct ReadState {
    pub chapter: Option<u64>,
    pub arc: Option<Seq<char>>,
    pub motifs: Seq<Seq<char>>,
    pub tensions: Seq<Seq<char>>,
    pub continuity: Option<Seq<char>>,
}

/// Nothing read yet.
pub open spec fn read_start() -> ReadState {
    ReadState { chapter: None, arc: None, motifs: Seq::empty(), tensions: Seq::empty(), continuity: None }
}

/// The state after reading one line: a chapter line sets the number (to
/// nothing when it does not parse) and, when it names an arc, the arc; a
/// motifs line replaces the motifs; a tension line adds a tension; a
/// continuity line sets the checker; any other line changes nothing.
pub open spec fn read_line(st: ReadState, raw: Seq<char>) -> ReadState {
    let l = trim(raw);
    if starts_with(l, "Chapter: "@) {
        let rest = l.skip("Chapter: "@.len() as int);
        if exists|i: int| first_at(rest, " of the "@, i) {
            let i = choose|i: int| first_at(rest, " of the "@, i);
            ReadState {
                chapter: parse_u64(trim(rest.take(i))),
                arc: Some(trim_end_matches(rest.skip(i + " of the "@.len()), " arc"@)),
                ..st
            }
        } else {
            ReadState { chapter: parse_u64(trim(rest)), ..st }
        }
    } else if starts_with(l, "Motifs: "@) {
        ReadState { motifs: split(l.skip("Motifs: "@.len() as int), ", "@).map_values(|m: Seq<char>| trim(m)), ..st }
    } else if starts_with(l, "Tension-introduced: "@) {
        ReadState { tensions: st.tensions.push(trim(l.skip("Tension-introduced: "@.len() as int))), ..st }
    } else if starts_with(l, "Continuity: verified by "@) {
        ReadState { continuity: Some(trim(l.skip("Continuity: verified by "@.len() as int))), ..st }
    } else {
        st
    }
}

/// The state after reading every line.
pub open spec fn read_lines(lines: Seq<Seq<char>>) -> ReadState
    decreases lines.len(),
{
    if lines.len() == 0 { read_start() } else { read_line(read_lines(lines.drop_last()), lines.last()) }
}

/// The trailer a message carries: present when a chapter number and an arc were read.
pub open spec fn trailer_of(message: Seq<char>) -> Option<TrailerView> {
    let st = read_lines(split(message, "\n"@));
    match (st.chapter, st.arc) {
        (Some(c), Some(a)) => Some(TrailerView { chapter: c, arc: a, motifs: st.motifs, tensions: st.tensions, continuity: st.continuity }),
        _ => None,
    }
}

/// `x` holds no `c`.
pub open spec fn lacks(x: Seq<char>, c: char) -> bool {
    forall|i: int| 0 <= i < x.len() ==> x[i] != c
}

/// A piece a trailer line can carry and give back: non-empty, trimmed, and
/// without a line break.
pub open spec fn clean(x: Seq<char>) -> bool {
    &&& x.len() > 0
    &&& trim(x) == x
    &&& lacks(x, '\n')
}

/// A trailer whose lines read back as written: the arc has no line break
/// and does not end in " arc"; motifs, tensions and the checker are clean,
/// and no motif contains the ", " that separates them.
pub open spec fn readable(t: TrailerView) -> bool {
    &&& lacks(t.arc, '\n')
    &&& !ends_with(t.arc, " arc"@)
    &&& forall|i: int| 0 <= i < t.motifs.len() ==> clean(#[trigger] t.motifs[i]) && !contains(t.motifs[i], ", "@)
    &&& forall|i: int| 0 <= i < t.tensions.len() ==> clean(#[trigger] t.tensions[i])
    &&& match t.continuity {
        Some(c) => clean(c),
        None => true,
    }
}

proof fn lemma_trim_kept(x: Seq<char>)
    requires
        x.len() > 0,
        !is_ws(x[0]),
        !is_ws(x.last()),
    ensures
        trim(x) == x,
{
    crate::parse::lemma_lead_ws(x, 0);
    assert(trim_start(x) =~= x);
    crate::parse::lemma_trail_ws(x, 0);
    assert(x.take(x.len() as int) =~= x);
}

proof fn lemma_lead_bound(s: Seq<char>)
    ensures
        crate::parse::lead_ws(s) <= s.len(),
    decreases s.len(),
{
    if s.len() > 0 {
        lemma_lead_bound(s.drop_first());
    }
}

proof fn lemma_trail_bound(s: Seq<char>)
    ensures
        crate::parse::trail_ws(s) <= s.len(),
    decreases s.len(),
{
    if s.len() > 0 {
        lemma_trail_bound(s.drop_last());
    }
}

/// A non-empty trimmed string has no white space at either end.
proof fn lemma_trimmed_ends(x: Seq<char>)
    requires
        x.len() > 0,
        trim(x) == x,
    ensures
        !is_ws(x[0]),
        !is_ws(x.last()),
{
    lemma_lead_bound(x);
    let t = trim_start(x);
    lemma_trail_bound(t);
    if is_ws(x[0]) {
        assert(crate::parse::lead_ws(x) >= 1);
        assert(trim(x).len() < x.len());
    }
    crate::parse::lemma_lead_ws(x, 0);
    assert(t =~= x);
    if is_ws(x.last()) {
        assert(crate::parse::trail_ws(t) >= 1);
        assert(trim(x).len() < x.len());
    }
}

proof fn lemma_lacks_contains(x: Seq<char>, c: char)
    requires
        lacks(x, c),
    ensures
        !contains(x, seq![c]),
{
    if contains(x, seq![c]) {
        let i = choose|i: int| occurs_at(x, seq![c], i);
        assert(x.subrange(i, i + 1)[0] == c);
    }
}

proof fn lemma_dec_digits(n: nat)
    ensures
        dec(n).len() >= 1,
        all_digits(dec(n)),
        crate::parse::digits_value(dec(n)) == n,
    decreases n,
{
    crate::text::lemma_dec_len_pos(n);
    crate::text::lemma_dec_pad_value(n, 0);
    assert(dec_pad(n, 0) == dec(n));
    if n >= 10 {
        lemma_dec_digits(n / 10);
        assert forall|i: int| 0 <= i < dec(n).len() implies crate::parse::is_digit(#[trigger] dec(n)[i]) by {
            if i < dec(n / 10).len() {
                assert(dec(n)[i] == dec(n / 10)[i]);
            }
        }
    }
}

proof fn lemma_join_last(s: Seq<Seq<char>>, sep: Seq<char>)
    requires
        s.len() >= 1,
        s.last().len() > 0,
    ensures
        join(s, sep).len() > 0,
        join(s, sep).last() == s.last().last(),
{
}

proof fn lemma_join_lacks(s: Seq<Seq<char>>, sep: Seq<char>, c: char)
    requires
        lacks(sep, c),
        forall|i: int| 0 <= i < s.len() ==> lacks(#[trigger] s[i], c),
    ensures
        lacks(join(s, sep), c),
    decreases s.len(),
{
    if s.len() > 1 {
        assert forall|i: int| 0 <= i < s.drop_last().len() implies lacks(#[trigger] s.drop_last()[i], c) by {
            assert(s.drop_last()[i] == s[i]);
        }
        lemma_join_lacks(s.drop_last(), sep, c);
        assert(lacks(s.last(), c));
    } else if s.len() == 1 {
        assert(lacks(s[0], c));
    }
}

proof fn lemma_read_chapter(st: ReadState, n: u64, arc: Seq<char>)
    requires
        !ends_with(arc, " arc"@),
    ensures
        read_line(st, "Chapter: "@ + dec(n as nat) + " of the "@ + arc + " arc"@) == (ReadState { chapter: Some(n), arc: Some(arc), ..st }),
{
    reveal_strlit("Chapter: ");
    reveal_strlit(" of the ");
    reveal_strlit(" arc");
    let d = dec(n as nat);
    lemma_dec_digits(n as nat);
    let l = "Chapter: "@ + d + " of the "@ + arc + " arc"@;
    assert(l[0] == 'C');
    assert(l.last() == 'c');
    lemma_trim_kept(l);
    assert(l.subrange(0, 9) =~= "Chapter: "@);
    assert(starts_with(l, "Chapter: "@));
    let rest = l.skip(9);
    assert(rest =~= d + " of the "@ + arc + " arc"@);
    assert(rest.subrange(d.len() as int, d.len() as int + 8) =~= " of the "@);
    assert(occurs_at(rest, " of the "@, d.len() as int));
    assert forall|j: int| 0 <= j < d.len() implies !occurs_at(rest, " of the "@, j) by {
        if occurs_at(rest, " of the "@, j) {
            assert(rest.subrange(j, j + 8)[0] == ' ');
            assert(rest[j] == d[j]);
            assert(crate::parse::is_digit(d[j]));
        }
    }
    assert(first_at(rest, " of the "@, d.len() as int));
    crate::parse::lemma_first_unique(rest, " of the "@, d.len() as int);
    assert(rest.take(d.len() as int) =~= d);
    assert(crate::parse::is_digit(d[0]));
    assert(crate::parse::is_digit(d[d.len() - 1]));
    lemma_trim_kept(d);
    assert(parse_u64(d) == Some(n));
    let after = rest.skip(d.len() as int + 8);
    assert(after =~= arc + " arc"@);
    let whole = arc + " arc"@;
    assert(whole.subrange(whole.len() - 4, whole.len() as int) =~= " arc"@);
    assert(whole.subrange(0, whole.len() - 4) =~= arc);
    assert(trim_end_matches(whole, " arc"@) == trim_end_matches(arc, " arc"@));
    assert(trim_end_matches(arc, " arc"@) == arc);
}

proof fn lemma_read_tension(st: ReadState, x: Seq<char>)
    requires
        clean(x),
    ensures
        read_line(st, "Tension-introduced: "@ + x) == (ReadState { tensions: st.tensions.push(x), ..st }),
{
    reveal_strlit("Chapter: ");
    reveal_strlit("Motifs: ");
    reveal_strlit("Tension-introduced: ");
    let l = "Tension-introduced: "@ + x;
    lemma_trimmed_ends(x);
    assert(l[0] == 'T');
    assert(l.last() == x.last());
    lemma_trim_kept(l);
    lemma_trim_kept(x);
    assert(l.subrange(0, 9)[0] == 'T');
    assert(!starts_with(l, "Chapter: "@));
    assert(l.subrange(0, 8)[0] == 'T');
    assert(!starts_with(l, "Motifs: "@));
    assert(l.subrange(0, 20) =~= "Tension-introduced: "@);
    assert(l.skip(20) =~= x);
}

proof fn lemma_read_continuity(st: ReadState, x: Seq<char>)
    requires
        clean(x),
    ensures
        read_line(st, "Continuity: verified by "@ + x) == (ReadState { continuity: Some(x), ..st }),
{
    reveal_strlit("Chapter: ");
    reveal_strlit("Motifs: ");
    reveal_strlit("Tension-introduced: ");
    reveal_strlit("Continuity: verified by ");
    let l = "Continuity: verified by "@ + x;
    lemma_trimmed_ends(x);
    assert(l[0] == 'C');
    assert(l.last() == x.last());
    lemma_trim_kept(l);
    lemma_trim_kept(x);
    assert(l.subrange(0, 9)[1] == 'o');
    assert(!starts_with(l, "Chapter: "@));
    assert(l.subrange(0, 8)[0] == 'C');
    assert(!starts_with(l, "Motifs: "@));
    assert(l.subrange(0, 20)[0] == 'C');
    assert(!starts_with(l, "Tension-introduced: "@));
    assert(l.subrange(0, 24) =~= "Continuity: verified by "@);
    assert(l.skip(24) =~= x);
}

proof fn lemma_read_motifs(st: ReadState, ms: Seq<Seq<char>>)
    requires
        ms.len() > 0,
        forall|i: int| 0 <= i < ms.len() ==> clean(#[trigger] ms[i]) && !contains(ms[i], ", "@),
    ensures
        read_line(st, "Motifs: "@ + join(ms, ", "@)) == (ReadState { motifs: ms, ..st }),
{
    reveal_strlit("Chapter: ");
    reveal_strlit("Motifs: ");
    reveal_strlit(", ");
    let j = join(ms, ", "@);
    let l = "Motifs: "@ + j;
    assert(clean(ms.last()));
    lemma_trimmed_ends(ms.last());
    lemma_join_last(ms, ", "@);
    assert(l[0] == 'M');
    assert(l.last() == ms.last().last());
    lemma_trim_kept(l);
    assert(l.subrange(0, 9)[0] == 'M');
    assert(!starts_with(l, "Chapter: "@));
    assert(l.subrange(0, 8) =~= "Motifs: "@);
    assert(l.skip(8) =~= j);
    assert(crate::parse::unbordered(", "@)) by {
        assert forall|d: int| 1 <= d < ", "@.len() implies #[trigger] ", "@.subrange(0, ", "@.len() - d) != ", "@.subrange(d, ", "@.len() as int) by {
            assert(", "@.subrange(0, 1)[0] == ',');
            assert(", "@.subrange(1, 2)[0] == ' ');
        }
    }
    crate::parse::lemma_split_join(ms, ", "@);
    assert forall|i: int| 0 <= i < ms.len() implies trim(#[trigger] ms[i]) == ms[i] by {
        assert(clean(ms[i]));
    }
    assert(split(j, ", "@).map_values(|m: Seq<char>| trim(m)) =~= ms);
}

proof fn lemma_read_tensions(base: Seq<Seq<char>>, ts: Seq<Seq<char>>)
    requires
        forall|i: int| 0 <= i < ts.len() ==> clean(#[trigger] ts[i]),
    ensures
        read_lines(base + ts.map_values(|x: Seq<char>| "Tension-introduced: "@ + x))
            == (ReadState { tensions: read_lines(base).tensions + ts, ..read_lines(base) }),
    decreases ts.len(),
{
    let all = base + ts.map_values(|x: Seq<char>| "Tension-introduced: "@ + x);
    if ts.len() == 0 {
        assert(all =~= base);
        assert(read_lines(base).tensions + ts =~= read_lines(base).tensions);
    } else {
        let d = ts.drop_last();
        assert forall|i: int| 0 <= i < d.len() implies clean(#[trigger] d[i]) by {
            assert(d[i] == ts[i]);
        }
        lemma_read_tensions(base, d);
        let pre = base + d.map_values(|x: Seq<char>| "Tension-introduced: "@ + x);
        assert(all.drop_last() =~= pre);
        assert(all.last() == "Tension-introduced: "@ + ts.last());
        assert(clean(ts[ts.len() - 1]));
        lemma_read_tension(read_lines(pre), ts.last());
        assert(read_lines(base).tensions + d + seq![ts.last()] =~= read_lines(base).tensions + ts);
        assert((read_lines(base).tensions + d).push(ts.last()) =~= read_lines(base).tensions + ts);
    }
}

/// The lines of a readable trailer come back whole when split at line breaks.
proof fn lemma_trailer_split(t: TrailerView)
    requires
        readable(t),
    ensures
        split(join(trailer_line_seq(t), "\n"@), "\n"@) == trailer_line_seq(t),
{
    reveal_strlit("Chapter: ");
    reveal_strlit(" of the ");
    reveal_strlit(" arc");
    reveal_strlit("Motifs: ");
    reveal_strlit(", ");
    reveal_strlit("Tension-introduced: ");
    reveal_strlit("Continuity: verified by ");
    reveal_strlit("\n");
    let lines = trailer_line_seq(t);
    let chap = "Chapter: "@ + dec(t.chapter as nat) + " of the "@ + t.arc + " arc"@;
    let mpart = if t.motifs.len() > 0 { seq!["Motifs: "@ + join(t.motifs, ", "@)] } else { Seq::<Seq<char>>::empty() };
    let tpart = t.tensions.map_values(|x: Seq<char>| "Tension-introduced: "@ + x);
    let cpart = match t.continuity { Some(c) => seq!["Continuity: verified by "@ + c], None => Seq::<Seq<char>>::empty() };
    assert(lines == seq![chap] + mpart + tpart + cpart);
    lemma_dec_digits(t.chapter as nat);
    assert(lacks(chap, '\n')) by {
        assert forall|i: int| 0 <= i < chap.len() implies chap[i] != '\n' by {
            let d = dec(t.chapter as nat);
            if 9 <= i < 9 + d.len() {
                assert(chap[i] == d[i - 9]);
                assert(crate::parse::is_digit(d[i - 9]));
            }
            if 9 + d.len() + 8 <= i < 9 + d.len() + 8 + t.arc.len() {
                assert(chap[i] == t.arc[i - 9 - d.len() - 8]);
            }
        }
    }
    assert forall|i: int| 0 <= i < lines.len() implies lacks(#[trigger] lines[i], '\n') by {
        if i == 0 {
            assert(lines[0] == chap);
        } else if i < 1 + mpart.len() {
            assert(lines[i] == "Motifs: "@ + join(t.motifs, ", "@));
            assert forall|k: int| 0 <= k < t.motifs.len() implies lacks(#[trigger] t.motifs[k], '\n') by {
                assert(clean(t.motifs[k]));
            }
            lemma_join_lacks(t.motifs, ", "@, '\n');
        } else if i < 1 + mpart.len() + tpart.len() {
            let k = i - 1 - mpart.len();
            assert(lines[i] == "Tension-introduced: "@ + t.tensions[k]);
            assert(clean(t.tensions[k]));
        } else {
            assert(lines[i] == cpart[i - 1 - mpart.len() - tpart.len()]);
        }
    }
    assert forall|i: int| 0 <= i < lines.len() implies !contains(#[trigger] lines[i], "\n"@) by {
        assert(lacks(lines[i], '\n'));
        lemma_lacks_contains(lines[i], '\n');
        assert("\n"@ =~= seq!['\n']);
    }
    assert(crate::parse::unbordered("\n"@));
    crate::parse::lemma_split_join(lines, "\n"@);
}

/// Reading the lines of a readable trailer gives its parts.
proof fn lemma_trailer_read(t: TrailerView)
    requires
        readable(t),
    ensures
        read_lines(trailer_line_seq(t)) == (ReadState {
            chapter: Some(t.chapter),
            arc: Some(t.arc),
            motifs: t.motifs,
            tensions: t.tensions,
            continuity: t.continuity,
        }),
{
    reveal_strlit("Chapter: ");
    reveal_strlit(" of the ");
    reveal_strlit(" arc");
    reveal_strlit("Motifs: ");
    reveal_strlit(", ");
    reveal_strlit("Tension-introduced: ");
    reveal_strlit("Continuity: verified by ");
    let lines = trailer_line_seq(t);
    let chap = "Chapter: "@ + dec(t.chapter as nat) + " of the "@ + t.arc + " arc"@;
    let mpart = if t.motifs.len() > 0 { seq!["Motifs: "@ + join(t.motifs, ", "@)] } else { Seq::<Seq<char>>::empty() };
    let tpart = t.tensions.map_values(|x: Seq<char>| "Tension-introduced: "@ + x);
    let cpart = match t.continuity { Some(c) => seq!["Continuity: verified by "@ + c], None => Seq::<Seq<char>>::empty() };
    assert(lines == seq![chap] + mpart + tpart + cpart);
    let b0 = seq![chap];
    assert(b0.drop_last() =~= Seq::<Seq<char>>::empty());
    assert(b0.last() == chap);
    assert(read_lines(b0.drop_last()) == read_start());
    lemma_read_chapter(read_start(), t.chapter, t.arc);
    let s0 = read_lines(b0);
    assert(s0 == (ReadState { chapter: Some(t.chapter), arc: Some(t.arc), ..read_start() }));
    let b1 = b0 + mpart;
    if t.motifs.len() > 0 {
        assert(b1.drop_last() =~= b0);
        assert(b1.last() == "Motifs: "@ + join(t.motifs, ", "@));
        lemma_read_motifs(s0, t.motifs);
    } else {
        assert(b1 =~= b0);
        assert(t.motifs =~= Seq::<Seq<char>>::empty());
    }
    assert(read_lines(b1) == (ReadState { motifs: t.motifs, ..s0 }));
    lemma_read_tensions(b1, t.tensions);
    let b2 = b1 + tpart;
    assert(read_lines(b1).tensions + t.tensions =~= t.tensions);
    assert(read_lines(b2) == (ReadState { motifs: t.motifs, tensions: t.tensions, ..s0 }));
    let b3 = b2 + cpart;
    match t.continuity {
        Some(c) => {
            assert(b3.drop_last() =~= b2);
            assert(b3.last() == "Continuity: verified by "@ + c);
            lemma_read_continuity(read_lines(b2), c);
        },
        None => {
            assert(b3 =~= b2);
        },
    }
    assert(b3 =~= lines);
}

/// Reading back the trailer lines that `to_trailer_lines` writes gives the
/// trailer again, for every trailer whose pieces are `readable`.
pub proof fn lemma_trailer_round_trip(t: TrailerView)
    requires
        readable(t),
    ensures
        trailer_of(join(trailer_line_seq(t), "\n"@)) == Some(t),
{
    lemma_trailer_split(t);
    lemma_trailer_read(t);
}

/// A trimmed line that starts with "Chapter: " and names an arc after " of the ".
pub open spec fn names_arc(raw: Seq<char>) -> bool {
    let l = trim(raw);
    starts_with(l, "Chapter: "@) && exists|i: int| first_at(l.skip("Chapter: "@.len() as int), " of the "@, i)
}

proof fn lemma_no_arc_read(ls: Seq<Seq<char>>)
    requires
        forall|i: int| 0 <= i < ls.len() ==> !names_arc(#[trigger] ls[i]),
    ensures
        read_lines(ls).arc is None,
    decreases ls.len(),
{
    if ls.len() > 0 {
        let d = ls.drop_last();
        assert forall|i: int| 0 <= i < d.len() implies !names_arc(#[trigger] d[i]) by {
            assert(d[i] == ls[i]);
        }
        lemma_no_arc_read(d);
        assert(!names_arc(ls[ls.len() - 1]));
    }
}

/// A message none of whose lines is a chapter line naming an arc carries no
/// trailer.
pub proof fn lemma_no_chapter_no_trailer(message: Seq<char>)
    requires
        forall|i: int| 0 <= i < split(message, "\n"@).len() ==> !names_arc(#[trigger] split(message, "\n"@)[i]),
    ensures
        trailer_of(message) is None,
{
    lemma_no_arc_read(split(message, "\n"@));
}

/// The view of an optional trailer.
pub open spec fn opt_trailer(t: Option<NarrativeTrailer>) -> Option<TrailerView> {
    match t {
        Some(x) => Some(x@),
        None => None,
    }
}

fn motif_strings(v: &Vec<MotifId>) -> (r: Vec<String>)
    ensures
        views(r@) == v@.map_values(|m: MotifId| m@),
{
    let mut out: Vec<String> = Vec::new();
    let mut i: usize = 0;
    while i < v.len()
        invariant
            i <= v@.len(),
            views(out@) == v@.map_values(|m: MotifId| m@).take(i as int),
        decreases v@.len() - i,
    {
        let ghost before = views(out@);
        out.push(v[i].0.clone());
        assert(views(out@) =~= before.push(v@[i as int]@));
        assert(v@.map_values(|m: MotifId| m@).take(i + 1) =~= v@.map_values(|m: MotifId| m@).take(i as int).push(v@[i as int]@));
        i = i + 1;
    }
    assert(v@.map_values(|m: MotifId| m@).take(v@.len() as int) =~= v@.map_values(|m: MotifId| m@));
    out
}

fn clone_motifs(v: &Vec<MotifId>) -> (r: Vec<MotifId>)
    ensures
        r@ == v@,
{
    let mut out: Vec<MotifId> = Vec::new();
    let mut i: usize = 0;
    while i < v.len()
        invariant
            i <= v@.len(),
            out@ == v@.take(i as int),
        decreases v@.len() - i,
    {
        out.push(v[i].clone());
        assert(out@ =~= v@.take(i + 1));
        i = i + 1;
    }
    assert(v@.take(v@.len() as int) =~= v@);
    out
}

fn clone_tensions(v: &Vec<TensionId>) -> (r: Vec<TensionId>)
    ensures
        r@ == v@,
{
    let mut out: Vec<TensionId> = Vec::new();
    let mut i: usize = 0;
    while i < v.len()
        invariant
            i <= v@.len(),
            out@ == v@.take(i as int),
        decreases v@.len() - i,
    {
        out.push(v[i].clone());
        assert(out@ =~= v@.take(i + 1));
        i = i + 1;
    }
    assert(v@.take(v@.len() as int) =~= v@);
    out
}

impl NarrativeTrailer {
    /// The trailer of a manuscript colophon.
    pub fn from_colophon(colophon: &ManuscriptColophon) -> (t: Self)
        ensures
            t.chapter_number == colophon.chapter_number,
            t.arc == colophon.arc,
            t.motifs@ == colophon.motifs@,
            t.tensions_introduced@ == colophon.tensions_introduced@,
            t.continuity_verified_by == colophon.continuity_verified_by,
    {
        NarrativeTrailer {
            chapter_number: colophon.chapter_number,
            arc: colophon.arc.clone(),
            motifs: clone_motifs(&colophon.motifs),
            tensions_introduced: clone_tensions(&colophon.tensions_introduced),
            continuity_verified_by: match &colophon.continuity_verified_by {
                Some(a) => Some(a.clone()),
                None => None,
            },
        }
    }

    /// The trailer as lines: the chapter, the motifs if any, one line per
    /// tension, and the continuity checker if any.
    pub fn to_trailer_lines(&self) -> (s: String)
        ensures
            s@ == join(trailer_line_seq(self@), "\n"@),
    {
        proof {
            reveal_strlit("Chapter: ");
            reveal_strlit(" of the ");
            reveal_strlit(" arc");
            reveal_strlit("Motifs: ");
            reveal_strlit(", ");
            reveal_strlit("Tension-introduced: ");
            reveal_strlit("Continuity: verified by ");
            reveal_strlit("");
        }
        let mut lines: Vec<String> = Vec::new();
        let mut first = String::new();
        push_str(&mut first, "Chapter: ");
        let n = dec_string(self.chapter_number);
        push_str(&mut first, n.as_str());
        push_str(&mut first, " of the ");
        push_str(&mut first, self.arc.0.as_str());
        push_str(&mut first, " arc");
        let ghost fv = first@;
        lines.push(first);
        assert(views(lines@) =~= seq![fv]);
        let ghost mpart = if self@.motifs.len() > 0 { seq!["Motifs: "@ + join(self@.motifs, ", "@)] } else { Seq::<Seq<char>>::empty() };
        if self.motifs.len() > 0 {
            let names = motif_strings(&self.motifs);
            let joined = join_strings(&names, ", ");
            let mut m = String::new();
            push_str(&mut m, "Motifs: ");
            push_str(&mut m, joined.as_str());
            let ghost mv = m@;
            lines.push(m);
            assert(views(lines@) =~= seq![fv] + seq![mv]);
        } else {
            assert(views(lines@) =~= seq![fv] + mpart);
        }
        let ghost b = views(lines@);
        assert(b == seq![fv] + mpart);
        let ghost ts = self@.tensions;
        let mut i: usize = 0;
        while i < self.tensions_introduced.len()
            invariant
                i <= self.tensions_introduced@.len(),
                ts == self@.tensions,
                views(lines@) == b + ts.take(i as int).map_values(|x: Seq<char>| "Tension-introduced: "@ + x),
            decreases self.tensions_introduced@.len() - i,
        {
            let mut t = String::new();
            push_str(&mut t, "Tension-introduced: ");
            push_str(&mut t, self.tensions_introduced[i].0.as_str());
            let ghost before = views(lines@);
            lines.push(t);
            assert(views(lines@) =~= before.push("Tension-introduced: "@ + ts[i as int]));
            assert(ts.take(i + 1).map_values(|x: Seq<char>| "Tension-introduced: "@ + x) =~= ts.take(i as int).map_values(|x: Seq<char>| "Tension-introduced: "@ + x).push("Tension-introduced: "@ + ts[i as int]));
            i = i + 1;
        }
        assert(ts.take(ts.len() as int) =~= ts);
        let ghost c_lines = views(lines@);
        match &self.continuity_verified_by {
            Some(c) => {
                let mut l = String::new();
                push_str(&mut l, "Continuity: verified by ");
                push_str(&mut l, c.0.as_str());
                let ghost lv = l@;
                lines.push(l);
                assert(views(lines@) =~= c_lines.push(lv));
            },
            None => {},
        }
        assert(views(lines@) =~= trailer_line_seq(self@));
        join_strings(&lines, "\n")
    }

    /// Read the trailer carried by a commit message; `None` unless the
    /// message has a chapter line with a number and an arc.
    pub fn parse_from_message(message: &str) -> (r: Option<NarrativeTrailer>)
        ensures
            opt_trailer(r) == trailer_of(message@),
    {
        proof {
            reveal_strlit("\n");
        }
        let pieces = split_str(message, "\n");
        let ghost ls = views(pieces@);
        let mut chapter: Option<u64> = None;
        let mut arc: Option<String> = None;
        let mut motifs: Vec<MotifId> = Vec::new();
        let mut tensions: Vec<TensionId> = Vec::new();
        let mut continuity: Option<AgentId> = None;
        let mut i: usize = 0;
        proof {
            assert(ls.take(0) =~= Seq::<Seq<char>>::empty());
            assert(motifs@.map_values(|m: MotifId| m@) =~= Seq::<Seq<char>>::empty());
            assert(tensions@.map_values(|t: TensionId| t@) =~= Seq::<Seq<char>>::empty());
        }
        while i < pieces.len()
            invariant
                i <= pieces@.len(),
                ls == views(pieces@),
                ls == split(message@, "\n"@),
                read_lines(ls.take(i as int)) == (ReadState {
                    chapter,
                    arc: match arc { Some(a) => Some(a@), None => None },
                    motifs: motifs@.map_values(|m: MotifId| m@),
                    tensions: tensions@.map_values(|t: TensionId| t@),
                    continuity: match continuity { Some(c) => Some(c@), None => None },
                }),
            decreases pieces@.len() - i,
        {
            proof {
                assert(ls.take(i + 1).drop_last() =~= ls.take(i as int));
                assert(ls.take(i + 1).last() == pieces@[i as int]@);
                reveal_strlit("Chapter: ");
                reveal_strlit(" of the ");
                reveal_strlit(" arc");
                reveal_strlit("Motifs: ");
                reveal_strlit(", ");
                reveal_strlit("Tension-introduced: ");
                reveal_strlit("Continuity: verified by ");
            }
            let line = trim_str(pieces[i].as_str());
            let n = line.unicode_len();
            if has_prefix(line.as_str(), "Chapter: ") {
                let rest = slice_chars(line.as_str(), 9, n);
                assert(rest@ =~= line@.skip(9));
                match find(rest.as_str(), " of the ") {
                    Some(k) => {
                        let head = slice_chars(rest.as_str(), 0, k);
                        let head_t = trim_str(head.as_str());
                        chapter = parse_u64_str(head_t.as_str());
                        let tail = slice_chars(rest.as_str(), k + 8, rest.unicode_len());
                        let a = trim_end_matches_str(tail.as_str(), " arc");
                        proof {
                            let c = choose|j: int| first_at(rest@, " of the "@, j);
                            if c < k { assert(!crate::text::occurs_at(rest@, " of the "@, c)); }
                            if c > k { assert(!crate::text::occurs_at(rest@, " of the "@, k as int)); }
                            assert(head@ =~= rest@.take(k as int));
                            assert(tail@ =~= rest@.skip(k + 8));
                        }
                        arc = Some(a);
                    },
                    None => {
                        let t = trim_str(rest.as_str());
                        chapter = parse_u64_str(t.as_str());
                    },
                }
            } else if has_prefix(line.as_str(), "Motifs: ") {
                let rest = slice_chars(line.as_str(), 8, n);
                assert(rest@ =~= line@.skip(8));
                let parts = split_str(rest.as_str(), ", ");
                let ghost pv = views(parts@);
                let mut ms: Vec<MotifId> = Vec::new();
                let mut j: usize = 0;
                while j < parts.len()
                    invariant
                        j <= parts@.len(),
                        pv == views(parts@),
                        ms@.map_values(|m: MotifId| m@) == pv.take(j as int).map_values(|m: Seq<char>| trim(m)),
                    decreases parts@.len() - j,
                {
                    let t = trim_str(parts[j].as_str());
                    let ghost before = ms@;
                    ms.push(MotifId(t));
                    assert(ms@.map_values(|m: MotifId| m@) =~= before.map_values(|m: MotifId| m@).push(trim(pv[j as int])));
                    assert(pv.take(j + 1).map_values(|m: Seq<char>| trim(m)) =~= pv.take(j as int).map_values(|m: Seq<char>| trim(m)).push(trim(pv[j as int])));
                    j = j + 1;
                }
                assert(pv.take(pv.len() as int) =~= pv);
                motifs = ms;
            } else if has_prefix(line.as_str(), "Tension-introduced: ") {
                let rest = slice_chars(line.as_str(), 20, n);
                assert(rest@ =~= line@.skip(20));
                let t = trim_str(rest.as_str());
                let ghost before = tensions@;
                tensions.push(TensionId(t));
                assert(tensions@.map_values(|x: TensionId| x@) =~= before.map_values(|x: TensionId| x@).push(trim(line@.skip(20))));
            } else if has_prefix(line.as_str(), "Continuity: verified by ") {
                let rest = slice_chars(line.as_str(), 24, n);
                assert(rest@ =~= line@.skip(24));
                let t = trim_str(rest.as_str());
                continuity = Some(AgentId(t));
            }
            i = i + 1;
        }
        assert(ls.take(ls.len() as int) =~= ls);
        match (chapter, arc) {
            (Some(c), Some(a)) => Some(NarrativeTrailer {
                chapter_number: c,
                arc: ArcId(a),
                motifs,
                tensions_introduced: tensions,
                continuity_verified_by: continuity,
            }),
            _ => None,
        }
    }
}

/// Building a message without a title.
#[derive(Debug, Clone, Copy, PartialEq, Eq, Structural)]
pub enum MessageError {
    MissingTitle,
}

impl MessageError {
    /// The error as a sentence.
    pub fn message(&self) -> (s: String)
        ensures
            s@ == "Commit message requires a title"@,
    {
        "Commit message requires a title".to_owned()
    }
}

/// A commit message: the head, then the body paragraphs, then the trailer
/// block, each separated by a blank line; empty parts are left out.
pub open spec fn message_text(head: Seq<char>, body: Seq<Seq<char>>, trailers: Seq<Seq<char>>) -> Seq<char> {
    head + (if body.len() > 0 { "\n\n"@ + join(body, "\n\n"@) } else { Seq::empty() })
        + (if trailers.len() > 0 { "\n\n"@ + join(trailers, "\n"@) } else { Seq::empty() })
}

/// `key: value` lines.
pub open spec fn pair_lines(extra: Seq<(Seq<char>, Seq<char>)>) -> Seq<Seq<char>> {
    extra.map_values(|p: (Seq<char>, Seq<char>)| p.0 + ": "@ + p.1)
}

/// The view of key/value pairs.
pub open spec fn pair_views(v: Seq<(String, String)>) -> Seq<(Seq<char>, Seq<char>)> {
    v.map_values(|p: (String, String)| (p.0@, p.1@))
}

/// Assemble a message from its head, body and trailer lines.
pub fn compose_message(head: &str, body: &Vec<String>, trailers: &Vec<String>) -> (s: String)
    ensures
        s@ == message_text(head@, views(body@), views(trailers@)),
{
    proof {
        reveal_strlit("\n\n");
        reveal_strlit("\n");
        reveal_strlit("");
    }
    let mut m = String::new();
    push_str(&mut m, head);
    if body.len() > 0 {
        push_str(&mut m, "\n\n");
        let b = join_strings(body, "\n\n");
        push_str(&mut m, b.as_str());
    }
    if trailers.len() > 0 {
        push_str(&mut m, "\n\n");
        let t = join_strings(trailers, "\n");
        push_str(&mut m, t.as_str());
    }
    m
}

/// `key: value` for each pair, in order.
pub fn pair_strings(extra: &Vec<(String, String)>) -> (r: Vec<String>)
    ensures
        views(r@) == pair_lines(pair_views(extra@)),
{
    proof { reveal_strlit(": "); }
    let mut out: Vec<String> = Vec::new();
    let mut i: usize = 0;
    while i < extra.len()
        invariant
            i <= extra@.len(),
            views(out@) == pair_lines(pair_views(extra@)).take(i as int),
        decreases extra@.len() - i,
    {
        let mut l = String::new();
        push_str(&mut l, extra[i].0.as_str());
        push_str(&mut l, ": ");
        push_str(&mut l, extra[i].1.as_str());
        let ghost before = views(out@);
        let ghost lv = l@;
        out.push(l);
        assert(views(out@) =~= before.push(lv));
        assert(pair_lines(pair_views(extra@)).take(i + 1) =~= pair_lines(pair_views(extra@)).take(i as int).push(lv));
        i = i + 1;
    }
    assert(pair_lines(pair_views(extra@)).take(extra@.len() as int) =~= pair_lines(pair_views(extra@)));
    out
}

/// Builds a commit message with a narrative trailer.
pub struct CommitMessageBuilder {
    title: Option<String>,
    body: Vec<String>,
    trailer: Option<NarrativeTrailer>,
    extra_trailers: Vec<(String, String)>,
}

/// The plain content of a builder.
pub struct BuilderView {
    pub title: Option<Seq<char>>,
    pub body: Seq<Seq<char>>,
    pub trailer: Option<TrailerView>,
    pub extra: Seq<(Seq<char>, Seq<char>)>,
}

impl View for CommitMessageBuilder {
    type V = BuilderView;

    closed spec fn view(&self) -> BuilderView {
        BuilderView {
            title: match self.title { Some(t) => Some(t@), None => None },
            body: views(self.body@),
            trailer: opt_trailer(self.trailer),
            extra: pair_views(self.extra_trailers@),
        }
    }
}

/// The message a builder produces, when it has a title.
pub open spec fn built(b: BuilderView) -> Option<Seq<char>> {
    match b.title {
        Some(t) => Some(message_text(
            t,
            b.body,
            (match b.trailer { Some(tr) => seq![join(trailer_line_seq(tr), "\n"@)], None => Seq::empty() }) + pair_lines(b.extra),
        )),
        None => None,
    }
}

impl Default for CommitMessageBuilder {
    fn default() -> (b: Self)
        ensures
            b@ == (BuilderView { title: None, body: Seq::empty(), trailer: None, extra: Seq::empty() }),
    {
        CommitMessageBuilder::new()
    }
}

impl CommitMessageBuilder {
    /// An empty builder.
    pub fn new() -> (b: Self)
        ensures
            b@ == (BuilderView { title: None, body: Seq::empty(), trailer: None, extra: Seq::empty() }),
    {
        let b = CommitMessageBuilder { title: None, body: Vec::new(), trailer: None, extra_trailers: Vec::new() };
        assert(views(b.body@) =~= Seq::<Seq<char>>::empty());
        assert(pair_views(b.extra_trailers@) =~= Seq::<(Seq<char>, Seq<char>)>::empty());
        b
    }

    /// Set the title.
    pub fn with_title(self, title: &str) -> (b: Self)
        ensures
            b@ == (BuilderView { title: Some(title@), ..self@ }),
    {
        let mut s = self;
        s.title = Some(title.to_owned());
        s
    }

    /// Add a body paragraph.
    pub fn with_body(self, paragraph: &str) -> (b: Self)
        ensures
            b@ == (BuilderView { body: self@.body.push(paragraph@), ..self@ }),
    {
        let mut s = self;
        let ghost before = s.body@;
        s.body.push(paragraph.to_owned());
        assert(views(s.body@) =~= views(before).push(paragraph@));
        s
    }

    /// Set the narrative trailer.
    pub fn with_trailer(self, trailer: NarrativeTrailer) -> (b: Self)
        ensures
            b@ == (BuilderView { trailer: Some(trailer@), ..self@ }),
    {
        let mut s = self;
        s.trailer = Some(trailer);
        s
    }

    /// Add a `key: value` trailer line.
    pub fn with_extra_trailer(self, key: &str, value: &str) -> (b: Self)
        ensures
            b@ == (BuilderView { extra: self@.extra.push((key@, value@)), ..self@ }),
    {
        let mut s = self;
        let ghost before = s.extra_trailers@;
        s.extra_trailers.push((key.to_owned(), value.to_owned()));
        assert(pair_views(s.extra_trailers@) =~= pair_views(before).push((key@, value@)));
        s
    }

    /// The message: the title, the body paragraphs, then the narrative
    /// trailer and the extra trailer lines; an error without a title.
    pub fn build(self) -> (r: Result<String, MessageError>)
        ensures
            match r {
                Ok(m) => built(self@) == Some(m@),
                Err(e) => built(self@) is None && e == MessageError::MissingTitle,
            },
    {
        let title = match self.title {
            Some(t) => t,
            None => {
                return Err(MessageError::MissingTitle);
            },
        };
        let mut trailers: Vec<String> = Vec::new();
        match &self.trailer {
            Some(t) => {
                let tl = t.to_trailer_lines();
                let ghost tv = tl@;
                trailers.push(tl);
                assert(views(trailers@) =~= seq![tv]);
            },
            None => {
                assert(views(trailers@) =~= Seq::<Seq<char>>::empty());
            },
        }
        let ghost pre = views(trailers@);
        let extra = pair_strings(&self.extra_trailers);
        let mut i: usize = 0;
        while i < extra.len()
            invariant
                i <= extra@.len(),
                views(trailers@) == pre + views(extra@).take(i as int),
            decreases extra@.len() - i,
        {
            let ghost before = views(trailers@);
            trailers.push(extra[i].clone());
            assert(views(trailers@) =~= before.push(extra@[i as int]@));
            assert(views(extra@).take(i + 1) =~= views(extra@).take(i as int).push(extra@[i as int]@));
            assert(views(trailers@) =~= pre + views(extra@).take(i + 1));
            i = i + 1;
        }
        assert(views(extra@).take(extra@.len() as int) =~= views(extra@));
        let r = compose_message(title.as_str(), &self.body, &trailers);
        assert(views(trailers@) =~= (match self@.trailer { Some(tr) => seq![join(trailer_line_seq(tr), "\n"@)], None => Seq::<Seq<char>>::empty() }) + pair_lines(self@.extra));
        Ok(r)
    }
}

/// `chapter/<arc>/<nnn>`, with `.<ddd>` for the chapter it depends on.
pub open spec fn branch_text(arc: Seq<char>, chapter: u64, depends_on: Option<u64>) -> Seq<char> {
    "chapter/"@ + arc + "/"@ + dec_pad(chapter as nat, 3) + match depends_on {
        Some(d) => "."@ + dec_pad(d as nat, 3),
        None => Seq::empty(),
    }
}

/// The branch of a chapter.
pub fn branch_name(arc: &ArcId, chapter_number: u64, depends_on: Option<u64>) -> (s: String)
    ensures
        s@ == branch_text(arc@, chapter_number, depends_on),
{
    proof {
        reveal_strlit("chapter/");
        reveal_strlit("/");
        reveal_strlit(".");
        reveal_strlit("");
    }
    let mut s = String::new();
    push_str(&mut s, "chapter/");
    push_str(&mut s, arc.0.as_str());
    push_str(&mut s, "/");
    let n = dec_pad_string(chapter_number, 3);
    push_str(&mut s, n.as_str());
    match depends_on {
        Some(d) => {
            push_str(&mut s, ".");
            let m = dec_pad_string(d, 3);
            push_str(&mut s, m.as_str());
        },
        None => {},
    }
    s
}

/// The narrative trailer of a commit message.
pub fn extract_metadata(commit_message: &str) -> (r: Option<NarrativeTrailer>)
    ensures
        opt_trailer(r) == trailer_of(commit_message@),
{
    NarrativeTrailer::parse_from_message(commit_message)
}

} // verus!
