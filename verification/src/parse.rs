//! String handling for the text formats of the crate: finding, splitting,
//! trimming and decimal parsing.

use vstd::prelude::*;
use crate::text::{chars_of, dec, occurs_at, occurs_at_vec, push_char, slice_chars, string_of};

verus! {

/// The first position at which `needle` occurs in `hay`, if any.
pub open spec fn first_at(hay: Seq<char>, needle: Seq<char>, i: int) -> bool {
    occurs_at(hay, needle, i) && forall|j: int| 0 <= j < i ==> !occurs_at(hay, needle, j)
}

/// `needle` does not occur in `hay`.
pub open spec fn nowhere(hay: Seq<char>, needle: Seq<char>) -> bool {
    forall|j: int| !occurs_at(hay, needle, j)
}

/// The first position at which `needle` occurs in `hay`.
pub fn find(hay: &str, needle: &str) -> (r: Option<usize>)
    ensures
        match r {
            Some(i) => first_at(hay@, needle@, i as int),
            None => nowhere(hay@, needle@),
        },
{
    let h = chars_of(hay);
    let n = chars_of(needle);
    if n.len() > h.len() {
        return None;
    }
    let last = h.len() - n.len();
    let mut i: usize = 0;
    while i < last
        invariant
            n.len() <= h.len(),
            last == h.len() - n.len(),
            i <= last,
            h@ == hay@,
            n@ == needle@,
            forall|k: int| 0 <= k < i ==> !occurs_at(hay@, needle@, k),
        decreases last - i,
    {
        if occurs_at_vec(&h, &n, i) {
            return Some(i);
        }
        i = i + 1;
    }
    if occurs_at_vec(&h, &n, last) {
        return Some(last);
    }
    None
}

/// White space in the sense of Unicode's `White_Space` property, which is
/// what `char::is_whitespace` tests: tab to carriage return, space, next
/// line, no-break space, ogham space mark, the spaces from en quad to hair
/// space, line and paragraph separators, narrow no-break space, medium
/// mathematical space and ideographic space.
pub open spec fn is_ws(c: char) -> bool {
    let n = c as u32;
    ||| 0x9 <= n <= 0xD
    ||| n == 0x20
    ||| n == 0x85
    ||| n == 0xA0
    ||| n == 0x1680
    ||| 0x2000 <= n <= 0x200A
    ||| n == 0x2028
    ||| n == 0x2029
    ||| n == 0x202F
    ||| n == 0x205F
    ||| n == 0x3000
}

/// Whether `c` is white space.
pub fn char_is_whitespace(c: char) -> (r: bool)
    ensures
        r == is_ws(c),
{
    let n = c as u32;
    (0x9 <= n && n <= 0xD) || n == 0x20 || n == 0x85 || n == 0xA0 || n == 0x1680 || (0x2000 <= n && n <= 0x200A)
        || n == 0x2028 || n == 0x2029 || n == 0x202F || n == 0x205F || n == 0x3000
}

/// The number of leading white-space characters.
pub open spec fn lead_ws(s: Seq<char>) -> nat
    decreases s.len(),
{
    if s.len() > 0 && is_ws(s[0]) { 1 + lead_ws(s.drop_first()) } else { 0 }
}

/// The number of trailing white-space characters.
pub open spec fn trail_ws(s: Seq<char>) -> nat
    decreases s.len(),
{
    if s.len() > 0 && is_ws(s.last()) { 1 + trail_ws(s.drop_last()) } else { 0 }
}

/// `s` without leading white space.
pub open spec fn trim_start(s: Seq<char>) -> Seq<char> {
    s.skip(lead_ws(s) as int)
}

/// `s` without leading or trailing white space.
pub open spec fn trim(s: Seq<char>) -> Seq<char> {
    let t = trim_start(s);
    t.take(t.len() - trail_ws(t))
}

pub proof fn lemma_lead_ws(s: Seq<char>, i: int)
    requires
        0 <= i <= s.len(),
        forall|j: int| 0 <= j < i ==> is_ws(s[j]),
        i < s.len() ==> !is_ws(s[i]),
    ensures
        lead_ws(s) == i,
    decreases i,
{
    if i > 0 {
        lemma_lead_ws(s.drop_first(), i - 1);
    }
}

pub proof fn lemma_trail_ws(s: Seq<char>, i: int)
    requires
        0 <= i <= s.len(),
        forall|j: int| s.len() - i <= j < s.len() ==> is_ws(s[j]),
        i < s.len() ==> !is_ws(s[s.len() - 1 - i]),
    ensures
        trail_ws(s) == i,
    decreases i,
{
    if i > 0 {
        lemma_trail_ws(s.drop_last(), i - 1);
    }
}

/// `s` without leading or trailing white space (`str::trim`).
pub fn trim_str(s: &str) -> (r: String)
    ensures
        r@ == trim(s@),
{
    let v = chars_of(s);
    let n = v.len();
    let mut a: usize = 0;
    while a < n && char_is_whitespace(v[a])
        invariant
            a <= n,
            n == v@.len(),
            forall|j: int| 0 <= j < a ==> is_ws(v@[j]),
        decreases n - a,
    {
        a = a + 1;
    }
    proof { lemma_lead_ws(v@, a as int); }
    let ghost t = v@.skip(a as int);
    let mut b: usize = n;
    while b > a && char_is_whitespace(v[b - 1])
        invariant
            a <= b <= n,
            n == v@.len(),
            t == v@.skip(a as int),
            forall|j: int| b <= j < n ==> is_ws(v@[j]),
        decreases b - a,
    {
        b = b - 1;
    }
    proof {
        assert forall|j: int| t.len() - (n - b) <= j < t.len() implies is_ws(t[j]) by {
            assert(t[j] == v@[a + j]);
        }
        if b > a {
            assert(t[t.len() - 1 - (n - b)] == v@[b - 1]);
        }
        lemma_trail_ws(t, (n - b) as int);
    }
    let r = slice_chars(s, a, b);
    assert(r@ =~= trim(s@));
    r
}

/// `s` with every trailing occurrence of a non-empty `pat` removed, repeatedly.
pub open spec fn trim_end_matches(s: Seq<char>, pat: Seq<char>) -> Seq<char>
    decreases s.len(),
{
    if pat.len() > 0 && pat.len() <= s.len() && s.subrange(s.len() - pat.len(), s.len() as int) == pat {
        trim_end_matches(s.subrange(0, s.len() - pat.len()), pat)
    } else {
        s
    }
}

/// Remove trailing occurrences of `pat` (`str::trim_end_matches`).
pub fn trim_end_matches_str(s: &str, pat: &str) -> (r: String)
    requires
        pat@.len() > 0,
    ensures
        r@ == trim_end_matches(s@, pat@),
{
    let v = chars_of(s);
    let p = chars_of(pat);
    let mut end: usize = v.len();
    assert(v@.subrange(0, end as int) =~= s@);
    while p.len() <= end && occurs_at_vec(&v, &p, end - p.len())
        invariant
            end <= v@.len(),
            v@ == s@,
            p@ == pat@,
            p@.len() > 0,
            trim_end_matches(s@, pat@) == trim_end_matches(v@.subrange(0, end as int), pat@),
        decreases end,
    {
        proof {
            let cur = v@.subrange(0, end as int);
            assert(cur.subrange(cur.len() - p@.len(), cur.len() as int) =~= v@.subrange(end - p@.len(), end as int));
            assert(cur.subrange(0, cur.len() - p@.len()) =~= v@.subrange(0, end - p@.len()));
        }
        end = end - p.len();
    }
    proof {
        let cur = v@.subrange(0, end as int);
        if p@.len() <= end {
            assert(cur.subrange(cur.len() - p@.len(), cur.len() as int) =~= v@.subrange(end - p@.len(), end as int));
        }
    }
    let r = slice_chars(s, 0, end);
    r
}

/// The pieces of `s` between occurrences of a non-empty `sep` (`str::split`).
pub open spec fn split(s: Seq<char>, sep: Seq<char>) -> Seq<Seq<char>>
    decreases s.len(),
{
    if sep.len() > 0 && exists|i: int| first_at(s, sep, i) {
        let i = choose|i: int| first_at(s, sep, i);
        seq![s.subrange(0, i)] + split(s.subrange(i + sep.len(), s.len() as int), sep)
    } else {
        seq![s]
    }
}

pub proof fn lemma_first_unique(s: Seq<char>, sep: Seq<char>, i: int)
    requires
        first_at(s, sep, i),
    ensures
        (choose|k: int| first_at(s, sep, k)) == i,
{
    let k = choose|k: int| first_at(s, sep, k);
    if k < i {
        assert(!occurs_at(s, sep, k));
    }
    if k > i {
        assert(!occurs_at(s, sep, i));
    }
}

/// Split `s` at every occurrence of `sep`.
pub fn split_str(s: &str, sep: &str) -> (r: Vec<String>)
    requires
        sep@.len() > 0,
    ensures
        crate::text::views(r@) == split(s@, sep@),
    decreases s@.len(),
{
    match find(s, sep) {
        Some(i) => {
            let n = s.unicode_len();
            let m = sep.unicode_len();
            proof { lemma_first_unique(s@, sep@, i as int); }
            let head = slice_chars(s, 0, i);
            let tail = slice_chars(s, i + m, n);
            let rest = split_str(tail.as_str(), sep);
            let ghost hv = head@;
            let mut out: Vec<String> = Vec::new();
            out.push(head);
            assert(crate::text::views(out@) =~= seq![hv] + crate::text::views(rest@).take(0));
            let mut k: usize = 0;
            while k < rest.len()
                invariant
                    k <= rest@.len(),
                    out@.len() == k + 1,
                    crate::text::views(out@) == seq![hv] + crate::text::views(rest@).take(k as int),
                decreases rest@.len() - k,
            {
                let ghost before = out@;
                out.push(rest[k].clone());
                assert(crate::text::views(out@) =~= crate::text::views(before).push(rest@[k as int]@));
                assert(crate::text::views(rest@).take(k + 1) =~= crate::text::views(rest@).take(k as int).push(rest@[k as int]@));
                assert(crate::text::views(out@) =~= seq![hv] + crate::text::views(rest@).take(k + 1));
                k = k + 1;
            }
            assert(crate::text::views(rest@).take(rest@.len() as int) =~= crate::text::views(rest@));
            out
        },
        None => {
            let mut out: Vec<String> = Vec::new();
            out.push(s.to_owned());
            assert(crate::text::views(out@) =~= seq![s@]);
            out
        },
    }
}

/// The value of a decimal digit character.
pub open spec fn digit_value(c: char) -> int {
    c as int - '0' as int
}

/// Whether a character is a decimal digit.
pub open spec fn is_digit(c: char) -> bool {
    '0' <= c && c <= '9'
}

/// The value of a string of decimal digits.
pub open spec fn digits_value(s: Seq<char>) -> int
    decreases s.len(),
{
    if s.len() == 0 { 0 } else { 10 * digits_value(s.drop_last()) + digit_value(s.last()) }
}

/// Every character is a decimal digit.
pub open spec fn all_digits(d: Seq<char>) -> bool {
    forall|i: int| 0 <= i < d.len() ==> is_digit(#[trigger] d[i])
}

/// What `str::parse::<u64>` accepts: an optional `+`, then at least one
/// decimal digit, with a value that fits.
pub open spec fn parse_u64(s: Seq<char>) -> Option<u64> {
    let d = if s.len() > 0 && s[0] == '+' { s.drop_first() } else { s };
    if d.len() > 0 && all_digits(d) && digits_value(d) <= u64::MAX {
        Some(digits_value(d) as u64)
    } else {
        None
    }
}

proof fn lemma_digits_grow(s: Seq<char>, k: int)
    requires
        0 <= k <= s.len(),
        forall|i: int| 0 <= i < s.len() ==> is_digit(#[trigger] s[i]),
    ensures
        digits_value(s.take(k)) <= digits_value(s),
        0 <= digits_value(s.take(k)),
    decreases s.len(),
{
    if s.len() > 0 {
        if k == s.len() {
            assert(s.take(k) =~= s);
            lemma_digits_grow(s.drop_last(), k - 1);
        } else {
            assert(s.drop_last().take(k) =~= s.take(k));
            lemma_digits_grow(s.drop_last(), k);
            assert(is_digit(s.last()));
        }
    } else {
        assert(s.take(k) =~= s);
    }
}

/// Parse an unsigned decimal number as `str::parse::<u64>` does.
pub fn parse_u64_str(s: &str) -> (r: Option<u64>)
    ensures
        r == parse_u64(s@),
{
    let v = chars_of(s);
    let mut start: usize = 0;
    if v.len() > 0 && v[0] == '+' {
        start = 1;
    }
    let ghost d = if s@.len() > 0 && s@[0] == '+' { s@.drop_first() } else { s@ };
    assert(d =~= v@.skip(start as int));
    if start >= v.len() {
        return None;
    }
    let mut acc: u64 = 0;
    let mut i: usize = start;
    while i < v.len()
        invariant
            start <= i <= v@.len(),
            v@ == s@,
            d == v@.skip(start as int),
            d == (if s@.len() > 0 && s@[0] == '+' { s@.drop_first() } else { s@ }),
            acc == digits_value(d.take(i - start)),
            forall|j: int| 0 <= j < i - start ==> is_digit(#[trigger] d[j]),
        decreases v@.len() - i,
    {
        let c = v[i];
        assert(d[i - start] == c);
        if !('0' <= c && c <= '9') {
            assert(!is_digit(d[(i - start) as int]));
            assert(!all_digits(d));
            assert(parse_u64(s@) is None);
            return None;
        }
        let digit = (c as u32 - '0' as u32) as u64;
        assert(digit == digit_value(c));
        assert(d.take(i - start + 1).drop_last() =~= d.take(i - start));
        assert(digits_value(d.take(i - start + 1)) == 10 * acc + digit);
        if acc > 1844674407370955161 || (acc == 1844674407370955161 && digit > 5) {
            proof {
                if all_digits(d) {
                    lemma_digits_grow(d, i - start + 1);
                    assert(digits_value(d) > u64::MAX);
                }
                assert(parse_u64(s@) is None);
            }
            return None;
        }
        acc = acc * 10 + digit;
        i = i + 1;
    }
    assert(d.take(d.len() as int) =~= d);
    Some(acc)
}


/// The pieces joined by `sep`.
pub open spec fn join(s: Seq<Seq<char>>, sep: Seq<char>) -> Seq<char>
    decreases s.len(),
{
    if s.len() == 0 {
        Seq::empty()
    } else if s.len() == 1 {
        s[0]
    } else {
        join(s.drop_last(), sep) + sep + s.last()
    }
}

/// Join the strings with `sep` between them (`[String]::join`).
pub fn join_strings(v: &Vec<String>, sep: &str) -> (r: String)
    ensures
        r@ == join(crate::text::views(v@), sep@),
{
    let mut out = String::new();
    let ghost vs = crate::text::views(v@);
    let mut i: usize = 0;
    while i < v.len()
        invariant
            i <= v@.len(),
            vs == crate::text::views(v@),
            out@ == join(vs.take(i as int), sep@),
        decreases v@.len() - i,
    {
        assert(vs.take(i + 1).drop_last() =~= vs.take(i as int));
        if i > 0 {
            crate::text::push_str(&mut out, sep);
        }
        crate::text::push_str(&mut out, v[i].as_str());
        proof {
            if i == 0 {
                assert(out@ =~= vs.take(1)[0]);
            } else {
                assert(out@ =~= join(vs.take(i as int), sep@) + sep@ + vs.take(i + 1).last());
            }
        }
        i = i + 1;
    }
    assert(vs.take(vs.len() as int) =~= vs);
    out
}


/// No proper prefix of `sep` is also a suffix of it.
pub open spec fn unbordered(sep: Seq<char>) -> bool {
    forall|d: int| 1 <= d < sep.len() ==> #[trigger] sep.subrange(0, sep.len() - d) != sep.subrange(d, sep.len() as int)
}

/// Joining takes the first piece, the separator, and the rest joined.
pub proof fn lemma_join_front(s: Seq<Seq<char>>, sep: Seq<char>)
    requires
        s.len() >= 2,
    ensures
        join(s, sep) == s[0] + sep + join(s.drop_first(), sep),
    decreases s.len(),
{
    if s.len() > 2 {
        lemma_join_front(s.drop_last(), sep);
        assert(s.drop_last().drop_first() =~= s.drop_first().drop_last());
        assert(s.drop_first().last() == s.last());
        assert(s.drop_last()[0] == s[0]);
        let m = join(s.drop_first().drop_last(), sep);
        assert(join(s.drop_first(), sep) == m + sep + s.last());
        assert(join(s, sep) == (s[0] + sep + m) + sep + s.last());
        assert((s[0] + sep + m) + sep + s.last() =~= s[0] + sep + (m + sep + s.last()));
    } else {
        assert(s.drop_first() =~= seq![s[1]]);
        assert(s.drop_last() =~= seq![s[0]]);
        assert(join(s.drop_first(), sep) == s[1]);
        assert(join(s.drop_last(), sep) == s[0]);
    }
}

/// Splitting what `join` made, with an unbordered separator that no piece
/// contains, gives the pieces back.
pub proof fn lemma_split_join(ls: Seq<Seq<char>>, sep: Seq<char>)
    requires
        ls.len() >= 1,
        sep.len() >= 1,
        unbordered(sep),
        forall|i: int| 0 <= i < ls.len() ==> !crate::text::contains(#[trigger] ls[i], sep),
    ensures
        split(join(ls, sep), sep) == ls,
    decreases ls.len(),
{
    if ls.len() == 1 {
        let j = join(ls, sep);
        assert(j == ls[0]);
        assert(!crate::text::contains(ls[0], sep));
        assert forall|i: int| !first_at(j, sep, i) by {
            if occurs_at(j, sep, i) {
                assert(crate::text::contains(ls[0], sep));
            }
        }
        assert(split(j, sep) == seq![j]);
        assert(split(j, sep) =~= ls);
    } else {
        lemma_join_front(ls, sep);
        let a = ls[0];
        let rest = ls.drop_first();
        let tail = join(rest, sep);
        let j = a + sep + tail;
        assert(!crate::text::contains(a, sep));
        assert(j.subrange(a.len() as int, (a.len() + sep.len()) as int) =~= sep);
        assert forall|k: int| 0 <= k < a.len() implies !occurs_at(j, sep, k) by {
            if occurs_at(j, sep, k) {
                if k + sep.len() <= a.len() {
                    assert(a.subrange(k, k + sep.len()) =~= j.subrange(k, k + sep.len()));
                    assert(occurs_at(a, sep, k));
                } else {
                    let d = a.len() - k;
                    assert(1 <= d < sep.len());
                    assert(sep.subrange(d, sep.len() as int) =~= j.subrange(a.len() as int, k + sep.len()));
                    assert(j.subrange(a.len() as int, k + sep.len()) =~= sep.subrange(0, sep.len() - d));
                    assert(sep.subrange(0, sep.len() - d) != sep.subrange(d, sep.len() as int));
                }
            }
        }
        assert(first_at(j, sep, a.len() as int));
        lemma_first_unique(j, sep, a.len() as int);
        assert(j.subrange(0, a.len() as int) =~= a);
        assert(j.subrange((a.len() + sep.len()) as int, j.len() as int) =~= tail);
        assert forall|i: int| 0 <= i < rest.len() implies !crate::text::contains(#[trigger] rest[i], sep) by {
            assert(rest[i] == ls[i + 1]);
        }
        lemma_split_join(rest, sep);
        assert(split(j, sep) == seq![a] + split(tail, sep));
        assert(split(j, sep) =~= ls);
    }
}

} // verus!
