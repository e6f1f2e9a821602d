//! Character-sequence helpers shared by the whole crate.
//!
//! Strings are reasoned about through their view, a `Seq<char>`.

use vstd::prelude::*;
use vstd::string::*;

verus! {

/// Decimal digits of `n`, most significant first.
pub open spec fn dec(n: nat) -> Seq<char>
    decreases n,
{
    if n < 10 {
        seq![digit_char(n)]
    } else {
        dec(n / 10).push(digit_char(n % 10))
    }
}

/// The ASCII digit for a value below ten.
pub open spec fn digit_char(d: nat) -> char {
    if d == 0 { '0' } else if d == 1 { '1' } else if d == 2 { '2' } else if d == 3 { '3' }
    else if d == 4 { '4' } else if d == 5 { '5' } else if d == 6 { '6' } else if d == 7 { '7' }
    else if d == 8 { '8' } else { '9' }
}

/// `n` in decimal, left-padded with zeros to at least `width` characters.
pub open spec fn dec_pad(n: nat, width: nat) -> Seq<char> {
    let d = dec(n);
    if d.len() >= width { d } else { Seq::new((width - d.len()) as nat, |_i: int| '0') + d }
}

/// Lower-case hexadecimal digits of `n`, most significant first.
pub open spec fn hex(n: nat) -> Seq<char>
    decreases n,
{
    if n < 16 {
        seq![hex_char(n)]
    } else {
        hex(n / 16).push(hex_char(n % 16))
    }
}

/// The lower-case hexadecimal digit for a value below sixteen.
pub open spec fn hex_char(d: nat) -> char {
    if d < 10 { digit_char(d) } else if d == 10 { 'a' } else if d == 11 { 'b' } else if d == 12 { 'c' }
    else if d == 13 { 'd' } else if d == 14 { 'e' } else { 'f' }
}

/// `n` in lower-case hexadecimal, left-padded with zeros to at least `width` characters.
pub open spec fn hex_pad(n: nat, width: nat) -> Seq<char> {
    let d = hex(n);
    if d.len() >= width { d } else { Seq::new((width - d.len()) as nat, |_i: int| '0') + d }
}

/// `a` starts with `p`.
pub open spec fn starts_with(a: Seq<char>, p: Seq<char>) -> bool {
    p.len() <= a.len() && a.subrange(0, p.len() as int) == p
}

/// `a` ends with `p`.
pub open spec fn ends_with(a: Seq<char>, p: Seq<char>) -> bool {
    p.len() <= a.len() && a.subrange(a.len() - p.len(), a.len() as int) == p
}

/// `needle` occurs in `hay` starting at position `i`.
pub open spec fn occurs_at(hay: Seq<char>, needle: Seq<char>, i: int) -> bool {
    0 <= i && i + needle.len() <= hay.len() && hay.subrange(i, i + needle.len()) == needle
}

/// `needle` occurs somewhere in `hay` (the empty needle always occurs).
pub open spec fn contains(hay: Seq<char>, needle: Seq<char>) -> bool {
    exists|i: int| occurs_at(hay, needle, i)
}

/// Strict lexicographic order on character sequences, by code point,
/// which is the order of the UTF-8 encodings.
pub open spec fn seq_lt(a: Seq<char>, b: Seq<char>) -> bool
    decreases a.len(),
{
    if a.len() == 0 {
        b.len() > 0
    } else if b.len() == 0 {
        false
    } else if (a[0] as int) < (b[0] as int) {
        true
    } else if a[0] == b[0] {
        seq_lt(a.drop_first(), b.drop_first())
    } else {
        false
    }
}

/// The character for a decimal digit.
pub fn digit(d: u64) -> (c: char)
    requires
        d < 10,
    ensures
        c == digit_char(d as nat),
{
    if d == 0 { '0' } else if d == 1 { '1' } else if d == 2 { '2' } else if d == 3 { '3' }
    else if d == 4 { '4' } else if d == 5 { '5' } else if d == 6 { '6' } else if d == 7 { '7' }
    else if d == 8 { '8' } else { '9' }
}

/// Append one character to a string (`String::push`).
#[verifier::external_body]
pub(crate) fn push_char(s: &mut String, c: char)
    ensures
        final(s)@ == old(s)@.push(c),
{
    s.push(c);
}

/// Append a string slice to a string.
pub(crate) fn push_str(s: &mut String, t: &str)
    ensures
        final(s)@ == old(s)@ + t@,
{
    s.append(t);
}

/// The characters of a string slice.
pub fn chars_of(s: &str) -> (v: Vec<char>)
    ensures
        v@ == s@,
{
    let n = s.unicode_len();
    let mut v: Vec<char> = Vec::new();
    let mut i: usize = 0;
    while i < n
        invariant
            n == s@.len(),
            i <= n,
            v@ == s@.subrange(0, i as int),
        decreases n - i,
    {
        let c = s.get_char(i);
        v.push(c);
        i = i + 1;
        assert(v@ =~= s@.subrange(0, i as int));
    }
    assert(v@ =~= s@);
    v
}

/// A string made of the given characters.
pub fn string_of(v: &Vec<char>) -> (s: String)
    ensures
        s@ == v@,
{
    let mut s = String::new();
    let mut i: usize = 0;
    while i < v.len()
        invariant
            i <= v.len(),
            s@ == v@.subrange(0, i as int),
        decreases v.len() - i,
    {
        push_char(&mut s, v[i]);
        i = i + 1;
        assert(s@ =~= v@.subrange(0, i as int));
    }
    assert(s@ =~= v@);
    s
}

/// An owned copy of a string slice.
pub fn owned(s: &str) -> (r: String)
    ensures
        r@ == s@,
{
    s.to_owned()
}

/// Equality of two strings.
pub fn str_eq(a: &str, b: &str) -> (r: bool)
    ensures
        r == (a@ == b@),
{
    let x = a.to_owned();
    let y = b.to_owned();
    x == y
}

/// The code of a character with ASCII upper case folded to lower case.
pub open spec fn fold_code(c: char) -> u32 {
    if 65 <= (c as u32) <= 90 { (c as u32 + 32) as u32 } else { c as u32 }
}

/// Equality ignoring ASCII case (`str::eq_ignore_ascii_case`).
pub open spec fn eq_ignore_case(a: Seq<char>, b: Seq<char>) -> bool {
    a.len() == b.len() && forall|i: int| 0 <= i < a.len() ==> #[trigger] fold_code(a[i]) == fold_code(b[i])
}

/// Whether some string of a sequence equals `w` ignoring ASCII case.
pub open spec fn has_ignore_case(v: Seq<Seq<char>>, w: Seq<char>) -> bool {
    exists|i: int| 0 <= i < v.len() && eq_ignore_case(#[trigger] v[i], w)
}

fn fold_char(c: char) -> (r: u32)
    ensures
        r == fold_code(c),
{
    let x = c as u32;
    if 65 <= x && x <= 90 { x + 32 } else { x }
}

/// Equality of two strings ignoring ASCII case.
pub fn str_eq_ignore_case(a: &str, b: &str) -> (r: bool)
    ensures
        r == eq_ignore_case(a@, b@),
{
    let av = chars_of(a);
    let bv = chars_of(b);
    if av.len() != bv.len() {
        return false;
    }
    let mut i: usize = 0;
    while i < av.len()
        invariant
            i <= av@.len(),
            av@ == a@,
            bv@ == b@,
            av@.len() == bv@.len(),
            forall|j: int| 0 <= j < i ==> #[trigger] fold_code(a@[j]) == fold_code(b@[j]),
        decreases av@.len() - i,
    {
        if fold_char(av[i]) != fold_char(bv[i]) {
            return false;
        }
        i = i + 1;
    }
    true
}

/// Whether some string of `v` equals `w` ignoring ASCII case.
pub fn has_string_ignore_case(v: &Vec<String>, w: &str) -> (r: bool)
    ensures
        r == has_ignore_case(views(v@), w@),
{
    let mut i: usize = 0;
    while i < v.len()
        invariant
            i <= v@.len(),
            forall|j: int| 0 <= j < i ==> !eq_ignore_case(#[trigger] views(v@)[j], w@),
        decreases v@.len() - i,
    {
        if str_eq_ignore_case(v[i].as_str(), w) {
            assert(eq_ignore_case(views(v@)[i as int], w@));
            return true;
        }
        i = i + 1;
    }
    false
}

/// Every occurrence of `pat`, taken left to right without overlap,
/// replaced by `with` (`str::replace` for a non-empty pattern).
pub open spec fn replace_all(s: Seq<char>, pat: Seq<char>, with: Seq<char>) -> Seq<char>
    decreases s.len(),
{
    if s.len() == 0 {
        Seq::empty()
    } else if pat.len() > 0 && starts_with(s, pat) {
        with + replace_all(s.skip(pat.len() as int), pat, with)
    } else {
        seq![s[0]] + replace_all(s.drop_first(), pat, with)
    }
}

/// Replace every occurrence of a non-empty pattern.
pub fn replace_str(s: &str, pat: &str, with: &str) -> (r: String)
    requires
        pat@.len() > 0,
    ensures
        r@ == replace_all(s@, pat@, with@),
{
    let v = chars_of(s);
    let p = chars_of(pat);
    let mut out = String::new();
    let mut i: usize = 0;
    assert(s@.skip(0) =~= s@);
    while i < v.len()
        invariant
            v@ == s@,
            p@ == pat@,
            pat@.len() > 0,
            i <= v@.len(),
            out@ + replace_all(s@.skip(i as int), pat@, with@) == replace_all(s@, pat@, with@),
        decreases v@.len() - i,
    {
        let ghost rest = s@.skip(i as int);
        if occurs_at_vec(&v, &p, i) {
            proof {
                assert(rest.subrange(0, pat@.len() as int) =~= s@.subrange(i as int, i + pat@.len()));
                assert(starts_with(rest, pat@));
                assert(rest.skip(pat@.len() as int) =~= s@.skip(i + pat@.len()));
            }
            let ghost before = out@;
            push_str(&mut out, with);
            assert(out@ + replace_all(s@.skip(i + pat@.len()), pat@, with@) =~= before + replace_all(rest, pat@, with@));
            i = i + p.len();
        } else {
            proof {
                if starts_with(rest, pat@) {
                    assert(s@.subrange(i as int, i + pat@.len()) =~= rest.subrange(0, pat@.len() as int));
                }
                assert(rest.drop_first() =~= s@.skip(i + 1));
                assert(rest[0] == v@[i as int]);
            }
            let ghost before = out@;
            push_char(&mut out, v[i]);
            assert(out@ + replace_all(s@.skip(i + 1), pat@, with@) =~= before + replace_all(rest, pat@, with@));
            i = i + 1;
        }
    }
    assert(s@.skip(i as int) =~= Seq::<char>::empty());
    assert(out@ + replace_all(s@.skip(i as int), pat@, with@) =~= out@);
    out
}

/// The value of a zero-padded decimal rendering is the number rendered.
pub proof fn lemma_dec_pad_value(n: nat, width: nat)
    ensures
        crate::parse::digits_value(dec_pad(n, width)) == n,
{
    lemma_dec_value(n);
    let d = dec(n);
    if d.len() < width {
        lemma_zeros_value(Seq::new((width - d.len()) as nat, |_i: int| '0'), d);
    }
}

/// The value of the decimal digits of `n` is `n`.
proof fn lemma_dec_value(n: nat)
    ensures
        crate::parse::digits_value(dec(n)) == n,
    decreases n,
{
    if n >= 10 {
        lemma_dec_value(n / 10);
        lemma_digit_value(n % 10);
        assert(dec(n).drop_last() =~= dec(n / 10));
        assert(dec(n).last() == digit_char(n % 10));
        assert(crate::parse::digits_value(dec(n))
            == 10 * crate::parse::digits_value(dec(n).drop_last()) + crate::parse::digit_value(dec(n).last()));
        assert(10 * (n / 10) + n % 10 == n);
    } else {
        lemma_digit_value(n);
        let d = seq![digit_char(n)];
        assert(d.drop_last() =~= Seq::<char>::empty());
        assert(crate::parse::digits_value(Seq::<char>::empty()) == 0);
        assert(crate::parse::digits_value(d) == 10 * crate::parse::digits_value(d.drop_last()) + crate::parse::digit_value(d.last()));
    }
}

/// A digit character has its digit's value.
proof fn lemma_digit_value(d: nat)
    requires
        d < 10,
    ensures
        crate::parse::digit_value(digit_char(d)) == d,
{
}

/// Leading zeros add nothing to a value.
proof fn lemma_zeros_value(z: Seq<char>, d: Seq<char>)
    requires
        forall|i: int| 0 <= i < z.len() ==> z[i] == '0',
    ensures
        crate::parse::digits_value(z + d) == crate::parse::digits_value(d),
    decreases z.len() + d.len(),
{
    if d.len() > 0 {
        lemma_zeros_value(z, d.drop_last());
        assert((z + d).drop_last() =~= z + d.drop_last());
    } else {
        assert(z + d =~= z);
        if z.len() > 0 {
            lemma_zeros_value(z.drop_last(), Seq::empty());
            assert(z.drop_last() + Seq::<char>::empty() =~= z.drop_last());
        }
    }
}

pub proof fn lemma_dec_len_pos(n: nat)
    ensures
        dec(n).len() >= 1,
    decreases n,
{
    if n >= 10 {
        lemma_dec_len_pos(n / 10);
    }
}

/// `n` in decimal.
pub fn dec_string(n: u64) -> (s: String)
    ensures
        s@ == dec(n as nat),
    decreases n,
{
    if n < 10 {
        let mut s = String::new();
        push_char(&mut s, digit(n));
        assert(s@ =~= dec(n as nat));
        s
    } else {
        let mut s = dec_string(n / 10);
        push_char(&mut s, digit(n % 10));
        s
    }
}

/// `n` in decimal, left-padded with zeros to `width` characters.
pub fn dec_pad_string(n: u64, width: usize) -> (s: String)
    ensures
        s@ == dec_pad(n as nat, width as nat),
{
    let d = dec_string(n);
    let len = d.as_str().unicode_len();
    if len >= width {
        d
    } else {
        let mut s = String::new();
        let mut i: usize = 0;
        while i < width - len
            invariant
                len < width,
                i <= width - len,
                s@ == Seq::new(i as nat, |_j: int| '0'),
            decreases width - len - i,
        {
            push_char(&mut s, '0');
            i = i + 1;
            assert(s@ =~= Seq::new(i as nat, |_j: int| '0'));
        }
        push_str(&mut s, d.as_str());
        s
    }
}

/// The lower-case hexadecimal digit for a value below sixteen.
pub fn hex_digit(d: u64) -> (c: char)
    requires
        d < 16,
    ensures
        c == hex_char(d as nat),
{
    if d < 10 { digit(d) } else if d == 10 { 'a' } else if d == 11 { 'b' } else if d == 12 { 'c' }
    else if d == 13 { 'd' } else if d == 14 { 'e' } else { 'f' }
}

/// `n` in lower-case hexadecimal.
pub fn hex_string(n: u64) -> (s: String)
    ensures
        s@ == hex(n as nat),
    decreases n,
{
    if n < 16 {
        let mut s = String::new();
        push_char(&mut s, hex_digit(n));
        assert(s@ =~= hex(n as nat));
        s
    } else {
        let mut s = hex_string(n / 16);
        push_char(&mut s, hex_digit(n % 16));
        s
    }
}

/// `n` in lower-case hexadecimal, left-padded with zeros to `width` characters.
pub fn hex_pad_string(n: u64, width: usize) -> (s: String)
    ensures
        s@ == hex_pad(n as nat, width as nat),
{
    let d = hex_string(n);
    let len = d.as_str().unicode_len();
    if len >= width {
        d
    } else {
        let mut s = String::new();
        let mut i: usize = 0;
        while i < width - len
            invariant
                len < width,
                i <= width - len,
                s@ == Seq::new(i as nat, |_j: int| '0'),
            decreases width - len - i,
        {
            push_char(&mut s, '0');
            i = i + 1;
            assert(s@ =~= Seq::new(i as nat, |_j: int| '0'));
        }
        push_str(&mut s, d.as_str());
        s
    }
}

/// Whether `a` starts with `p`.
pub fn has_prefix(a: &str, p: &str) -> (r: bool)
    ensures
        r == starts_with(a@, p@),
{
    let av = chars_of(a);
    let pv = chars_of(p);
    if pv.len() > av.len() {
        return false;
    }
    let mut i: usize = 0;
    while i < pv.len()
        invariant
            pv.len() <= av.len(),
            i <= pv.len(),
            av@ == a@,
            pv@ == p@,
            forall|j: int| 0 <= j < i ==> av@[j] == pv@[j],
        decreases pv.len() - i,
    {
        if av[i] != pv[i] {
            assert(av@.subrange(0, pv@.len() as int)[i as int] != pv@[i as int]);
            assert(av@.subrange(0, pv@.len() as int) != pv@);
            return false;
        }
        i = i + 1;
    }
    assert(av@.subrange(0, pv@.len() as int) =~= pv@);
    true
}

/// Whether `needle` occurs at position `i` of `hay`.
pub fn occurs_at_vec(hay: &Vec<char>, needle: &Vec<char>, i: usize) -> (r: bool)
    ensures
        r == occurs_at(hay@, needle@, i as int),
{
    if needle.len() > hay.len() || i > hay.len() - needle.len() {
        return false;
    }
    let mut j: usize = 0;
    while j < needle.len()
        invariant
            i + needle.len() <= hay.len(),
            j <= needle.len(),
            forall|k: int| 0 <= k < j ==> hay@[i + k] == needle@[k],
        decreases needle.len() - j,
    {
        if hay[i + j] != needle[j] {
            assert(hay@.subrange(i as int, i + needle@.len())[j as int] != needle@[j as int]);
            return false;
        }
        j = j + 1;
    }
    assert(hay@.subrange(i as int, i + needle@.len()) =~= needle@);
    true
}

/// Whether `needle` occurs in `hay`.
pub fn contains_str(hay: &str, needle: &str) -> (r: bool)
    ensures
        r == contains(hay@, needle@),
{
    let h = chars_of(hay);
    let n = chars_of(needle);
    if n.len() > h.len() {
        return false;
    }
    let last = h.len() - n.len();
    let mut i: usize = 0;
    while i < last
        invariant
            n.len() <= h.len(),
            last == h.len() - n.len(),
            i <= last,
            h@ == hay@,
            n@ == needle@,
            forall|k: int| 0 <= k < i ==> !occurs_at(hay@, needle@, k),
        decreases last - i,
    {
        if occurs_at_vec(&h, &n, i) {
            return true;
        }
        i = i + 1;
    }
    if occurs_at_vec(&h, &n, last) {
        return true;
    }
    proof {
        assert forall|k: int| !occurs_at(hay@, needle@, k) by {
            if 0 <= k < last {
            }
        }
    }
    false
}

} // verus!

verus! {

/// Non-strict lexicographic order on character sequences.
pub open spec fn seq_le(a: Seq<char>, b: Seq<char>) -> bool {
    a == b || seq_lt(a, b)
}

/// The non-strict lexicographic order as a relation value.
pub open spec fn lex_leq() -> spec_fn(Seq<char>, Seq<char>) -> bool {
    |a: Seq<char>, b: Seq<char>| seq_le(a, b)
}

/// The views of a sequence of strings.
pub open spec fn views(v: Seq<String>) -> Seq<Seq<char>> {
    v.map_values(|s: String| s@)
}

/// Nothing precedes itself.
pub proof fn lemma_lt_irreflexive(a: Seq<char>)
    ensures
        !seq_lt(a, a),
    decreases a.len(),
{
    if a.len() > 0 {
        lemma_lt_irreflexive(a.drop_first());
    }
}

/// Precedence goes one way only.
pub proof fn lemma_lt_asymmetric(a: Seq<char>, b: Seq<char>)
    ensures
        seq_lt(a, b) ==> !seq_lt(b, a),
    decreases a.len(),
{
    if a.len() > 0 && b.len() > 0 && a[0] == b[0] {
        lemma_lt_asymmetric(a.drop_first(), b.drop_first());
    }
}

/// Precedence is transitive.
pub proof fn lemma_lt_transitive(a: Seq<char>, b: Seq<char>, c: Seq<char>)
    ensures
        seq_lt(a, b) && seq_lt(b, c) ==> seq_lt(a, c),
    decreases a.len(),
{
    if a.len() > 0 && b.len() > 0 && c.len() > 0 {
        lemma_lt_transitive(a.drop_first(), b.drop_first(), c.drop_first());
    }
}

/// Of two different sequences, one precedes the other.
pub proof fn lemma_lt_connected(a: Seq<char>, b: Seq<char>)
    ensures
        a != b ==> seq_lt(a, b) || seq_lt(b, a),
    decreases a.len(),
{
    if a.len() > 0 && b.len() > 0 {
        if a[0] == b[0] {
            lemma_lt_connected(a.drop_first(), b.drop_first());
            if a.drop_first() == b.drop_first() {
                assert(a =~= seq![a[0]] + a.drop_first());
                assert(b =~= seq![b[0]] + b.drop_first());
            }
        }
    } else if a.len() == 0 && b.len() == 0 {
        assert(a =~= b);
    }
}

/// Lexicographic order on character sequences is a total order.
pub proof fn lemma_lex_total()
    ensures
        vstd::relations::total_ordering(lex_leq()),
{
    assert forall|x: Seq<char>, y: Seq<char>| #[trigger] lex_leq()(x, y) && #[trigger] lex_leq()(y, x) implies x == y by {
        lemma_lt_asymmetric(x, y);
    }
    assert forall|x: Seq<char>, y: Seq<char>, z: Seq<char>| #[trigger] lex_leq()(x, y) && #[trigger] lex_leq()(y, z) implies lex_leq()(x, z) by {
        lemma_lt_transitive(x, y, z);
    }
    assert forall|x: Seq<char>, y: Seq<char>| #[trigger] lex_leq()(x, y) || #[trigger] lex_leq()(y, x) by {
        lemma_lt_connected(x, y);
    }
}

/// Whether `a` is lexicographically smaller than `b`.
pub fn str_lt(a: &str, b: &str) -> (r: bool)
    ensures
        r == seq_lt(a@, b@),
{
    let av = chars_of(a);
    let bv = chars_of(b);
    let mut i: usize = 0;
    assert(a@.subrange(0, a@.len() as int) =~= a@);
    assert(b@.subrange(0, b@.len() as int) =~= b@);
    while i < av.len() && i < bv.len()
        invariant
            i <= av.len(),
            i <= bv.len(),
            av@ == a@,
            bv@ == b@,
            seq_lt(a@, b@) == seq_lt(a@.subrange(i as int, a@.len() as int), b@.subrange(i as int, b@.len() as int)),
        decreases av.len() - i,
    {
        let x = av[i];
        let y = bv[i];
        proof {
            let sa = a@.subrange(i as int, a@.len() as int);
            let sb = b@.subrange(i as int, b@.len() as int);
            assert(sa.drop_first() =~= a@.subrange(i + 1, a@.len() as int));
            assert(sb.drop_first() =~= b@.subrange(i + 1, b@.len() as int));
        }
        if x < y {
            return true;
        }
        if x != y {
            return false;
        }
        i = i + 1;
    }
    i < bv.len()
}

/// Clone a vector of strings.
pub fn clone_strings(v: &Vec<String>) -> (r: Vec<String>)
    ensures
        r@ == v@,
{
    let mut r: Vec<String> = Vec::new();
    let mut i: usize = 0;
    while i < v.len()
        invariant
            i <= v.len(),
            r@ == v@.subrange(0, i as int),
        decreases v.len() - i,
    {
        r.push(v[i].clone());
        i = i + 1;
        assert(r@ =~= v@.subrange(0, i as int));
    }
    assert(r@ =~= v@);
    r
}

/// Clone an optional string.
pub fn clone_opt(o: &Option<String>) -> (r: Option<String>)
    ensures
        r == *o,
{
    match o {
        Some(s) => Some(s.clone()),
        None => None,
    }
}

/// Whether some string of `v` has the view `s`.
pub fn contains_string(v: &Vec<String>, s: &String) -> (r: bool)
    ensures
        r == views(v@).contains(s@),
{
    let mut i: usize = 0;
    while i < v.len()
        invariant
            i <= v.len(),
            forall|k: int| 0 <= k < i ==> v@[k]@ != s@,
        decreases v.len() - i,
    {
        if v[i] == *s {
            assert(views(v@)[i as int] == s@);
            return true;
        }
        i = i + 1;
    }
    proof {
        if views(v@).contains(s@) {
            let k = choose|k: int| 0 <= k < views(v@).len() && views(v@)[k] == s@;
            assert(v@[k]@ == s@);
        }
    }
    false
}

proof fn lemma_views_push(v: Seq<String>, s: String)
    ensures
        views(v.push(s)) == views(v).push(s@),
{
    assert(views(v.push(s)) =~= views(v).push(s@));
}

/// Insert `x` into the sorted vector `out`, after every element not greater than it.
fn insert_sorted(out: &mut Vec<String>, x: String)
    requires
        vstd::relations::sorted_by(views(old(out)@), lex_leq()),
        vstd::relations::total_ordering(lex_leq()),
    ensures
        vstd::relations::sorted_by(views(final(out)@), lex_leq()),
        views(final(out)@).to_multiset() == views(old(out)@).to_multiset().insert(x@),
{
    broadcast use vstd::seq_lib::group_to_multiset_ensures;
    let mut k: usize = 0;
    while k < out.len() && !str_lt(x.as_str(), out[k].as_str())
        invariant
            k <= out.len(),
            forall|m: int| 0 <= m < k ==> seq_le(#[trigger] views(out@)[m], x@),
        decreases out.len() - k,
    {
        proof {
            lemma_lt_connected(x@, out@[k as int]@);
        }
        k = k + 1;
    }
    let ghost before = views(out@);
    let ghost xv = x@;
    assert(forall|m: int| 0 <= m < k ==> seq_le(before[m], xv));
    assert(k < before.len() ==> seq_lt(xv, before[k as int]));
    out.insert(k, x);
    proof {
        let after = views(out@);
        assert(after =~= before.insert(k as int, xv));
        assert forall|a: int, b: int| 0 <= a < b < after.len() implies #[trigger] lex_leq()(after[a], after[b]) by {
            if b < k {
                assert(after[a] == before[a] && after[b] == before[b]);
                assert(lex_leq()(before[a], before[b]));
            } else if b == k {
                assert(after[a] == before[a] && after[b] == xv);
                assert(seq_le(before[a], xv));
            } else if a == k {
                assert(after[a] == xv && after[b] == before[b - 1]);
                assert(seq_lt(xv, before[k as int]));
                if b - 1 > k {
                    assert(lex_leq()(before[k as int], before[b - 1]));
                    lemma_lt_transitive(xv, before[k as int], before[b - 1]);
                }
            } else if a < k {
                assert(after[a] == before[a] && after[b] == before[b - 1]);
                assert(lex_leq()(before[a], before[b - 1]));
            } else {
                assert(after[a] == before[a - 1] && after[b] == before[b - 1]);
                assert(lex_leq()(before[a - 1], before[b - 1]));
            }
        }
    }
}

/// Sort a vector of strings lexicographically.
pub fn sort_strings(v: &Vec<String>) -> (r: Vec<String>)
    ensures
        views(r@) == views(v@).sort_by(lex_leq()),
{
    broadcast use vstd::seq_lib::group_to_multiset_ensures;
    proof { lemma_lex_total(); }
    let mut out: Vec<String> = Vec::new();
    let mut i: usize = 0;
    assert(views(out@).to_multiset() =~= views(v@.subrange(0, 0)).to_multiset());
    while i < v.len()
        invariant
            i <= v.len(),
            vstd::relations::sorted_by(views(out@), lex_leq()),
            views(out@).to_multiset() == views(v@.subrange(0, i as int)).to_multiset(),
            vstd::relations::total_ordering(lex_leq()),
        decreases v.len() - i,
    {
        let x = v[i].clone();
        assert(x@ == v@[i as int]@);
        insert_sorted(&mut out, x);
        proof {
            let pre = views(v@.subrange(0, i as int));
            vstd::seq_lib::to_multiset_build(pre, v@[i as int]@);
            assert(v@.subrange(0, i + 1) =~= v@.subrange(0, i as int).push(v@[i as int]));
            lemma_views_push(v@.subrange(0, i as int), v@[i as int]);
        }
        i = i + 1;
    }
    proof {
        assert(v@.subrange(0, v@.len() as int) =~= v@);
        let src = views(v@);
        src.lemma_sort_by_ensures(lex_leq());
        vstd::seq_lib::lemma_sorted_unique(views(out@), src.sort_by(lex_leq()), lex_leq());
    }
    out
}


/// A filtered sequence holds only elements of the original, and keeps it free
/// of duplicates.
pub proof fn lemma_filter_subset<A>(s: Seq<A>, p: spec_fn(A) -> bool)
    ensures
        forall|x: A| #[trigger] s.filter(p).contains(x) ==> s.contains(x) && p(x),
        s.no_duplicates() ==> s.filter(p).no_duplicates(),
    decreases s.len(),
{
    reveal_with_fuel(Seq::filter, 1);
    if s.len() > 0 {
        let d = s.drop_last();
        lemma_filter_subset(d, p);
        assert forall|x: A| #[trigger] s.filter(p).contains(x) implies s.contains(x) && p(x) by {
            if d.filter(p).contains(x) {
                let j = choose|j: int| 0 <= j < d.len() && d[j] == x;
                assert(s[j] == x);
            } else {
                assert(x == s.last());
                assert(s[s.len() - 1] == x);
            }
        }
        if s.no_duplicates() {
            assert(d.no_duplicates());
            if p(s.last()) {
                assert(!d.contains(s.last()));
                assert(!d.filter(p).contains(s.last()));
                let f = s.filter(p);
                assert forall|i: int, j: int| 0 <= i < f.len() && 0 <= j < f.len() && i != j implies f[i] != f[j] by {
                    if i < f.len() - 1 && j < f.len() - 1 {
                        assert(f[i] == d.filter(p)[i]);
                        assert(f[j] == d.filter(p)[j]);
                    } else if i == f.len() - 1 {
                        assert(d.filter(p).contains(f[j]));
                    } else {
                        assert(d.filter(p).contains(f[i]));
                    }
                }
            }
        }
    }
}


/// Whether `a` ends with `p`.
pub fn has_suffix(a: &str, p: &str) -> (r: bool)
    ensures
        r == ends_with(a@, p@),
{
    let av = chars_of(a);
    let pv = chars_of(p);
    if pv.len() > av.len() {
        return false;
    }
    let off = av.len() - pv.len();
    let r = occurs_at_vec(&av, &pv, off);
    assert(off + pv@.len() == av@.len());
    r
}

/// The characters of `s` from position `from` up to, not including, `to`.
pub fn slice_chars(s: &str, from: usize, to: usize) -> (r: String)
    requires
        from <= to <= s@.len(),
    ensures
        r@ == s@.subrange(from as int, to as int),
{
    let v = chars_of(s);
    let mut out = String::new();
    let mut i: usize = from;
    while i < to
        invariant
            from <= i <= to,
            to <= v@.len(),
            v@ == s@,
            out@ == s@.subrange(from as int, i as int),
        decreases to - i,
    {
        push_char(&mut out, v[i]);
        i = i + 1;
        assert(out@ =~= s@.subrange(from as int, i as int));
    }
    out
}

/// Whether `s` holds the character `c`.
pub fn has_char(s: &str, c: char) -> (r: bool)
    ensures
        r == s@.contains(c),
{
    let v = chars_of(s);
    let mut i: usize = 0;
    while i < v.len()
        invariant
            i <= v.len(),
            v@ == s@,
            forall|j: int| 0 <= j < i ==> v@[j] != c,
        decreases v.len() - i,
    {
        if v[i] == c {
            return true;
        }
        i = i + 1;
    }
    false
}

/// How `{:?}` renders a string.
pub uninterp spec fn debug_str(s: Seq<char>) -> Seq<char>;

/// Render a string the way `format!("{:?}", s)` does.
#[verifier::external_body]
pub(crate) fn debug_string(s: &str) -> (r: String)
    ensures
        r@ == debug_str(s@),
{
    format!("{:?}", s)
}

/// The rendered items, separated by ", ".
pub open spec fn debug_items(items: Seq<Seq<char>>) -> Seq<char>
    decreases items.len(),
{
    if items.len() == 0 {
        Seq::empty()
    } else if items.len() == 1 {
        debug_str(items[0])
    } else {
        debug_items(items.drop_last()) + ", "@ + debug_str(items.last())
    }
}

/// A list of strings as `{:?}` renders it: each item rendered, separated by
/// ", ", inside brackets.
pub open spec fn debug_list(items: Seq<Seq<char>>) -> Seq<char> {
    "["@ + debug_items(items) + "]"@
}

/// Render a list of strings as `{:?}` renders it.
pub fn debug_strings(v: &Vec<String>) -> (s: String)
    ensures
        s@ == debug_list(views(v@)),
{
    let ghost items = views(v@);
    let mut s = String::new();
    proof {
        reveal_strlit("[");
        reveal_strlit("]");
        reveal_strlit(", ");
        reveal_strlit("");
    }
    let mut i: usize = 0;
    assert(items.take(0) =~= Seq::<Seq<char>>::empty());
    while i < v.len()
        invariant
            i <= v@.len(),
            items == views(v@),
            s@ == debug_items(items.take(i as int)),
        decreases v@.len() - i,
    {
        let ghost pre = items.take(i as int);
        assert(items.take(i + 1).drop_last() =~= pre);
        assert(items.take(i + 1).last() == v@[i as int]@);
        if i > 0 {
            push_str(&mut s, ", ");
        }
        let d = debug_string(v[i].as_str());
        push_str(&mut s, d.as_str());
        proof {
            if i == 0 {
                assert(items.take(1) =~= seq![v@[0]@]);
                assert(s@ =~= debug_items(items.take(1)));
            }
        }
        i = i + 1;
    }
    assert(items.take(v@.len() as int) =~= items);
    let mut out = String::new();
    push_str(&mut out, "[");
    push_str(&mut out, s.as_str());
    push_str(&mut out, "]");
    out
}

} // verus!
