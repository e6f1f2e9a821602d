//! A thesaurus of controlled terms: variant spellings mapped to canonical
//! terms, both compared in lower case.

use vstd::prelude::*;
use crate::manifest::entry::{add_missing, add_missing_exec};
use crate::strmap::StrMap;
use crate::text::{clone_strings, contains_string, views};

verus! {

/// Every character is ASCII.
pub open spec fn ascii(s: Seq<char>) -> bool {
    forall|i: int| 0 <= i < s.len() ==> (#[trigger] s[i] as u32) < 128
}

/// An ASCII upper-case letter in lower case; any other character unchanged.
pub open spec fn ascii_lower_char(c: char) -> char {
    if 'A' <= c && c <= 'Z' { ((c as u32) + 32) as char } else { c }
}

/// An ASCII lower-case letter in upper case; any other character unchanged.
pub open spec fn ascii_upper_char(c: char) -> char {
    if 'a' <= c && c <= 'z' { ((c as u32) - 32) as char } else { c }
}

/// What `str::to_lowercase` returns for a string that is not all ASCII.
pub uninterp spec fn lowercase(s: Seq<char>) -> Seq<char>;

/// What `str::to_uppercase` returns for a string that is not all ASCII.
pub uninterp spec fn uppercase(s: Seq<char>) -> Seq<char>;

/// The lower-case form of a string: on ASCII text, each letter A to Z
/// becomes a to z and every other character stays.
pub open spec fn lower(s: Seq<char>) -> Seq<char> {
    if ascii(s) { s.map_values(|c: char| ascii_lower_char(c)) } else { lowercase(s) }
}

/// The upper-case form of a string: on ASCII text, each letter a to z
/// becomes A to Z and every other character stays.
pub open spec fn upper(s: Seq<char>) -> Seq<char> {
    if ascii(s) { s.map_values(|c: char| ascii_upper_char(c)) } else { uppercase(s) }
}

/// Lower-case a string (`str::to_lowercase`). Lower case is Unicode's
/// mapping, which on ASCII letters is the ASCII one; what it gives for
/// other text is named `lowercase`.
#[verifier::external_body]
pub(crate) fn to_lower(s: &str) -> (r: String)
    ensures
        r@ == lower(s@),
        !ascii(s@) ==> r@ == lowercase(s@),
{
    s.to_lowercase()
}

/// Upper-case a string (`str::to_uppercase`). Upper case is Unicode's
/// mapping, which on ASCII letters is the ASCII one; what it gives for
/// other text is named `uppercase`.
#[verifier::external_body]
pub(crate) fn to_upper(s: &str) -> (r: String)
    ensures
        r@ == upper(s@),
        !ascii(s@) ==> r@ == uppercase(s@),
{
    s.to_uppercase()
}

/// Lower-casing ASCII text gives ASCII text that lower-casing keeps.
pub proof fn lemma_lower_ascii_idempotent(s: Seq<char>)
    requires
        ascii(s),
    ensures
        ascii(lower(s)),
        lower(lower(s)) == lower(s),
{
    let l = lower(s);
    assert forall|i: int| 0 <= i < l.len() implies (#[trigger] l[i] as u32) < 128 by {
        assert(l[i] == ascii_lower_char(s[i]));
        assert((s[i] as u32) < 128);
    }
    assert(lower(l) =~= l);
}

/// The canonical term of a word: that of its lower-case form when that is a
/// known variant, else the lower-case form itself.
pub open spec fn normal_form(v2c: Map<Seq<char>, Seq<char>>, term: Seq<char>) -> Seq<char> {
    let l = lower(term);
    if v2c.dom().contains(l) { v2c[l] } else { l }
}

/// The variants of a canonical term (none when unknown).
pub open spec fn variants_of(c2v: Map<Seq<char>, Seq<Seq<char>>>, c: Seq<char>) -> Seq<Seq<char>> {
    if c2v.dom().contains(c) { c2v[c] } else { Seq::empty() }
}

/// The words a query term brings in: its lower-case form; its canonical term
/// and that term's variants when it is a variant; its own variants when it
/// is a canonical term.
pub open spec fn expansion(v2c: Map<Seq<char>, Seq<char>>, c2v: Map<Seq<char>, Seq<Seq<char>>>, term: Seq<char>) -> Seq<Seq<char>> {
    let l = lower(term);
    seq![l] + (if v2c.dom().contains(l) { seq![v2c[l]] + variants_of(c2v, v2c[l]) } else { Seq::empty() })
        + variants_of(c2v, l)
}

/// The expansions of every query term, in order.
pub open spec fn expansions(v2c: Map<Seq<char>, Seq<char>>, c2v: Map<Seq<char>, Seq<Seq<char>>>, terms: Seq<Seq<char>>) -> Seq<Seq<char>>
    decreases terms.len(),
{
    if terms.len() == 0 { Seq::empty() } else { expansions(v2c, c2v, terms.drop_last()) + expansion(v2c, c2v, terms.last()) }
}

/// A thesaurus.
pub struct Thesaurus {
    variant_to_canonical: StrMap<String>,
    canonical_to_variants: StrMap<Vec<String>>,
}

impl Thesaurus {
    #[verifier::type_invariant]
    spec fn inv(self) -> bool {
        self.variant_to_canonical.wf() && self.canonical_to_variants.wf()
    }

    /// Variants to canonical terms.
    pub closed spec fn v2c(self) -> Map<Seq<char>, Seq<char>> {
        Map::new(
            |k: Seq<char>| self.variant_to_canonical.map().dom().contains(k),
            |k: Seq<char>| self.variant_to_canonical.map()[k]@,
        )
    }

    /// Canonical terms to their variants, in the order added.
    pub closed spec fn c2v(self) -> Map<Seq<char>, Seq<Seq<char>>> {
        Map::new(
            |k: Seq<char>| self.canonical_to_variants.map().dom().contains(k),
            |k: Seq<char>| views(self.canonical_to_variants.map()[k]@),
        )
    }

    /// Canonical terms in the order first added.
    pub closed spec fn canon_order(self) -> Seq<Seq<char>> {
        self.canonical_to_variants.key_seq()
    }

    /// An empty thesaurus.
    pub fn new() -> (t: Self)
        ensures
            t.v2c() == Map::<Seq<char>, Seq<char>>::empty(),
            t.c2v() == Map::<Seq<char>, Seq<Seq<char>>>::empty(),
            t.canon_order() == Seq::<Seq<char>>::empty(),
            t.variant_order() == Seq::<Seq<char>>::empty(),
    {
        let t = Thesaurus { variant_to_canonical: StrMap::new(), canonical_to_variants: StrMap::new() };
        assert(t.v2c() =~= Map::<Seq<char>, Seq<char>>::empty());
        assert(t.c2v() =~= Map::<Seq<char>, Seq<Seq<char>>>::empty());
        t
    }

    /// Whether `c` (already lower case) is a canonical term.
    pub fn has_canonical(&self, c: &str) -> (r: bool)
        ensures
            r == self.c2v().dom().contains(c@),
    {
        proof { use_type_invariant(self); }
        self.canonical_to_variants.contains_key(c)
    }

    /// Map the lower-case forms of `variant` to `canonical`, adding the
    /// variant to the canonical term's list.
    pub fn add(&mut self, variant: &str, canonical: &str)
        ensures
            final(self).v2c() == old(self).v2c().insert(lower(variant@), lower(canonical@)),
            final(self).c2v() == old(self).c2v().insert(
                lower(canonical@),
                variants_of(old(self).c2v(), lower(canonical@)).push(lower(variant@)),
            ),
            old(self).canon_order().contains(lower(canonical@)) ==> final(self).canon_order() == old(self).canon_order(),
            !old(self).canon_order().contains(lower(canonical@)) ==> final(self).canon_order() == old(self).canon_order().push(lower(canonical@)),
    {
        proof { use_type_invariant(&*self); }
        let v = to_lower(variant);
        let c = to_lower(canonical);
        let mut a = StrMap::new();
        std::mem::swap(&mut a, &mut self.variant_to_canonical);
        let ghost a0 = a.map();
        a.insert(v.clone(), c.clone());
        let mut b = StrMap::new();
        std::mem::swap(&mut b, &mut self.canonical_to_variants);
        proof { b.lemma_wf(); }
        let ghost b0 = b.map();
        let mut list = match b.get(c.as_str()) {
            Some(l) => clone_strings(l),
            None => Vec::new(),
        };
        let ghost l0 = views(list@);
        assert(l0 == variants_of(old(self).c2v(), lower(canonical@)));
        list.push(v);
        assert(views(list@) =~= l0.push(lower(variant@)));
        b.insert(c, list);
        self.variant_to_canonical = a;
        self.canonical_to_variants = b;
        proof {
            assert(self.v2c() =~= old(self).v2c().insert(lower(variant@), lower(canonical@)));
            assert forall|k: Seq<char>| #[trigger] self.c2v().dom().contains(k) implies self.c2v()[k] == old(self).c2v().insert(
                lower(canonical@),
                variants_of(old(self).c2v(), lower(canonical@)).push(lower(variant@)),
            )[k] by {
                if k != lower(canonical@) {
                    assert(b0.dom().contains(k));
                }
            }
            assert(self.c2v() =~= old(self).c2v().insert(
                lower(canonical@),
                variants_of(old(self).c2v(), lower(canonical@)).push(lower(variant@)),
            ));
        }
    }

    /// Drop a canonical term (lower-cased) and unmap every variant listed under it.
    pub fn remove_canonical(&mut self, canonical: &str)
        ensures
            !old(self).c2v().dom().contains(lower(canonical@)) ==> final(self).v2c() == old(self).v2c()
                && final(self).c2v() == old(self).c2v(),
            old(self).c2v().dom().contains(lower(canonical@)) ==> {
                &&& final(self).c2v() == old(self).c2v().remove(lower(canonical@))
                &&& final(self).v2c() == old(self).v2c().remove_keys(old(self).c2v()[lower(canonical@)].to_set())
            },
    {
        proof { use_type_invariant(&*self); }
        let c = to_lower(canonical);
        let mut b = StrMap::new();
        std::mem::swap(&mut b, &mut self.canonical_to_variants);
        let removed = b.remove(c.as_str());
        self.canonical_to_variants = b;
        match removed {
            Some(variants) => {
                let mut a = StrMap::new();
                std::mem::swap(&mut a, &mut self.variant_to_canonical);
                let ghost a0 = a.map();
                let ghost vs = views(variants@);
                let mut i: usize = 0;
                while i < variants.len()
                    invariant
                        a.wf(),
                        i <= variants@.len(),
                        vs == views(variants@),
                        a.map() == a0.remove_keys(vs.take(i as int).to_set()),
                    decreases variants@.len() - i,
                {
                    a.remove(variants[i].as_str());
                    proof {
                        assert(vs.take(i + 1) =~= vs.take(i as int).push(vs[i as int]));
                        vs.take(i as int).lemma_push_to_set_commute(vs[i as int]);
                        assert(a.map() =~= a0.remove_keys(vs.take(i + 1).to_set()));
                    }
                    i = i + 1;
                }
                assert(vs.take(vs.len() as int) =~= vs);
                self.variant_to_canonical = a;
                proof {
                    assert(self.v2c() =~= old(self).v2c().remove_keys(old(self).c2v()[lower(canonical@)].to_set()));
                    assert(self.c2v() =~= old(self).c2v().remove(lower(canonical@)));
                }
            },
            None => {
                proof {
                    assert(self.c2v() =~= old(self).c2v());
                }
            },
        }
    }

    /// The canonical term of a word.
    pub fn normalize(&self, term: &str) -> (r: String)
        ensures
            r@ == normal_form(self.v2c(), term@),
    {
        proof { use_type_invariant(self); }
        let lower = to_lower(term);
        match self.variant_to_canonical.get(lower.as_str()) {
            Some(c) => c.clone(),
            None => lower,
        }
    }

    /// The canonical terms of the subjects, each once, in order of first appearance.
    pub fn normalize_subjects(&self, subjects: &[String]) -> (r: Vec<String>)
        ensures
            views(r@) == add_missing(Seq::empty(), subjects@.map_values(|s: String| normal_form(self.v2c(), s@))),
    {
        let ghost ns = subjects@.map_values(|s: String| normal_form(self.v2c(), s@));
        let mut result: Vec<String> = Vec::new();
        let mut i: usize = 0;
        assert(ns.take(0) =~= Seq::<Seq<char>>::empty());
        while i < subjects.len()
            invariant
                i <= subjects@.len(),
                ns == subjects@.map_values(|s: String| normal_form(self.v2c(), s@)),
                views(result@) == add_missing(Seq::empty(), ns.take(i as int)),
            decreases subjects@.len() - i,
        {
            let canonical = self.normalize(subjects[i].as_str());
            assert(ns.take(i + 1).drop_last() =~= ns.take(i as int));
            if !contains_string(&result, &canonical) {
                let ghost before = views(result@);
                result.push(canonical);
                assert(views(result@) =~= before.push(ns[i as int]));
            }
            i = i + 1;
        }
        assert(ns.take(ns.len() as int) =~= ns);
        result
    }

    /// The variants of a canonical term (lower-cased), in the order added.
    pub fn get_variants(&self, canonical: &str) -> (r: Vec<String>)
        ensures
            views(r@) == variants_of(self.c2v(), lower(canonical@)),
    {
        proof { use_type_invariant(self); }
        let c = to_lower(canonical);
        match self.canonical_to_variants.get(c.as_str()) {
            Some(l) => clone_strings(l),
            None => {
                let v: Vec<String> = Vec::new();
                assert(views(v@) =~= Seq::<Seq<char>>::empty());
                v
            },
        }
    }

    /// Every canonical term, in the order first added.
    pub fn all_canonical_terms(&self) -> (r: Vec<&str>)
        ensures
            r@.map_values(|s: &str| s@) == self.canon_order(),
            forall|c: Seq<char>| self.c2v().dom().contains(c) <==> self.canon_order().contains(c),
    {
        proof {
            use_type_invariant(self);
            self.canonical_to_variants.lemma_wf();
        }
        let mut out: Vec<&str> = Vec::new();
        let mut i: usize = 0;
        while i < self.canonical_to_variants.len()
            invariant
                self.canonical_to_variants.wf(),
                i <= self.canonical_to_variants.key_seq().len(),
                out@.map_values(|s: &str| s@) == self.canonical_to_variants.key_seq().take(i as int),
            decreases self.canonical_to_variants.key_seq().len() - i,
        {
            let k = self.canonical_to_variants.key_at(i);
            let ghost before = out@;
            out.push(k.as_str());
            assert(out@.map_values(|s: &str| s@) =~= before.map_values(|s: &str| s@).push(k@));
            assert(self.canonical_to_variants.key_seq().take(i + 1) =~= self.canonical_to_variants.key_seq().take(i as int).push(k@));
            i = i + 1;
        }
        assert(self.canonical_to_variants.key_seq().take(self.canonical_to_variants.key_seq().len() as int) =~= self.canonical_to_variants.key_seq());
        out
    }

    /// Number of canonical terms.
    pub fn canonical_count(&self) -> (n: usize)
        ensures
            n == self.c2v().len(),
            n == self.canon_order().len(),
    {
        proof {
            use_type_invariant(self);
            self.canonical_to_variants.lemma_wf();
            self.canonical_to_variants.key_seq().unique_seq_to_set();
            assert(self.c2v().dom() =~= self.canonical_to_variants.key_seq().to_set());
        }
        self.canonical_to_variants.len()
    }

    /// Each query term with its canonical term and variants, each word once,
    /// in order of first appearance.
    pub fn expand_query(&self, terms: &[String]) -> (r: Vec<String>)
        ensures
            views(r@) == add_missing(Seq::empty(), expansions(self.v2c(), self.c2v(), terms@.map_values(|s: String| s@))),
    {
        proof { use_type_invariant(self); }
        let ghost ts = terms@.map_values(|s: String| s@);
        let mut out: Vec<String> = Vec::new();
        let mut i: usize = 0;
        assert(ts.take(0) =~= Seq::<Seq<char>>::empty());
        while i < terms.len()
            invariant
                self.variant_to_canonical.wf(),
                self.canonical_to_variants.wf(),
                i <= terms@.len(),
                ts == terms@.map_values(|s: String| s@),
                views(out@) == add_missing(Seq::empty(), expansions(self.v2c(), self.c2v(), ts.take(i as int))),
            decreases terms@.len() - i,
        {
            let lower = to_lower(terms[i].as_str());
            let mut cand: Vec<String> = Vec::new();
            cand.push(lower.clone());
            match self.variant_to_canonical.get(lower.as_str()) {
                Some(c) => {
                    cand.push(c.clone());
                    match self.canonical_to_variants.get(c.as_str()) {
                        Some(vs) => {
                            let more = clone_strings(vs);
                            let mut k: usize = 0;
                            let ghost base = views(cand@);
                            while k < more.len()
                                invariant
                                    k <= more@.len(),
                                    views(cand@) == base + views(more@).take(k as int),
                                decreases more@.len() - k,
                            {
                                let ghost before = views(cand@);
                                cand.push(more[k].clone());
                                assert(views(cand@) =~= before.push(more@[k as int]@));
                                assert(views(more@).take(k + 1) =~= views(more@).take(k as int).push(more@[k as int]@));
                                assert(views(cand@) =~= base + views(more@).take(k + 1));
                                k = k + 1;
                            }
                            assert(views(more@).take(more@.len() as int) =~= views(more@));
                        },
                        None => {},
                    }
                },
                None => {},
            }
            match self.canonical_to_variants.get(lower.as_str()) {
                Some(vs) => {
                    let more = clone_strings(vs);
                    let mut k: usize = 0;
                    let ghost base = views(cand@);
                    while k < more.len()
                        invariant
                            k <= more@.len(),
                            views(cand@) == base + views(more@).take(k as int),
                        decreases more@.len() - k,
                    {
                        let ghost before = views(cand@);
                        cand.push(more[k].clone());
                        assert(views(cand@) =~= before.push(more@[k as int]@));
                        assert(views(more@).take(k + 1) =~= views(more@).take(k as int).push(more@[k as int]@));
                        assert(views(cand@) =~= base + views(more@).take(k + 1));
                        k = k + 1;
                    }
                    assert(views(more@).take(more@.len() as int) =~= views(more@));
                },
                None => {},
            }
            proof {
                assert(ts.take(i + 1).drop_last() =~= ts.take(i as int));
                assert(ts[i as int] == terms@[i as int]@);
                assert(views(cand@) =~= expansion(self.v2c(), self.c2v(), ts[i as int]));
                lemma_add_missing_concat(Seq::empty(), expansions(self.v2c(), self.c2v(), ts.take(i as int)), views(cand@));
            }
            add_missing_exec(&mut out, &cand);
            i = i + 1;
        }
        assert(ts.take(ts.len() as int) =~= ts);
        out
    }

    /// Every variant with its canonical term, in the order variants were first mapped.
    pub fn mappings(&self) -> (r: Vec<(String, String)>)
        ensures
            r@.map_values(|p: (String, String)| p.0@) == self.variant_order(),
            forall|i: int| 0 <= i < r@.len() ==> (#[trigger] r@[i]).1@ == self.v2c()[r@[i].0@],
            forall|v: Seq<char>| self.v2c().dom().contains(v) <==> self.variant_order().contains(v),
            self.variant_order().no_duplicates(),
    {
        proof {
            use_type_invariant(self);
            self.variant_to_canonical.lemma_wf();
        }
        let m = &self.variant_to_canonical;
        let mut out: Vec<(String, String)> = Vec::new();
        let mut i: usize = 0;
        while i < m.len()
            invariant
                m.wf(),
                m == &self.variant_to_canonical,
                i <= m.key_seq().len(),
                m.key_seq().len() == m.val_seq().len(),
                forall|j: int| 0 <= j < m.key_seq().len() ==> #[trigger] m.map()[m.key_seq()[j]] == m.val_seq()[j],
                forall|k: Seq<char>| #[trigger] m.map().dom().contains(k) <==> m.key_seq().contains(k),
                out@.map_values(|p: (String, String)| p.0@) == m.key_seq().take(i as int),
                out@.len() == i,
                forall|j: int| 0 <= j < i ==> (#[trigger] out@[j]).0@ == m.key_seq()[j] && m.map().dom().contains(out@[j].0@),
                forall|j: int| 0 <= j < i ==> (#[trigger] out@[j]).1@ == m.map()[out@[j].0@]@,
            decreases m.key_seq().len() - i,
        {
            let k = m.key_at(i).clone();
            let v = m.val_at(i).clone();
            proof { assert(m.key_seq().contains(m.key_seq()[i as int])); }
            let ghost before = out@;
            out.push((k, v));
            assert(out@.map_values(|p: (String, String)| p.0@) =~= before.map_values(|p: (String, String)| p.0@).push(m.key_seq()[i as int]));
            assert(m.key_seq().take(i + 1) =~= m.key_seq().take(i as int).push(m.key_seq()[i as int]));
            i = i + 1;
        }
        assert(m.key_seq().take(m.key_seq().len() as int) =~= m.key_seq());
        out
    }

    /// Variants in the order first mapped.
    pub closed spec fn variant_order(self) -> Seq<Seq<char>> {
        self.variant_to_canonical.key_seq()
    }
}

/// Adding the elements of `b` after those of `a` is adding `a`, then `b`.
pub proof fn lemma_add_missing_concat(acc: Seq<Seq<char>>, a: Seq<Seq<char>>, b: Seq<Seq<char>>)
    ensures
        add_missing(acc, a + b) == add_missing(add_missing(acc, a), b),
    decreases b.len(),
{
    if b.len() == 0 {
        assert(a + b =~= a);
    } else {
        lemma_add_missing_concat(acc, a, b.drop_last());
        assert((a + b).drop_last() =~= a + b.drop_last());
        assert((a + b).last() == b.last());
    }
}

} // verus!
