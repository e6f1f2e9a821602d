//! The controlled vocabulary of the catalog: a bounded thesaurus of
//! canonical subject headings.

use vstd::prelude::*;
use crate::manifest::entry::add_missing;
use crate::text::{lemma_lt_asymmetric, lemma_lt_connected, lemma_lt_irreflexive, lemma_lt_transitive, seq_lt, str_lt, views};
use crate::vocab::{Thesaurus, ascii, expansions, lemma_lower_ascii_idempotent, lower, normal_form, variants_of};

verus! {

/// One variant spelling and its canonical term.
#[derive(Debug, PartialEq, Eq)]
pub struct VocabularyMapping {
    pub variant: String,
    pub canonical: String,
}

/// A list of mappings.
#[derive(Debug, PartialEq, Eq)]
pub struct ControlledVocabulary {
    pub mappings: Vec<VocabularyMapping>,
}

/// The views of mappings.
pub open spec fn mapping_views(v: Seq<VocabularyMapping>) -> Seq<(Seq<char>, Seq<char>)> {
    v.map_values(|m: VocabularyMapping| (m.variant@, m.canonical@))
}

/// The built-in vocabulary of abbreviations.
pub open spec fn default_pairs() -> Seq<(Seq<char>, Seq<char>)> {
    seq![
        ("auth"@, "authentication"@),
        ("authn"@, "authentication"@),
        ("authz"@, "authorization"@),
        ("db"@, "database"@),
        ("fe"@, "frontend"@),
        ("be"@, "backend"@),
        ("config"@, "configuration"@),
        ("cfg"@, "configuration"@),
        ("env"@, "environment"@),
        ("dep"@, "dependency"@),
        ("deps"@, "dependency"@),
        ("impl"@, "implementation"@),
        ("repo"@, "repository"@),
        ("pr"@, "pull_request"@),
        ("ci"@, "continuous_integration"@),
        ("cd"@, "continuous_deployment"@),
        ("api"@, "application_programming_interface"@),
        ("jwt"@, "json_web_token"@),
        ("ui"@, "user_interface"@),
        ("ux"@, "user_experience"@)
    ]
}

fn mapping(variant: &str, canonical: &str) -> (m: VocabularyMapping)
    ensures
        m.variant@ == variant@,
        m.canonical@ == canonical@,
{
    VocabularyMapping { variant: variant.to_owned(), canonical: canonical.to_owned() }
}

/// The built-in vocabulary of common abbreviations.
pub fn default_vocabulary() -> (v: ControlledVocabulary)
    ensures
        mapping_views(v.mappings@) == default_pairs(),
{
    let mut m: Vec<VocabularyMapping> = Vec::new();
    m.push(mapping("auth", "authentication"));
    m.push(mapping("authn", "authentication"));
    m.push(mapping("authz", "authorization"));
    m.push(mapping("db", "database"));
    m.push(mapping("fe", "frontend"));
    m.push(mapping("be", "backend"));
    m.push(mapping("config", "configuration"));
    m.push(mapping("cfg", "configuration"));
    m.push(mapping("env", "environment"));
    m.push(mapping("dep", "dependency"));
    m.push(mapping("deps", "dependency"));
    m.push(mapping("impl", "implementation"));
    m.push(mapping("repo", "repository"));
    m.push(mapping("pr", "pull_request"));
    m.push(mapping("ci", "continuous_integration"));
    m.push(mapping("cd", "continuous_deployment"));
    m.push(mapping("api", "application_programming_interface"));
    m.push(mapping("jwt", "json_web_token"));
    m.push(mapping("ui", "user_interface"));
    m.push(mapping("ux", "user_experience"));
    assert(mapping_views(m@) =~= default_pairs());
    ControlledVocabulary { mappings: m }
}

/// The thesaurus after adding the lower-case forms of the mappings in order.
pub open spec fn mapped_v2c(start: Map<Seq<char>, Seq<char>>, ms: Seq<(Seq<char>, Seq<char>)>) -> Map<Seq<char>, Seq<char>>
    decreases ms.len(),
{
    if ms.len() == 0 {
        start
    } else {
        mapped_v2c(start, ms.drop_last()).insert(lower(ms.last().0), lower(ms.last().1))
    }
}

/// The canonical-to-variants map after adding the mappings in order.
pub open spec fn mapped_c2v(start: Map<Seq<char>, Seq<Seq<char>>>, ms: Seq<(Seq<char>, Seq<char>)>) -> Map<Seq<char>, Seq<Seq<char>>>
    decreases ms.len(),
{
    if ms.len() == 0 {
        start
    } else {
        let m = mapped_c2v(start, ms.drop_last());
        m.insert(lower(ms.last().1), variants_of(m, lower(ms.last().1)).push(lower(ms.last().0)))
    }
}

/// A thesaurus with at most `max_headings` canonical terms added through
/// `add_mapping`.
pub struct VocabularyIndex {
    terms: Thesaurus,
    max_headings: usize,
}

impl VocabularyIndex {
    /// Variants to canonical terms.
    pub closed spec fn v2c(self) -> Map<Seq<char>, Seq<char>> {
        self.terms.v2c()
    }

    /// Canonical terms to their variants.
    pub closed spec fn c2v(self) -> Map<Seq<char>, Seq<Seq<char>>> {
        self.terms.c2v()
    }

    /// Canonical terms in the order first added.
    pub closed spec fn canon_order(self) -> Seq<Seq<char>> {
        self.terms.canon_order()
    }

    /// Variants in the order first mapped.
    pub closed spec fn variant_order(self) -> Seq<Seq<char>> {
        self.terms.variant_order()
    }

    /// The limit on canonical terms.
    pub closed spec fn limit(self) -> usize {
        self.max_headings
    }

    /// An index holding every mapping of the vocabulary (the limit is not
    /// applied to them).
    pub fn from_vocabulary(vocab: &ControlledVocabulary, max_headings: usize) -> (r: Self)
        ensures
            r.v2c() == mapped_v2c(Map::empty(), mapping_views(vocab.mappings@)),
            r.c2v() == mapped_c2v(Map::empty(), mapping_views(vocab.mappings@)),
            r.limit() == max_headings,
    {
        let mut t = Thesaurus::new();
        let ghost ms = mapping_views(vocab.mappings@);
        let mut i: usize = 0;
        assert(ms.take(0) =~= Seq::<(Seq<char>, Seq<char>)>::empty());
        while i < vocab.mappings.len()
            invariant
                i <= vocab.mappings@.len(),
                ms == mapping_views(vocab.mappings@),
                t.v2c() == mapped_v2c(Map::empty(), ms.take(i as int)),
                t.c2v() == mapped_c2v(Map::empty(), ms.take(i as int)),
            decreases vocab.mappings@.len() - i,
        {
            t.add(vocab.mappings[i].variant.as_str(), vocab.mappings[i].canonical.as_str());
            assert(ms.take(i + 1).drop_last() =~= ms.take(i as int));
            i = i + 1;
        }
        assert(ms.take(ms.len() as int) =~= ms);
        VocabularyIndex { terms: t, max_headings }
    }

    /// An empty index.
    pub fn empty(max_headings: usize) -> (r: Self)
        ensures
            r.v2c() == Map::<Seq<char>, Seq<char>>::empty(),
            r.c2v() == Map::<Seq<char>, Seq<Seq<char>>>::empty(),
            r.canon_order() == Seq::<Seq<char>>::empty(),
            r.limit() == max_headings,
    {
        VocabularyIndex { terms: Thesaurus::new(), max_headings }
    }

    /// The canonical term of a word.
    pub fn normalize(&self, term: &str) -> (r: String)
        ensures
            r@ == normal_form(self.v2c(), term@),
    {
        self.terms.normalize(term)
    }

    /// The canonical terms of the subjects, each once, in order of first appearance.
    pub fn normalize_subjects(&self, subjects: &[String]) -> (r: Vec<String>)
        ensures
            views(r@) == add_missing(Seq::empty(), subjects@.map_values(|s: String| normal_form(self.v2c(), s@))),
    {
        self.terms.normalize_subjects(subjects)
    }

    /// Map a variant to a canonical term; refused (false, nothing changes)
    /// when the canonical term is new and the limit is reached.
    pub fn add_mapping(&mut self, variant: &str, canonical: &str) -> (r: bool)
        ensures
            r == (old(self).c2v().dom().contains(lower(canonical@)) || old(self).c2v().len() < old(self).limit()),
            final(self).limit() == old(self).limit(),
            r ==> final(self).v2c() == old(self).v2c().insert(lower(variant@), lower(canonical@)),
            r ==> final(self).c2v() == old(self).c2v().insert(
                lower(canonical@),
                variants_of(old(self).c2v(), lower(canonical@)).push(lower(variant@)),
            ),
            !r ==> final(self).v2c() == old(self).v2c() && final(self).c2v() == old(self).c2v()
                && final(self).canon_order() == old(self).canon_order(),
    {
        let c = crate::vocab::to_lower(canonical);
        if !self.terms.has_canonical(c.as_str()) && self.terms.canonical_count() >= self.max_headings {
            return false;
        }
        self.terms.add(variant, canonical);
        true
    }

    /// Drop a canonical term and unmap its variants.
    pub fn remove_canonical(&mut self, canonical: &str)
        ensures
            final(self).limit() == old(self).limit(),
            !old(self).c2v().dom().contains(lower(canonical@)) ==> final(self).v2c() == old(self).v2c()
                && final(self).c2v() == old(self).c2v(),
            old(self).c2v().dom().contains(lower(canonical@)) ==> {
                &&& final(self).c2v() == old(self).c2v().remove(lower(canonical@))
                &&& final(self).v2c() == old(self).v2c().remove_keys(old(self).c2v()[lower(canonical@)].to_set())
            },
    {
        self.terms.remove_canonical(canonical)
    }

    /// The variants of a canonical term, in the order added.
    pub fn get_variants(&self, canonical: &str) -> (r: Vec<String>)
        ensures
            views(r@) == variants_of(self.c2v(), lower(canonical@)),
    {
        self.terms.get_variants(canonical)
    }

    /// Every canonical term, in the order first added.
    pub fn all_canonical_terms(&self) -> (r: Vec<&str>)
        ensures
            r@.map_values(|s: &str| s@) == self.canon_order(),
            forall|c: Seq<char>| self.c2v().dom().contains(c) <==> self.canon_order().contains(c),
    {
        self.terms.all_canonical_terms()
    }

    /// Number of canonical terms.
    pub fn canonical_count(&self) -> (n: usize)
        ensures
            n == self.c2v().len(),
    {
        self.terms.canonical_count()
    }

    /// Each query term with its canonical term and variants, each word once.
    pub fn expand_query(&self, terms: &[String]) -> (r: Vec<String>)
        ensures
            views(r@) == add_missing(Seq::empty(), expansions(self.v2c(), self.c2v(), terms@.map_values(|s: String| s@))),
    {
        self.terms.expand_query(terms)
    }

    /// The mappings, sorted by variant.
    pub fn to_vocabulary(&self) -> (v: ControlledVocabulary)
        ensures
            forall|i: int, j: int| 0 <= i < j < v.mappings@.len() ==> seq_lt(#[trigger] v.mappings@[i].variant@, #[trigger] v.mappings@[j].variant@),
            covers(self.v2c(), v.mappings@),
            forall|i: int| 0 <= i < v.mappings@.len() ==> self.v2c().dom().contains((#[trigger] v.mappings@[i]).variant@)
                && v.mappings@[i].canonical@ == self.v2c()[v.mappings@[i].variant@],
    {
        let pairs = self.terms.mappings();
        let ghost keys = pairs@.map_values(|p: (String, String)| p.0@);
        let ghost ms = pairs@.map_values(|p: (String, String)| VocabularyMapping { variant: p.0, canonical: p.1 });
        let mut out: Vec<VocabularyMapping> = Vec::new();
        let mut i: usize = 0;
        assert(ms.take(0) =~= Seq::<VocabularyMapping>::empty());
        while i < pairs.len()
            invariant
                i <= pairs@.len(),
                keys == pairs@.map_values(|p: (String, String)| p.0@),
                ms == pairs@.map_values(|p: (String, String)| VocabularyMapping { variant: p.0, canonical: p.1 }),
                keys.no_duplicates(),
                sorted_by_variant(out@),
                out@.to_multiset() == ms.take(i as int).to_multiset(),
            decreases pairs@.len() - i,
        {
            let m = VocabularyMapping { variant: pairs[i].0.clone(), canonical: pairs[i].1.clone() };
            assert(m == ms[i as int]);
            proof {
                assert forall|a: int| 0 <= a < out@.len() implies (#[trigger] out@[a]).variant@ != m.variant@ by {
                    broadcast use vstd::seq_lib::group_seq_properties;
                    assert(out@.to_multiset().count(out@[a]) > 0);
                    assert(ms.take(i as int).contains(out@[a]));
                    let x = choose|x: int| 0 <= x < i && ms.take(i as int)[x] == out@[a];
                    assert(keys[x] != keys[i as int]);
                }
                assert(ms.take(i + 1) =~= ms.take(i as int).push(m));
                broadcast use vstd::seq_lib::group_seq_properties;
            }
            insert_by_variant(&mut out, m);
            i = i + 1;
        }
        assert(ms.take(ms.len() as int) =~= ms);
        proof {
            broadcast use vstd::seq_lib::group_seq_properties;
            assert forall|k: Seq<char>| self.v2c().dom().contains(k) implies exists|a: int| 0 <= a < out@.len() && (#[trigger] out@[a]).variant@ == k by {
                assert(keys.contains(k));
                let x = choose|x: int| 0 <= x < keys.len() && keys[x] == k;
                assert(ms.contains(ms[x]));
                assert(ms.to_multiset().count(ms[x]) > 0);
                assert(out@.to_multiset().count(ms[x]) > 0);
                assert(out@.contains(ms[x]));
                let a = choose|a: int| 0 <= a < out@.len() && out@[a] == ms[x];
                assert(ms[x].variant == pairs@[x].0);
                assert(out@[a].variant@ == k);
            }
            assert forall|a: int| 0 <= a < out@.len() implies self.v2c().dom().contains(#[trigger] out@[a].variant@)
                && out@[a].canonical@ == self.v2c()[out@[a].variant@] by {
                assert(out@.contains(out@[a]));
                assert(ms.to_multiset().count(out@[a]) > 0);
                let x = choose|x: int| 0 <= x < ms.len() && ms[x] == out@[a];
                assert(keys.contains(keys[x]));
            }
        }
        assert(covers(self.v2c(), out@));
        ControlledVocabulary { mappings: out }
    }
}

/// Every variant of the map has a mapping in the list.
pub open spec fn covers(v2c: Map<Seq<char>, Seq<char>>, s: Seq<VocabularyMapping>) -> bool {
    forall|k: Seq<char>| #[trigger] v2c.dom().contains(k) ==> exists|i: int| 0 <= i < s.len() && (#[trigger] s[i]).variant@ == k
}

/// The mappings are in strictly increasing order of variant.
pub open spec fn sorted_by_variant(s: Seq<VocabularyMapping>) -> bool {
    forall|i: int, j: int| 0 <= i < j < s.len() ==> seq_lt(#[trigger] s[i].variant@, #[trigger] s[j].variant@)
}

/// Insert a mapping whose variant is new, keeping the order.
fn insert_by_variant(out: &mut Vec<VocabularyMapping>, m: VocabularyMapping)
    requires
        sorted_by_variant(old(out)@),
        forall|a: int| 0 <= a < old(out)@.len() ==> (#[trigger] old(out)@[a]).variant@ != m.variant@,
    ensures
        sorted_by_variant(final(out)@),
        final(out)@.to_multiset() == old(out)@.to_multiset().insert(m),
{
    let mut k: usize = 0;
    while k < out.len() && !str_lt(m.variant.as_str(), out[k].variant.as_str())
        invariant
            k <= out@.len(),
            forall|a: int| 0 <= a < k ==> !seq_lt(m.variant@, #[trigger] out@[a].variant@),
        decreases out@.len() - k,
    {
        k = k + 1;
    }
    let ghost before = out@;
    let ghost v = m.variant@;
    proof {
        assert forall|a: int| 0 <= a < k implies seq_lt(#[trigger] before[a].variant@, v) by {
            lemma_lt_connected(before[a].variant@, v);
        }
        if k < before.len() {
            assert forall|b: int| k <= b < before.len() implies seq_lt(v, #[trigger] before[b].variant@) by {
                if b > k {
                    lemma_lt_transitive(v, before[k as int].variant@, before[b].variant@);
                }
            }
        }
    }
    out.insert(k, m);
    proof {
        assert(out@ == before.insert(k as int, m));
        vstd::seq_lib::to_multiset_insert(before, k as int, m);
        assert forall|a: int, b: int| 0 <= a < b < out@.len() implies seq_lt(#[trigger] out@[a].variant@, #[trigger] out@[b].variant@) by {
            if a < k && b < k {
                assert(out@[a] == before[a] && out@[b] == before[b]);
            } else if a < k && b == k {
                assert(out@[a] == before[a]);
            } else if a < k && b > k {
                assert(out@[a] == before[a] && out@[b] == before[b - 1]);
                lemma_lt_transitive(before[a].variant@, v, before[b - 1].variant@);
            } else if a == k {
                assert(out@[b] == before[b - 1]);
            } else {
                assert(out@[a] == before[a - 1] && out@[b] == before[b - 1]);
            }
        }
    }
}


/// The first `k` mappings, read back, give a map whose variants are theirs
/// and whose terms are those of `v2c`, provided lowercasing leaves the terms
/// of `v2c` unchanged.
proof fn lemma_rebuilt_prefix(v2c: Map<Seq<char>, Seq<char>>, ms: Seq<VocabularyMapping>, k: int)
    requires
        0 <= k <= ms.len(),
        sorted_by_variant(ms),
        forall|i: int| 0 <= i < ms.len() ==> v2c.dom().contains((#[trigger] ms[i]).variant@) && ms[i].canonical@ == v2c[ms[i].variant@],
        forall|x: Seq<char>| #[trigger] v2c.dom().contains(x) ==> lower(x) == x && lower(v2c[x]) == v2c[x],
    ensures
        forall|x: Seq<char>| #[trigger] mapped_v2c(Map::empty(), mapping_views(ms).take(k)).dom().contains(x)
            <==> exists|i: int| 0 <= i < k && (#[trigger] ms[i]).variant@ == x,
        forall|x: Seq<char>| #[trigger] mapped_v2c(Map::empty(), mapping_views(ms).take(k)).dom().contains(x)
            ==> mapped_v2c(Map::empty(), mapping_views(ms).take(k))[x] == v2c[x],
    decreases k,
{
    let ps = mapping_views(ms);
    if k > 0 {
        lemma_rebuilt_prefix(v2c, ms, k - 1);
        assert(ps.take(k).drop_last() =~= ps.take(k - 1));
        assert(ps.take(k).last() == (ms[k - 1].variant@, ms[k - 1].canonical@));
        let m = mapped_v2c(Map::empty(), ps.take(k));
        let m0 = mapped_v2c(Map::empty(), ps.take(k - 1));
        assert(v2c.dom().contains(ms[k - 1].variant@));
        assert(m == m0.insert(ms[k - 1].variant@, ms[k - 1].canonical@));
        assert forall|x: Seq<char>| #[trigger] m.dom().contains(x) <==> exists|i: int| 0 <= i < k && (#[trigger] ms[i]).variant@ == x by {
            if exists|i: int| 0 <= i < k && (#[trigger] ms[i]).variant@ == x {
                let i = choose|i: int| 0 <= i < k && (#[trigger] ms[i]).variant@ == x;
                if i < k - 1 {
                    assert(m0.dom().contains(x));
                }
            }
            if m0.dom().contains(x) {
                let i = choose|i: int| 0 <= i < k - 1 && (#[trigger] ms[i]).variant@ == x;
            }
        }
    }
}

/// `k` is the lower-case form of some ASCII word.
pub open spec fn ascii_image(k: Seq<char>) -> bool {
    exists|y: Seq<char>| ascii(y) && k == lower(y)
}

/// Writing an index's mappings out with `to_vocabulary` and reading them
/// back with `from_vocabulary` gives the same variant map, and so the same
/// `normalize`, for an index whose terms are the lower-case forms of ASCII
/// words.
pub proof fn lemma_vocabulary_round_trip(v2c: Map<Seq<char>, Seq<char>>, ms: Seq<VocabularyMapping>)
    requires
        sorted_by_variant(ms),
        covers(v2c, ms),
        forall|i: int| 0 <= i < ms.len() ==> v2c.dom().contains((#[trigger] ms[i]).variant@) && ms[i].canonical@ == v2c[ms[i].variant@],
        forall|x: Seq<char>| #[trigger] v2c.dom().contains(x) ==> ascii_image(x) && ascii_image(v2c[x]),
    ensures
        mapped_v2c(Map::empty(), mapping_views(ms)) == v2c,
        forall|t: Seq<char>| normal_form(mapped_v2c(Map::empty(), mapping_views(ms)), t) == normal_form(v2c, t),
{
    let ps = mapping_views(ms);
    assert forall|x: Seq<char>| #[trigger] v2c.dom().contains(x) implies lower(x) == x && lower(v2c[x]) == v2c[x] by {
        let y = choose|y: Seq<char>| ascii(y) && x == lower(y);
        lemma_lower_ascii_idempotent(y);
        let z = choose|z: Seq<char>| ascii(z) && v2c[x] == lower(z);
        lemma_lower_ascii_idempotent(z);
    }
    lemma_rebuilt_prefix(v2c, ms, ms.len() as int);
    assert(ps.take(ms.len() as int) =~= ps);
    let m = mapped_v2c(Map::empty(), ps);
    assert forall|x: Seq<char>| m.dom().contains(x) <==> v2c.dom().contains(x) by {
        if v2c.dom().contains(x) {
            let i = choose|i: int| 0 <= i < ms.len() && (#[trigger] ms[i]).variant@ == x;
        }
    }
    assert(m =~= v2c);
}

} // verus!
