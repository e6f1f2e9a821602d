//! The controlled vocabulary of memory subjects: a thesaurus of canonical
//! terms with no limit on their number.

use vstd::prelude::*;
use crate::catalog::controlled_vocab::{default_pairs, mapped_c2v, mapped_v2c};
use crate::manifest::entry::add_missing;
use crate::text::views;
use crate::vocab::{Thesaurus, expansions, lower, normal_form, variants_of};

verus! {

/// A thesaurus of subject terms.
pub struct VocabularyIndex {
    terms: Thesaurus,
}

impl Default for VocabularyIndex {
    fn default() -> (r: Self)
        ensures
            r.v2c() == Map::<Seq<char>, Seq<char>>::empty(),
            r.c2v() == Map::<Seq<char>, Seq<Seq<char>>>::empty(),
    {
        VocabularyIndex::new()
    }
}

impl VocabularyIndex {
    /// Variants to canonical terms.
    pub closed spec fn v2c(self) -> Map<Seq<char>, Seq<char>> {
        self.terms.v2c()
    }

    /// Canonical terms to their variants.
    pub closed spec fn c2v(self) -> Map<Seq<char>, Seq<Seq<char>>> {
        self.terms.c2v()
    }

    /// An empty index.
    pub fn new() -> (r: Self)
        ensures
            r.v2c() == Map::<Seq<char>, Seq<char>>::empty(),
            r.c2v() == Map::<Seq<char>, Seq<Seq<char>>>::empty(),
    {
        VocabularyIndex { terms: Thesaurus::new() }
    }

    /// An index holding the built-in abbreviations, added in order.
    pub fn with_defaults() -> (r: Self)
        ensures
            r.v2c() == mapped_v2c(Map::empty(), default_pairs()),
            r.c2v() == mapped_c2v(Map::empty(), default_pairs()),
    {
        let mut index = VocabularyIndex::new();
        index.add_mapping("auth", "authentication");
        index.add_mapping("authn", "authentication");
        index.add_mapping("authz", "authorization");
        index.add_mapping("db", "database");
        index.add_mapping("fe", "frontend");
        index.add_mapping("be", "backend");
        index.add_mapping("config", "configuration");
        index.add_mapping("cfg", "configuration");
        index.add_mapping("env", "environment");
        index.add_mapping("dep", "dependency");
        index.add_mapping("deps", "dependency");
        index.add_mapping("impl", "implementation");
        index.add_mapping("repo", "repository");
        index.add_mapping("pr", "pull_request");
        index.add_mapping("ci", "continuous_integration");
        index.add_mapping("cd", "continuous_deployment");
        index.add_mapping("api", "application_programming_interface");
        index.add_mapping("jwt", "json_web_token");
        index.add_mapping("ui", "user_interface");
        index.add_mapping("ux", "user_experience");
        proof {
            reveal_with_fuel(mapped_v2c, 21);
            reveal_with_fuel(mapped_c2v, 21);
            assert(default_pairs().len() == 20);
        }
        index
    }

    /// Map a variant to a canonical term (both lower-cased).
    pub fn add_mapping(&mut self, variant: &str, canonical: &str)
        ensures
            final(self).v2c() == old(self).v2c().insert(lower(variant@), lower(canonical@)),
            final(self).c2v() == old(self).c2v().insert(
                lower(canonical@),
                variants_of(old(self).c2v(), lower(canonical@)).push(lower(variant@)),
            ),
    {
        self.terms.add(variant, canonical)
    }

    /// Drop a canonical term and unmap its variants.
    pub fn remove_canonical(&mut self, canonical: &str)
        ensures
            !old(self).c2v().dom().contains(lower(canonical@)) ==> final(self).v2c() == old(self).v2c()
                && final(self).c2v() == old(self).c2v(),
            old(self).c2v().dom().contains(lower(canonical@)) ==> {
                &&& final(self).c2v() == old(self).c2v().remove(lower(canonical@))
                &&& final(self).v2c() == old(self).v2c().remove_keys(old(self).c2v()[lower(canonical@)].to_set())
            },
    {
        self.terms.remove_canonical(canonical)
    }

    /// The canonical term of a word.
    pub fn normalize(&self, term: &str) -> (r: String)
        ensures
            r@ == normal_form(self.v2c(), term@),
    {
        self.terms.normalize(term)
    }

    /// The canonical terms of the subjects, each once, in order of first appearance.
    pub fn normalize_subjects(&self, subjects: &[String]) -> (r: Vec<String>)
        ensures
            views(r@) == add_missing(Seq::empty(), subjects@.map_values(|s: String| normal_form(self.v2c(), s@))),
    {
        self.terms.normalize_subjects(subjects)
    }

    /// The variants of a canonical term, in the order added.
    pub fn get_variants(&self, canonical: &str) -> (r: Vec<String>)
        ensures
            views(r@) == variants_of(self.c2v(), lower(canonical@)),
    {
        self.terms.get_variants(canonical)
    }

    /// Each query term with its canonical term and variants, each word once.
    pub fn expand_query(&self, terms: &[String]) -> (r: Vec<String>)
        ensures
            views(r@) == add_missing(Seq::empty(), expansions(self.v2c(), self.c2v(), terms@.map_values(|s: String| s@))),
    {
        self.terms.expand_query(terms)
    }

    /// Number of canonical terms.
    pub fn canonical_count(&self) -> (n: usize)
        ensures
            n == self.c2v().len(),
    {
        self.terms.canonical_count()
    }
}

} // verus!
