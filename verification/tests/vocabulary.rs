use but_ai::catalog::controlled_vocab::{default_vocabulary, VocabularyIndex};
use but_ai::memory::controlled_vocab::VocabularyIndex as MemoryVocabulary;

#[test]
fn controlled_vocab_normalization() {
    let vocab = default_vocabulary();
    let index = VocabularyIndex::from_vocabulary(&vocab, 200);

    assert_eq!(index.normalize("auth"), "authentication");
    assert_eq!(index.normalize("authn"), "authentication");
    assert_eq!(index.normalize("unknown_term"), "unknown_term");
}

#[test]
fn controlled_vocab_deduplication_after_normalization() {
    let vocab = default_vocabulary();
    let index = VocabularyIndex::from_vocabulary(&vocab, 200);

    let subjects = vec!["auth".into(), "authentication".into(), "authn".into()];
    let normalized = index.normalize_subjects(&subjects);
    assert_eq!(normalized.len(), 1);
    assert_eq!(normalized[0], "authentication");
}

#[test]
fn controlled_vocab_query_expansion() {
    let vocab = default_vocabulary();
    let index = VocabularyIndex::from_vocabulary(&vocab, 200);

    let expanded = index.expand_query(&["auth".into()]);
    assert!(expanded.contains(&"authentication".to_string()));
    assert!(expanded.contains(&"auth".to_string()));
    assert!(expanded.contains(&"authn".to_string()));
}

#[test]
fn max_headings_limit() {
    let mut index = VocabularyIndex::empty(2);
    assert!(index.add_mapping("a", "canonical_a"));
    assert!(index.add_mapping("b", "canonical_b"));
    assert!(!index.add_mapping("c", "canonical_c"));
    assert!(index.add_mapping("a2", "canonical_a"));
}

#[test]
fn normalization() {
    let index = MemoryVocabulary::with_defaults();
    assert_eq!(index.normalize("auth"), "authentication");
    assert_eq!(index.normalize("authn"), "authentication");
    assert_eq!(index.normalize("unknown_term"), "unknown_term");
}

#[test]
fn deduplication_after_normalization() {
    let index = MemoryVocabulary::with_defaults();
    let subjects = vec!["auth".into(), "authentication".into(), "authn".into()];
    let normalized = index.normalize_subjects(&subjects);
    assert_eq!(normalized.len(), 1);
    assert_eq!(normalized[0], "authentication");
}

#[test]
fn query_expansion() {
    let index = MemoryVocabulary::with_defaults();
    let expanded = index.expand_query(&["auth".into()]);
    assert!(expanded.contains(&"authentication".to_string()));
    assert!(expanded.contains(&"auth".to_string()));
    assert!(expanded.contains(&"authn".to_string()));
}

#[test]
fn remove_canonical() {
    let mut index = MemoryVocabulary::with_defaults();
    index.remove_canonical("authentication");
    assert_eq!(index.normalize("auth"), "auth");
}

#[test]
fn normalize_lowercases_input() {
    let index = MemoryVocabulary::with_defaults();
    assert_eq!(index.normalize("AUTH"), "authentication");
    assert_eq!(index.normalize("Something"), "something");
}

#[test]
fn normalize_is_idempotent_on_defaults() {
    let index = MemoryVocabulary::with_defaults();
    for t in ["auth", "db", "CFG", "plain", "authentication"] {
        let once = index.normalize(t);
        assert_eq!(index.normalize(&once), once);
    }
}

#[test]
fn canonical_counts() {
    let index = MemoryVocabulary::with_defaults();
    assert_eq!(index.canonical_count(), 17);
    let mut empty = MemoryVocabulary::new();
    assert_eq!(empty.canonical_count(), 0);
    empty.add_mapping("x", "y");
    assert_eq!(empty.get_variants("Y"), vec!["x".to_string()]);
}

#[test]
fn vocabulary_round_trip() {
    let vocab = default_vocabulary();
    let index = VocabularyIndex::from_vocabulary(&vocab, 200);
    let back = index.to_vocabulary();
    let again = VocabularyIndex::from_vocabulary(&back, 200);
    assert_eq!(again.canonical_count(), index.canonical_count());
    assert_eq!(again.normalize("authz"), index.normalize("authz"));
}
