use but_ai::catalog::classification::{
    classify_entry, reclassify_entry, Classification, SourceClassification, TemporalClassification,
};
use but_ai::catalog::see_also::Relationship;
use but_ai::catalog::{CardCatalog, CatalogConfig, CatalogEntry};
use but_ai::circulation::tracker::CirculationRecord;
use but_ai::ids::{ItemId, TaskId};
use but_ai::memory::call_number::CallNumber;

fn config() -> CatalogConfig {
    CatalogConfig {
        max_see_also: 10,
        max_subject_headings: 3,
        call_number_depth: 5,
        circulation_tracking: true,
    }
}

fn entry(id: &str, content: &str, subjects: &[&str], call_number: &str) -> CatalogEntry {
    CatalogEntry {
        item_id: ItemId(id.to_string()),
        content: content.to_string(),
        classification: Classification {
            subject_headings: subjects.iter().map(|s| s.to_string()).collect(),
            call_number: CallNumber::parse(call_number),
            source: SourceClassification { task: None, agent: None, branch: None, tool: None },
            temporal: TemporalClassification {
                created: "2026-01-01T00:00:00Z".to_string(),
                last_accessed: "2026-01-01T00:00:00Z".to_string(),
                last_validated: "2026-01-01T00:00:00Z".to_string(),
            },
        },
        see_also: Vec::new(),
        circulation: CirculationRecord { total_checkouts: 0, last_checkout: None, checkout_contexts: Vec::new() },
        ttl: "30d".to_string(),
        deaccessioned: false,
    }
}

#[test]
fn accession_assigns_serial_ids_and_normalizes_subjects() {
    let mut cat = CardCatalog::new(config());
    let id = cat.accession(entry("", "JWT middleware", &["auth", "authn", "db", "api", "extra"], "ARCH.AUTH"));
    assert_eq!(id.0, "mem_0001");
    let stored = cat.get(&id).unwrap();
    assert_eq!(stored.classification.subject_headings, vec!["authentication", "database", "application_programming_interface"]);
    let id2 = cat.accession(entry("", "second", &[], "TEST"));
    assert_eq!(id2.0, "mem_0002");
    let id3 = cat.accession(entry("custom", "third", &[], "TEST"));
    assert_eq!(id3.0, "custom");
    assert_eq!(cat.total_count(), 3);
    assert_eq!(cat.active_count(), 3);
    assert!(cat.hierarchy().lookup(&CallNumber::parse("ARCH.AUTH")).is_some());
}

#[test]
fn deaccession_keeps_the_entry_but_not_as_active() {
    let mut cat = CardCatalog::new(config());
    let a = cat.accession(entry("a", "alpha", &[], "ARCH"));
    let b = cat.accession(entry("b", "beta", &[], "ARCH"));
    assert!(cat.graph_mut().add_link(a.clone(), b.clone(), Relationship::RelatedTo, "x".to_string()));
    assert!(cat.deaccession(&a));
    assert!(!cat.deaccession(&ItemId("missing".to_string())));
    assert_eq!(cat.total_count(), 2);
    assert_eq!(cat.active_count(), 1);
    assert!(cat.get(&a).unwrap().deaccessioned);
    assert!(cat.graph().get_links(&b).is_empty());
    assert_eq!(cat.active_entries().len(), 1);
}

#[test]
fn checkout_records_circulation() {
    let mut cat = CardCatalog::new(config());
    let a = cat.accession(entry("a", "alpha", &[], "ARCH"));
    cat.checkout(&a, "planning").unwrap();
    cat.checkout(&a, "planning").unwrap();
    let e = cat.checkout(&a, "review").unwrap();
    assert_eq!(e.circulation.total_checkouts, 3);
    assert_eq!(e.circulation.last_checkout.as_deref(), Some("review"));
    assert_eq!(e.circulation.checkout_contexts, vec!["planning", "review"]);
    assert!(cat.checkout(&ItemId("nope".to_string()), "x").is_none());
}

#[test]
fn checkout_without_tracking_changes_nothing() {
    let mut cfg = config();
    cfg.circulation_tracking = false;
    let mut cat = CardCatalog::new(cfg);
    let a = cat.accession(entry("a", "alpha", &[], "ARCH"));
    let e = cat.checkout(&a, "planning").unwrap();
    assert_eq!(e.circulation.total_checkouts, 0);
}

#[test]
fn candidates_and_tiers_follow_circulation() {
    let mut cat = CardCatalog::new(config());
    let hi = cat.accession(entry("hi", "often used", &["x"], "ARCH.HI"));
    let mid = cat.accession(entry("mid", &"m".repeat(150), &["y"], "ARCH.MID"));
    let _lo = cat.accession(entry("lo", "never used", &[], "ARCH.LO"));
    for _ in 0..6 {
        cat.checkout(&hi, "ctx").unwrap();
    }
    cat.checkout(&mid, "ctx").unwrap();
    let candidates = cat.deaccession_candidates();
    assert_eq!(candidates.len(), 1);
    assert_eq!(candidates[0].item_id.0, "lo");
    let tiers = cat.compaction_tiers();
    assert_eq!(tiers.high.len(), 1);
    assert_eq!(tiers.high[0].item_id.0, "hi");
    assert_eq!(tiers.medium.len(), 1);
    assert_eq!(tiers.medium[0].content_summary.chars().count(), 100);
    assert_eq!(tiers.low.len(), 1);
    assert_eq!(tiers.low[0].to_string(), "ARCH.LO");
}

#[test]
fn classify_entry_enriches_with_keywords() {
    let c = classify_entry(
        "The authentication middleware validates tokens",
        CallNumber::parse("ARCH.AUTH"),
        vec!["Authentication".to_string()],
        Some(TaskId("t1".to_string())),
        None,
        Some("main".to_string()),
        None,
        "2026-03-01T00:00:00Z",
        3,
    );
    assert_eq!(c.subject_headings, vec!["Authentication", "middleware", "validates"]);
    assert_eq!(c.temporal.created, "2026-03-01T00:00:00Z");
    assert_eq!(c.temporal.last_validated, "2026-03-01T00:00:00Z");
    assert_eq!(c.source.branch.as_deref(), Some("main"));
}

#[test]
fn classify_entry_truncates_given_subjects() {
    let c = classify_entry(
        "content words here",
        CallNumber::parse("A"),
        vec!["a".to_string(), "b".to_string(), "c".to_string()],
        None,
        None,
        None,
        None,
        "now",
        2,
    );
    assert_eq!(c.subject_headings, vec!["a", "b"]);
}

#[test]
fn reclassify_updates_subjects_and_validation_date() {
    let mut e = entry("a", "alpha", &["old"], "ARCH");
    reclassify_entry(&mut e, Some(vec!["n1".into(), "n2".into(), "n3".into()]), None, "2026-04-01", 2);
    assert_eq!(e.classification.subject_headings, vec!["n1", "n2"]);
    assert_eq!(e.classification.call_number.to_string(), "ARCH");
    assert_eq!(e.classification.temporal.last_validated, "2026-04-01");
    assert_eq!(e.classification.temporal.created, "2026-01-01T00:00:00Z");
    reclassify_entry(&mut e, None, Some(CallNumber::parse("TEST.X")), "2026-05-01", 2);
    assert_eq!(e.classification.call_number.to_string(), "TEST.X");
    assert_eq!(e.classification.subject_headings, vec!["n1", "n2"]);
}

#[test]
fn search_basis_finds_matches_and_their_neighbours() {
    let mut cat = CardCatalog::new(config());
    let a = cat.accession(entry("a", "auth notes", &["authentication"], "ARCH"));
    let b = cat.accession(entry("b", "db notes", &["database"], "ARCH"));
    let c = cat.accession(entry("c", "far notes", &["other"], "ARCH"));
    let d = cat.accession(entry("d", "unrelated", &["misc"], "ARCH"));
    assert!(cat.graph_mut().add_link(a.clone(), b.clone(), Relationship::RelatedTo, String::new()));
    assert!(cat.graph_mut().add_link(b.clone(), c.clone(), Relationship::RelatedTo, String::new()));
    for _ in 0..4 {
        cat.checkout(&b, "x").unwrap();
    }
    let basis = cat.search_basis(&["auth".to_string()]);
    assert!(basis.expanded.contains(&"authentication".to_string()));
    assert_eq!(basis.max_circulation, 4);
    let hop = |id: &ItemId| basis.hops.iter().find(|(k, _)| k == id).map(|(_, h)| *h);
    assert_eq!(hop(&a), Some(0));
    assert_eq!(hop(&b), Some(1));
    assert_eq!(hop(&c), Some(2));
    assert_eq!(hop(&d), None);
}

#[test]
fn search_basis_of_an_empty_catalog() {
    let cat = CardCatalog::new(config());
    let basis = cat.search_basis(&["anything".to_string()]);
    assert_eq!(basis.max_circulation, 1);
    assert!(basis.hops.is_empty());
}

#[test]
fn subject_matches_ignore_ascii_case() {
    let headings = vec!["Authentication".to_string(), "jwt".to_string()];
    let query = vec!["authentication".to_string(), "JWT".to_string(), "oauth".to_string()];
    assert_eq!(but_ai::catalog::search::subject_match_count(&headings, &query), 2);
    assert_eq!(but_ai::catalog::search::subject_match_count(&headings, &[]), 0);
}
