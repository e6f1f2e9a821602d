use but_ai::ids::{AgentId, EntryId, MotifId, TensionId};
use but_ai::memory::retrieval::{infer_call_number, motif_matches, unresolved_tensions, RetrievalEngine};
use but_ai::memory::see_also::{Relationship, SeeAlsoGraph};
use but_ai::memory::call_number::CallNumber;
use but_ai::memory::classification::{auto_classify, classify_by_path, create_classified_entry, reclassify};
use but_ai::memory::compaction::{compact, estimate_tokens, render_compact};
use but_ai::memory::entry::{Classification, MemoryEntry, MemoryState, TensionRef, TensionRole};
use but_ai::memory::lifecycle::resuscitate;
use but_ai::memory::store::{InMemoryStore, StoreError};

/// The survival metadata the tests carry: a probability.
type Survival = f64;

fn make_entry(id: &str, state: MemoryState) -> MemoryEntry<Survival> {
    MemoryEntry {
        id: EntryId(id.into()),
        agent: AgentId("test-agent".into()),
        content: format!("content for {id}"),
        created_at: "2026-03-29T00:00:00Z".into(),
        last_accessed: "2026-03-29T00:00:00Z".into(),
        classification: Classification {
            subject_headings: vec!["testing".into()],
            call_number: CallNumber::parse("TEST.UNIT"),
            controlled_vocab: true,
        },
        see_also: Vec::new(),
        motifs: Vec::new(),
        tension_refs: Vec::new(),
        survival: 0.9,
        state,
        consensus_citations: 0,
        access_count: 0,
        source_commit: None,
    }
}

fn with_accesses(id: &str, access_count: u64) -> MemoryEntry<Survival> {
    let mut e = make_entry(id, MemoryState::Alive);
    e.content = "test content for compaction".into();
    e.access_count = access_count;
    e
}

#[test]
fn store_and_load() {
    let mut store = InMemoryStore::new();
    let entry = make_entry("e1", MemoryState::Alive);
    store.store(entry);

    let loaded = store.load(&EntryId("e1".into()));
    assert!(loaded.is_some());
    assert_eq!(loaded.unwrap().content, "content for e1");
}

#[test]
fn list_by_state() {
    let mut store = InMemoryStore::new();
    store.store(make_entry("a1", MemoryState::Alive));
    store.store(make_entry("a2", MemoryState::Alive));
    store.store(make_entry("m1", MemoryState::Moribund));

    assert_eq!(store.list(Some(MemoryState::Alive)).len(), 2);
    assert_eq!(store.list(Some(MemoryState::Moribund)).len(), 1);
    assert_eq!(store.list(None).len(), 3);
}

#[test]
fn transition_between_states() {
    let mut store = InMemoryStore::new();
    store.store(make_entry("e1", MemoryState::Alive));

    store.transition(&EntryId("e1".into()), MemoryState::Moribund).unwrap();

    assert_eq!(store.list(Some(MemoryState::Alive)).len(), 0);
    assert_eq!(store.list(Some(MemoryState::Moribund)).len(), 1);

    let loaded = store.load(&EntryId("e1".into())).unwrap();
    assert_eq!(loaded.state, MemoryState::Moribund);
}

#[test]
fn delete_entry() {
    let mut store = InMemoryStore::new();
    store.store(make_entry("e1", MemoryState::Alive));
    store.delete(&EntryId("e1".into())).unwrap();
    assert!(store.load(&EntryId("e1".into())).is_none());
}

#[test]
fn missing_entries_are_errors() {
    let mut store: InMemoryStore<Survival> = InMemoryStore::new();
    let err = store.delete(&EntryId("nope".into())).unwrap_err();
    assert_eq!(err, StoreError::NotFound(EntryId("nope".into())));
    assert_eq!(err.message(), "entry not found: nope");
    assert!(store.transition(&EntryId("nope".into()), MemoryState::Alive).is_err());
}

#[test]
fn storing_again_moves_an_entry_between_states() {
    let mut store = InMemoryStore::new();
    store.store(make_entry("e1", MemoryState::Alive));
    store.store(make_entry("e1", MemoryState::Deceased));
    assert_eq!(store.total_count(), 1);
    assert_eq!(store.count_by_state(MemoryState::Alive), 0);
    assert_eq!(store.count_by_state(MemoryState::Deceased), 1);
    assert_eq!(store.entries_by_state(MemoryState::Deceased).len(), 1);
    assert_eq!(store.all_entries().len(), 1);
}

#[test]
fn compaction_tiers() {
    let mut store = InMemoryStore::new();
    store.store(with_accesses("high", 10));
    store.store(with_accesses("medium", 3));
    store.store(with_accesses("low", 0));

    let tiers = compact(&store);
    assert_eq!(tiers.high.len(), 1);
    assert_eq!(tiers.medium.len(), 1);
    assert_eq!(tiers.low.len(), 1);
}

#[test]
fn token_estimation() {
    let mut store = InMemoryStore::new();
    store.store(with_accesses("high", 10));
    store.store(with_accesses("medium", 3));
    store.store(with_accesses("low", 0));

    let tiers = compact(&store);
    let tokens = estimate_tokens(&tiers);
    // 1*200 + 1*50 + 1*15 = 265
    assert_eq!(tokens, 265);
}

#[test]
fn compaction_renders_each_tier() {
    let mut store = InMemoryStore::new();
    store.store(with_accesses("high", 10));
    store.store(with_accesses("medium", 3));
    store.store(with_accesses("low", 0));
    let text = render_compact(&compact(&store));
    assert_eq!(
        text,
        "## High circulation (1 entries)\n\n\
         - [TEST.UNIT] testing (accesses: 10)\n  test content for compaction\n\n\
         ## Medium circulation (1 entries)\n\n\
         - [TEST.UNIT] testing (accesses: 3): test content for compaction...\n\n\
         ## Low circulation (1 entries)\n\n\
         - [TEST.UNIT] testing\n"
    );
    let empty: InMemoryStore<Survival> = InMemoryStore::new();
    assert_eq!(render_compact(&compact(&empty)), "");
}

#[test]
fn resuscitate_deceased_entry() {
    let mut store = InMemoryStore::new();
    store.store(make_entry("d1", MemoryState::Deceased));
    store.store(make_entry("a1", MemoryState::Alive));
    assert_eq!(resuscitate(&mut store, &EntryId("d1".into())), Ok(true));
    assert_eq!(store.load(&EntryId("d1".into())).unwrap().state, MemoryState::Alive);
    assert_eq!(resuscitate(&mut store, &EntryId("a1".into())), Ok(false));
    assert!(resuscitate(&mut store, &EntryId("zz".into())).is_err());
}

#[test]
fn auto_classify_adds_keywords_up_to_the_limit() {
    let mut e = make_entry("e1", MemoryState::Alive);
    e.content = "The authentication middleware validates Testing tokens".into();
    auto_classify(&mut e, 3);
    assert_eq!(e.classification.subject_headings, vec!["testing", "authentication", "middleware"]);
}

#[test]
fn classify_by_path_and_reclassify() {
    let mut e = make_entry("e1", MemoryState::Alive);
    classify_by_path(&mut e, "crates/but-ai/src/memory/store.rs", 5);
    assert_eq!(e.classification.call_number.to_string(), "CRATES.BUT-AI.MEMORY.STORE");
    reclassify(&mut e, Some(vec!["a".into(), "b".into(), "c".into()]), None, 2);
    assert_eq!(e.classification.subject_headings, vec!["a", "b"]);
    assert_eq!(e.classification.call_number.to_string(), "CRATES.BUT-AI.MEMORY.STORE");
}

#[test]
fn created_entries_are_alive_and_unlinked() {
    let e = create_classified_entry(
        "x1",
        "agent",
        "content".to_string(),
        CallNumber::parse("ARCH"),
        vec!["s".to_string()],
        "2026-01-01",
        1.0f64,
    );
    assert_eq!(e.state, MemoryState::Alive);
    assert_eq!(e.created_at, "2026-01-01");
    assert_eq!(e.last_accessed, "2026-01-01");
    assert!(!e.classification.controlled_vocab);
    assert!(e.see_also.is_empty() && e.motifs.is_empty() && e.tension_refs.is_empty());
    assert_eq!(e.survival, 1.0);
    let _ = TensionRef { tension_id: TensionId("t".into()), role: TensionRole::Resolved };
}

#[test]
fn infer_call_number_from_queries() {
    let c = infer_call_number("fix crates/but-ai/src/memory/store.rs now").unwrap();
    assert_eq!(c.to_string(), "CRATES.BUT-AI.MEMORY.STORE");
    let c = infer_call_number("see ARCH.AUTH notes").unwrap();
    assert_eq!(c.to_string(), "ARCH.AUTH");
    assert!(infer_call_number("plain words only").is_none());
    assert!(infer_call_number("lower.case only").is_none());
}

#[test]
fn motif_matches_and_open_tensions() {
    let mut e = make_entry("e1", MemoryState::Alive);
    e.content = "auth middleware".into();
    e.motifs.push(MotifId("Authentication-Flow".into()));
    let q = vec!["authentication".to_string(), "middleware".to_string(), "database".to_string(), "TESTING".to_string()];
    assert_eq!(motif_matches(&e, &q), 3);
    e.tension_refs.push(TensionRef { tension_id: TensionId("t1".into()), role: TensionRole::Introduced });
    e.tension_refs.push(TensionRef { tension_id: TensionId("t2".into()), role: TensionRole::Resolved });
    e.tension_refs.push(TensionRef { tension_id: TensionId("t3".into()), role: TensionRole::Referenced });
    assert_eq!(unresolved_tensions(&e), 2);
}

#[test]
fn retrieval_engine_holds_its_store_and_graph() {
    let mut store = InMemoryStore::new();
    store.store(make_entry("a", MemoryState::Alive));
    let mut engine = RetrievalEngine::new(store, SeeAlsoGraph::new(5));
    assert_eq!(engine.store().total_count(), 1);
    assert!(engine.see_also_mut().add_link(EntryId("a".into()), EntryId("b".into()), Relationship::RelatedTo, String::new()));
    assert_eq!(engine.see_also().get_links(&EntryId("a".into())).len(), 1);
}
