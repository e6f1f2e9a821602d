use but_ai::ids::{AgentId, EntryId};
use but_ai::manifest::entry::{cite, content_hash, create, merge};
use but_ai::manifest::gossip::{GossipEngine, VectorClock};
use but_ai::manifest::store::ManifestStore;
use but_ai::manifest::tide::{tide_label, TidalClock};
use but_ai::manifest::types::{ManifestCategory, ManifestEntry, TidalConfig, TideMark, TidePhase};

fn test_entry(version: u64, access_count: u64, tags: Vec<&str>) -> ManifestEntry {
    ManifestEntry {
        id: EntryId("test-id".to_string()),
        agent: AgentId("dara".to_string()),
        category: ManifestCategory::Pattern,
        created: "2026-03-28T14:00:00Z".to_string(),
        ttl: Some("720h".to_string()),
        expires: Some("2026-04-27T14:00:00Z".to_string()),
        tags: tags.into_iter().map(String::from).collect(),
        content: "test content".to_string(),
        embedding_hash: None,
        access_count,
        last_accessed: None,
        tide_created: "high tide".to_string(),
        version,
        consensus_citations: 0,
    }
}

#[test]
fn merge_takes_higher_version_content() {
    let a = test_entry(1, 5, vec!["auth"]);
    let mut b = test_entry(2, 3, vec!["refactor"]);
    b.content = "updated content".to_string();

    let merged = merge(&a, &b).unwrap();
    assert_eq!(merged.version, 2);
    assert_eq!(merged.content, "updated content");
}

#[test]
fn merge_takes_max_access_count() {
    let a = test_entry(1, 10, vec![]);
    let b = test_entry(1, 3, vec![]);

    let merged = merge(&a, &b).unwrap();
    assert_eq!(merged.access_count, 10);
}

#[test]
fn merge_unions_tags() {
    let a = test_entry(1, 0, vec!["auth", "pattern"]);
    let b = test_entry(1, 0, vec!["pattern", "refactor"]);

    let merged = merge(&a, &b).unwrap();
    assert!(merged.tags.contains(&"auth".to_string()));
    assert!(merged.tags.contains(&"pattern".to_string()));
    assert!(merged.tags.contains(&"refactor".to_string()));
}

#[test]
fn merge_different_ids_returns_none() {
    let a = test_entry(1, 0, vec![]);
    let mut b = test_entry(1, 0, vec![]);
    b.id = EntryId("different-id".to_string());

    assert!(merge(&a, &b).is_none());
}

#[test]
fn content_hash_is_deterministic() {
    let h1 = content_hash("hello world");
    let h2 = content_hash("hello world");
    assert_eq!(h1, h2);
}

#[test]
fn content_hash_is_djb2_in_hex() {
    assert_eq!(content_hash("hello world"), EntryId("c0943fd43551c8c1".to_string()));
    assert_eq!(content_hash(""), EntryId("0000000000001505".to_string()));
}

#[test]
fn merge_is_commutative_on_an_example() {
    let a = test_entry(1, 4, vec!["x", "y"]);
    let mut b = test_entry(3, 9, vec!["y", "z"]);
    b.content = "newer".to_string();
    let ab = merge(&a, &b).unwrap();
    let ba = merge(&b, &a).unwrap();
    assert_eq!(ab.version, ba.version);
    assert_eq!(ab.content, ba.content);
    assert_eq!(ab.access_count, ba.access_count);
    let mut t1 = ab.tags.clone();
    let mut t2 = ba.tags.clone();
    t1.sort();
    t2.sort();
    assert_eq!(t1, t2);
}

#[test]
fn merge_on_equal_versions_does_not_depend_on_order() {
    let a = test_entry(1, 0, vec![]);
    let mut b = test_entry(1, 0, vec![]);
    b.content = "other".to_string();
    let ab = merge(&a, &b).unwrap();
    let ba = merge(&b, &a).unwrap();
    assert_eq!(ab.content, ba.content);
    // "test content" is lexicographically greater than "other".
    assert_eq!(ab.content, "test content");
}

#[test]
fn merge_is_associative_on_an_example() {
    let a = test_entry(2, 1, vec!["b", "a"]);
    let mut b = test_entry(2, 7, vec!["c"]);
    b.content = "zeta".to_string();
    let mut c = test_entry(1, 3, vec!["a", "d"]);
    c.last_accessed = Some("2026-03-29T00:00:00Z".to_string());
    let left = merge(&merge(&a, &b).unwrap(), &c).unwrap();
    let right = merge(&a, &merge(&b, &c).unwrap()).unwrap();
    assert_eq!(left.content, "zeta");
    assert_eq!(left.content, right.content);
    assert_eq!(left.tags, vec!["a", "b", "c", "d"]);
    assert_eq!(left.tags, right.tags);
    assert_eq!(left.access_count, 7);
    assert_eq!(left.access_count, right.access_count);
    assert_eq!(left.last_accessed, right.last_accessed);
    assert_eq!(left.version, right.version);
}

#[test]
fn cite_counts_citations() {
    let mut e = test_entry(1, 0, vec![]);
    cite(&mut e);
    cite(&mut e);
    assert_eq!(e.consensus_citations, 2);
}

#[test]
fn gossip_vector_clock_observe_and_query() {
    let mut clock = VectorClock::new();
    let agent = AgentId("dara".to_string());

    assert_eq!(clock.version_for(&agent), 0);
    clock.observe(&agent, 3);
    assert_eq!(clock.version_for(&agent), 3);
    clock.observe(&agent, 2);
    assert_eq!(clock.version_for(&agent), 3);
}

#[test]
fn gossip_vector_clock_merge() {
    let mut a = VectorClock::new();
    let mut b = VectorClock::new();
    let dara = AgentId("dara".to_string());
    let ines = AgentId("ines".to_string());

    a.observe(&dara, 5);
    b.observe(&ines, 3);
    b.observe(&dara, 2);

    a.merge(&b);
    assert_eq!(a.version_for(&dara), 5);
    assert_eq!(a.version_for(&ines), 3);
}

#[test]
fn vector_clock_missing_entries() {
    let mut a = VectorClock::new();
    let b = VectorClock::new();
    a.observe(&AgentId("dara".to_string()), 4);
    let missing = a.missing_for(&b);
    assert_eq!(missing, vec![(AgentId("dara".to_string()), 0)]);
    assert!(b.missing_for(&a).is_empty());
}

#[test]
fn gossip_engine_round_trip() {
    let dara = AgentId("dara".to_string());
    let ines = AgentId("ines".to_string());

    let mut engine_dara = GossipEngine::new(dara.clone());
    let engine_ines = GossipEngine::new(ines.clone());

    let entry = create(
        EntryId("e1".to_string()),
        dara.clone(),
        ManifestCategory::Pattern,
        "test pattern".to_string(),
        vec!["test".to_string()],
        "2026-03-28T14:00:00Z".to_string(),
        "high tide".to_string(),
    );
    engine_dara.ingest_local(entry);

    let request = engine_ines.build_request();

    let response = engine_dara.handle_request(&request);
    assert_eq!(response.entries.len(), 1);
    assert_eq!(response.entries[0].content, "test pattern");
}

#[test]
fn gossip_response_is_absorbed() {
    let dara = AgentId("dara".to_string());
    let mut engine_dara = GossipEngine::new(dara.clone());
    let mut engine_ines = GossipEngine::new(AgentId("ines".to_string()));
    engine_dara.ingest_local(create(
        EntryId("e1".to_string()),
        dara.clone(),
        ManifestCategory::Decision,
        "d".to_string(),
        vec![],
        "2026-03-28T14:00:00Z".to_string(),
        "flood tide".to_string(),
    ));
    let response = engine_dara.handle_request(&engine_ines.build_request());
    let merged = engine_ines.process_response(response);
    assert_eq!(merged.len(), 1);
    assert_eq!(engine_ines.clock().version_for(&dara), 1);
    assert!(GossipEngine::should_gossip(TidePhase::High));
    assert!(GossipEngine::should_gossip(TidePhase::Flood));
    assert!(GossipEngine::should_gossip(TidePhase::Ebb));
    assert!(GossipEngine::should_gossip(TidePhase::Low));
}

#[test]
fn store_and_retrieve() {
    let agent = AgentId("dara".to_string());
    let config = TidalConfig::default();
    let mut store = ManifestStore::new(agent.clone(), config);

    let entry = create(
        content_hash("test content"),
        agent,
        ManifestCategory::Pattern,
        "test content".to_string(),
        vec!["auth".to_string()],
        "2026-03-28T14:00:00Z".to_string(),
        "high tide".to_string(),
    );
    let id = store.store(entry);

    assert_eq!(store.len(), 1);
    let retrieved = store.get(&id).unwrap();
    assert_eq!(retrieved.content, "test content");
}

#[test]
fn expiration_removes_old_entries() {
    let agent = AgentId("dara".to_string());
    let config = TidalConfig::default();
    let mut store = ManifestStore::new(agent.clone(), config);

    let mut entry = create(
        EntryId("will-expire".to_string()),
        agent,
        ManifestCategory::Error,
        "old error".to_string(),
        vec![],
        "2026-01-01T00:00:00Z".to_string(),
        "low tide".to_string(),
    );
    entry.expires = Some("2026-01-03T00:00:00Z".to_string());
    store.store(entry);

    assert_eq!(store.len(), 1);
    let removed = store.expire("2026-03-28T00:00:00Z");
    assert_eq!(removed.len(), 1);
    assert_eq!(store.len(), 0);
}

#[test]
fn phase_cycle_at_epoch() {
    let clock = TidalClock::new();
    let mark = clock.tide_at(0);
    assert_eq!(mark.phase, TidePhase::Flood);
    assert_eq!(mark.cycle, 0);
    assert_eq!(mark.phase_elapsed_seconds, 0);
}

#[test]
fn phase_transitions_every_90_minutes() {
    let clock = TidalClock::new();

    let flood = clock.tide_at(0);
    assert_eq!(flood.phase, TidePhase::Flood);

    let high = clock.tide_at(5400);
    assert_eq!(high.phase, TidePhase::High);

    let ebb = clock.tide_at(10800);
    assert_eq!(ebb.phase, TidePhase::Ebb);

    let low = clock.tide_at(16200);
    assert_eq!(low.phase, TidePhase::Low);

    let next_flood = clock.tide_at(21600);
    assert_eq!(next_flood.phase, TidePhase::Flood);
    assert_eq!(next_flood.cycle, 1);
}

#[test]
fn seconds_remaining_accuracy() {
    let clock = TidalClock::new();
    let remaining = clock.seconds_remaining_in_phase(1000);
    assert_eq!(remaining, 5400 - 1000);
}

#[test]
fn next_phase_start_correctness() {
    let clock = TidalClock::new();
    let next = clock.next_phase_start(1000);
    assert_eq!(next, 5400);
}

#[test]
fn next_phase_wraps_to_next_cycle() {
    let clock = TidalClock::new();
    assert_eq!(clock.next_phase_start(20000), 21600);
    assert!(clock.is_within_current_cycle(100, 21599));
    assert!(!clock.is_within_current_cycle(100, 21600));
}

#[test]
fn custom_cycle_from_config() {
    let config = TidalConfig {
        tide_cycle_hours: 12,
        ..Default::default()
    };
    let clock = TidalClock::from_config(&config);
    assert_eq!(clock.cycle_seconds(), 43200);
}

#[test]
fn tide_label_formatting() {
    let mark = TideMark {
        timestamp: "2026-03-28T14:00:00Z".to_string(),
        phase: TidePhase::High,
        cycle: 1234,
        phase_elapsed_seconds: 0,
    };
    assert_eq!(tide_label(&mark), "high tide, cycle 1234");
}

#[test]
fn tide_timestamp_format() {
    let clock = TidalClock::new();
    assert_eq!(clock.tide_at(0).timestamp, "1970-01-01T00:00:00Z");
    assert_eq!(clock.tide_at(951_782_400).timestamp, "2000-02-29T00:00:00Z");
}

#[test]
fn store_entry_can_be_changed_in_place() {
    let mut store = ManifestStore::new(AgentId("dara".to_string()), TidalConfig::default());
    let id = store.store(test_entry(1, 0, vec![]));
    match store.get_mut(&id) {
        Some(e) => e.access_count = 9,
        None => panic!("the entry was stored"),
    }
    assert_eq!(store.get(&id).unwrap().access_count, 9);
    assert!(store.get_mut(&EntryId("missing".to_string())).is_none());
    let g = store.gossip_mut();
    g.ingest_local(test_entry(4, 0, vec![]));
    assert_eq!(store.gossip().clock().version_for(&AgentId("dara".to_string())), 4);
}
