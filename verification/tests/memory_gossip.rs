use but_ai::coordination::gossip::{GossipEngine, GossipResponse, VectorClock};
use but_ai::ids::{AgentId, EntryId};
use but_ai::memory::call_number::CallNumber;
use but_ai::memory::entry::{Classification, MemoryEntry, MemoryState};

fn make_entry(id: &str, agent: &str) -> MemoryEntry<f64> {
    MemoryEntry {
        id: EntryId(id.to_string()),
        agent: AgentId(agent.to_string()),
        content: format!("content-{id}"),
        created_at: "2026-03-29T00:00:00Z".to_string(),
        last_accessed: "2026-03-29T00:00:00Z".to_string(),
        classification: Classification {
            subject_headings: vec![],
            call_number: CallNumber::parse("TEST"),
            controlled_vocab: false,
        },
        see_also: vec![],
        motifs: vec![],
        tension_refs: vec![],
        survival: 0.95,
        state: MemoryState::Alive,
        consensus_citations: 0,
        access_count: 1,
        source_commit: None,
    }
}

#[test]
fn memory_gossip_round_trip() {
    let dara = AgentId("dara".to_string());
    let ines = AgentId("ines".to_string());
    let mut engine_dara = GossipEngine::new(dara.clone());
    let engine_ines: GossipEngine<f64> = GossipEngine::new(ines.clone());
    engine_dara.ingest_local(make_entry("e1", "dara"));
    assert_eq!(engine_dara.clock().version_for(&dara), 1);
    let request = engine_ines.build_request();
    let response = engine_dara.handle_request(&request);
    assert_eq!(response.entries.len(), 1);
    assert_eq!(response.entries[0].id.0, "e1");
    // A requester that is up to date gets nothing.
    let again = engine_dara.handle_request(&engine_dara.build_request());
    assert!(again.entries.is_empty());
}

#[test]
fn memory_gossip_merge_prefers_higher_access_count() {
    let dara = AgentId("dara".to_string());
    let ines = AgentId("ines".to_string());
    let mut engine = GossipEngine::new(dara.clone());
    let mut entry_old = make_entry("e1", "ines");
    entry_old.access_count = 1;
    engine.ingest_local(entry_old);
    let mut entry_new = make_entry("e1", "ines");
    entry_new.access_count = 5;
    entry_new.content = "updated content".to_string();
    let mut stale = make_entry("e2", "ines");
    stale.access_count = 0;
    let response = GossipResponse { from: ines.clone(), entries: vec![entry_new, stale], clock: VectorClock::new() };
    let updated = engine.process_response(response);
    assert_eq!(updated, vec![EntryId("e1".to_string()), EntryId("e2".to_string())]);
    assert_eq!(engine.get(&EntryId("e1".to_string())).unwrap().content, "updated content");
    // An entry accessed as often but earlier loses.
    let mut older = make_entry("e1", "ines");
    older.access_count = 5;
    older.last_accessed = "2026-01-01T00:00:00Z".to_string();
    older.content = "older".to_string();
    let response = GossipResponse { from: ines, entries: vec![older], clock: VectorClock::new() };
    assert!(engine.process_response(response).is_empty());
    assert_eq!(engine.get(&EntryId("e1".to_string())).unwrap().content, "updated content");
}
