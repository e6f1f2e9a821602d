use but_ai::agent::validator::{tension_from_issue, TensionSeverity, Validator};
use but_ai::agent::TokenBudget;
use but_ai::ids::{AgentId, EntryId, TensionId};
use but_ai::memory::call_number::CallNumber;
use but_ai::memory::entry::{Classification, MemoryEntry, MemoryState, TensionRef, TensionRole};
use but_ai::memory::store::InMemoryStore;

fn make_entry(id: &str, content: &str, subjects: &[&str]) -> MemoryEntry<f64> {
    MemoryEntry {
        id: EntryId(id.into()),
        agent: AgentId("test".into()),
        content: content.into(),
        created_at: "2026-03-29T00:00:00Z".into(),
        last_accessed: "2026-03-29T00:00:00Z".into(),
        classification: Classification {
            subject_headings: subjects.iter().map(|s| s.to_string()).collect(),
            call_number: CallNumber::parse("TEST.UNIT"),
            controlled_vocab: false,
        },
        see_also: Vec::new(),
        motifs: Vec::new(),
        tension_refs: Vec::new(),
        survival: 0.9,
        state: MemoryState::Alive,
        consensus_citations: 0,
        access_count: 0,
        source_commit: None,
    }
}

#[test]
fn should_validate_with_budget() {
    let store: InMemoryStore<f64> = InMemoryStore::new();
    let budget = TokenBudget::new(32_000);
    assert!(Validator::should_validate(&budget, &store));
}

#[test]
fn should_not_validate_low_budget() {
    let store: InMemoryStore<f64> = InMemoryStore::new();
    let mut budget = TokenBudget::new(10_000);
    budget.used = 6_000; // 60% used, 40% remaining -> below 50% threshold
    assert!(!Validator::should_validate(&budget, &store));
}

#[test]
fn should_validate_with_tensions_despite_low_budget() {
    let mut store = InMemoryStore::new();
    let mut entry = make_entry("e1", "test content", &["auth"]);
    entry.tension_refs.push(TensionRef { tension_id: TensionId("t1".into()), role: TensionRole::Introduced });
    store.store(entry);

    let mut budget = TokenBudget::new(10_000);
    budget.used = 6_000;
    // Should still validate because tensions exist.
    assert!(Validator::should_validate(&budget, &store));
}

#[test]
fn resolved_or_dead_tensions_do_not_count() {
    let mut store = InMemoryStore::new();
    let mut resolved = make_entry("e1", "x", &[]);
    resolved.tension_refs.push(TensionRef { tension_id: TensionId("t1".into()), role: TensionRole::Resolved });
    store.store(resolved);
    let mut dead = make_entry("e2", "y", &[]);
    dead.state = MemoryState::Deceased;
    dead.tension_refs.push(TensionRef { tension_id: TensionId("t2".into()), role: TensionRole::Referenced });
    store.store(dead);
    let mut budget = TokenBudget::new(10_000);
    budget.used = 6_000;
    assert!(!Validator::should_validate(&budget, &store));
}

#[test]
fn half_budget_left_is_not_enough() {
    let store: InMemoryStore<f64> = InMemoryStore::new();
    let mut budget = TokenBudget::new(10_000);
    budget.used = 5_000;
    assert!(!Validator::should_validate(&budget, &store));
    budget.used = 4_999;
    assert!(Validator::should_validate(&budget, &store));
    assert!(!Validator::should_validate(&TokenBudget::new(0), &store));
}

#[test]
fn tension_from_issue_severity() {
    let entry_id = EntryId("test".into());
    let t = tension_from_issue("[Contradiction] conflicting auth", &entry_id);
    assert_eq!(t.severity, TensionSeverity::High);

    let t = tension_from_issue("[Warning] possible duplicate", &entry_id);
    assert_eq!(t.severity, TensionSeverity::Moderate);

    let t = tension_from_issue("[Info] related entries", &entry_id);
    assert_eq!(t.severity, TensionSeverity::Low);
}

#[test]
fn tension_ids_come_from_the_content_hash() {
    let entry_id = EntryId("e1".into());
    let t = tension_from_issue("x", &entry_id);
    assert_eq!(t.id.0, "val-0000000000000078");
    assert_eq!(t.description, "x");
    assert_eq!(t.introduced_in, EntryId("e1".into()));
    assert!(t.resolved_in.is_none());
    let t = tension_from_issue("ab", &entry_id);
    // 97 * 31 + 98 = 3105 = 0xc21
    assert_eq!(t.id.0, "val-0000000000000c21");
}
