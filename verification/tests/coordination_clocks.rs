use but_ai::coordination::gossip::VectorClock;
use but_ai::ids::AgentId;

#[test]
fn vector_clock_observe_and_query() {
    let mut clock = VectorClock::new();
    let agent = AgentId("dara".to_string());

    assert_eq!(clock.version_for(&agent), 0);
    clock.observe(&agent, 3);
    assert_eq!(clock.version_for(&agent), 3);
    clock.observe(&agent, 2);
    assert_eq!(clock.version_for(&agent), 3);
}

#[test]
fn vector_clock_merge() {
    let mut a = VectorClock::new();
    let mut b = VectorClock::new();
    let dara = AgentId("dara".to_string());
    let ines = AgentId("ines".to_string());

    a.observe(&dara, 5);
    b.observe(&ines, 3);
    b.observe(&dara, 2);

    a.merge(&b);
    assert_eq!(a.version_for(&dara), 5);
    assert_eq!(a.version_for(&ines), 3);
}

#[test]
fn vector_clock_missing_for() {
    let mut ours = VectorClock::new();
    let mut theirs = VectorClock::new();
    let dara = AgentId("dara".to_string());
    let ines = AgentId("ines".to_string());

    ours.observe(&dara, 5);
    ours.observe(&ines, 3);
    theirs.observe(&dara, 3);

    let missing = ours.missing_for(&theirs);
    assert_eq!(missing.len(), 2);
}

#[test]
fn vector_clock_lists_agents() {
    let mut c = VectorClock::new();
    c.observe(&AgentId("b".to_string()), 2);
    c.observe(&AgentId("a".to_string()), 1);
    assert_eq!(c.agents(), vec![(AgentId("b".to_string()), 2), (AgentId("a".to_string()), 1)]);
}
