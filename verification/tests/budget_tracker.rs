use but_ai::budget::tracker::{BudgetAllocation, BudgetTracker, ExecutionPhase};
use but_ai::ids::AgentId;

#[test]
fn budget_tracking_basic() {
    let agent = AgentId("dara".to_string());
    let mut tracker = BudgetTracker::new(agent, 50_000);

    assert_eq!(tracker.remaining(), 50_000);
    assert!(!tracker.should_degrade());

    tracker.record(10_000, 5_000);
    assert_eq!(tracker.remaining(), 35_000);
    assert!(!tracker.is_degraded());
}

#[test]
fn degradation_triggers_at_threshold() {
    let agent = AgentId("dara".to_string());
    let mut tracker = BudgetTracker::new(agent, 10_000);

    let degraded = tracker.record(8_000, 1_100);
    assert!(degraded);
    assert!(tracker.is_degraded());
}

#[test]
fn checkpoint_logging() {
    let agent = AgentId("dara".to_string());
    let mut tracker = BudgetTracker::new(agent, 50_000);

    tracker.set_phase(
        ExecutionPhase::Plan,
        "2026-03-28T14:00:00Z".to_string(),
        "Starting planning".to_string(),
    );
    tracker.record(1_000, 500);

    tracker.set_phase(
        ExecutionPhase::Execute {
            step: 1,
            total_steps: 5,
        },
        "2026-03-28T14:01:00Z".to_string(),
        "First tool call".to_string(),
    );

    assert_eq!(tracker.checkpoints().len(), 2);
}

#[test]
fn budget_allocation_equal() {
    let agents = vec![
        AgentId("dara".to_string()),
        AgentId("ines".to_string()),
        AgentId("koel".to_string()),
    ];
    let allocation = BudgetAllocation::equal(&agents, 10_000);

    assert_eq!(allocation.budget_for(&agents[0]), Some(10_000));
    assert_eq!(allocation.team_total(), 30_000);
}

#[test]
fn snapshot_captures_state() {
    let agent = AgentId("raul".to_string());
    let mut tracker = BudgetTracker::new(agent, 50_000);
    tracker.record(12_000, 3_000);

    let snap = tracker.snapshot();
    assert_eq!(snap.total, 50_000);
    assert_eq!(snap.used.total(), 15_000);
    assert_eq!(snap.remaining, 35_000);
    assert!(!snap.degraded);
}

#[test]
fn degradation_boundary_is_ten_percent_left() {
    let mut tracker = BudgetTracker::new(AgentId("a".to_string()), 10_000);
    assert!(!tracker.record(9_000, 0));
    assert!(!tracker.is_degraded());
    assert!(tracker.record(1, 0));
    assert!(tracker.should_degrade());
}

#[test]
fn custom_allocation_and_unknown_agent() {
    let allocation = BudgetAllocation::custom(vec![("a".to_string(), 100), ("b".to_string(), 250)]);
    assert_eq!(allocation.team_total(), 350);
    assert_eq!(allocation.budget_for(&AgentId("b".to_string())), Some(250));
    assert_eq!(allocation.budget_for(&AgentId("z".to_string())), None);
    let tracker = allocation.tracker_for(&AgentId("a".to_string())).unwrap();
    assert_eq!(tracker.remaining(), 100);
}

#[test]
fn phase_labels() {
    assert_eq!(ExecutionPhase::Plan.label(), "plan");
    assert_eq!(ExecutionPhase::Execute { step: 2, total_steps: 5 }.label(), "execute (step 2 of 5)");
}
