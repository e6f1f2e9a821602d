use but_ai::agent::budget::{budget_mode, budget_summary, should_proceed};
use but_ai::agent::phase_gate::{is_tool_allowed, phases_for_tool, tools_for_phase};
use but_ai::agent::{BudgetMode, TaskPhase, TokenBudget};

#[test]
fn full_mode_with_fresh_budget() {
    let budget = TokenBudget::new(32_000);
    assert_eq!(budget_mode(&budget), BudgetMode::Full);
}

#[test]
fn abbreviated_mode() {
    let mut budget = TokenBudget::new(10_000);
    budget.used = 3_000;
    assert_eq!(budget_mode(&budget), BudgetMode::Abbreviated);
}

#[test]
fn minimum_output_mode() {
    let mut budget = TokenBudget::new(10_000);
    budget.used = 6_500;
    assert_eq!(budget_mode(&budget), BudgetMode::MinimumOutput);
}

#[test]
fn emergency_halt_mode() {
    let mut budget = TokenBudget::new(10_000);
    budget.used = 8_500;
    assert_eq!(budget_mode(&budget), BudgetMode::EmergencyHalt);
}

#[test]
fn catalog_always_proceeds() {
    let mut budget = TokenBudget::new(10_000);
    budget.used = 9_500;
    assert!(should_proceed(&budget, TaskPhase::Catalog));
    assert!(should_proceed(&budget, TaskPhase::Coordinate));
}

#[test]
fn implement_blocked_in_emergency() {
    let mut budget = TokenBudget::new(10_000);
    budget.used = 8_500;
    assert!(!should_proceed(&budget, TaskPhase::Implement));
}

#[test]
fn validate_requires_abbreviated() {
    let mut budget = TokenBudget::new(10_000);
    budget.used = 6_500;
    assert!(!should_proceed(&budget, TaskPhase::Validate));

    let mut budget = TokenBudget::new(10_000);
    budget.used = 3_000;
    assert!(should_proceed(&budget, TaskPhase::Validate));
}

#[test]
fn budget_summary_format() {
    let budget = TokenBudget::new(32_000);
    let summary = budget_summary(&budget);
    assert!(summary.contains("mode=full"));
    assert!(summary.contains("0% used"));
}

#[test]
fn budget_modes_are_correct() {
    assert_eq!(budget_mode(&TokenBudget::new(32_000)), BudgetMode::Full);

    let mut b = TokenBudget::new(10_000);
    b.used = 3_000;
    assert_eq!(budget_mode(&b), BudgetMode::Abbreviated);

    b.used = 6_500;
    assert_eq!(budget_mode(&b), BudgetMode::MinimumOutput);

    b.used = 8_500;
    assert_eq!(budget_mode(&b), BudgetMode::EmergencyHalt);
}

#[test]
fn budget_mode_boundaries() {
    let mut b = TokenBudget::new(10_000);
    b.used = 1_999;
    assert_eq!(budget_mode(&b), BudgetMode::Full);
    b.used = 2_000;
    assert_eq!(budget_mode(&b), BudgetMode::Abbreviated);
    b.used = 2_001;
    assert_eq!(budget_mode(&b), BudgetMode::Abbreviated);
    b.used = 5_000;
    assert_eq!(budget_mode(&b), BudgetMode::Abbreviated);
    b.used = 5_001;
    assert_eq!(budget_mode(&b), BudgetMode::MinimumOutput);
    b.used = 8_000;
    assert_eq!(budget_mode(&b), BudgetMode::MinimumOutput);
    b.used = 8_001;
    assert_eq!(budget_mode(&b), BudgetMode::EmergencyHalt);
    b.used = 12_000;
    assert_eq!(budget_mode(&b), BudgetMode::EmergencyHalt);
    assert_eq!(budget_mode(&TokenBudget::new(0)), BudgetMode::EmergencyHalt);
}

#[test]
fn budget_summary_exact_text() {
    let mut b = TokenBudget::new(10_000);
    b.used = 3_333;
    let s = budget_summary(&b);
    assert!(s.contains("33% used"));
    assert!(s.contains("mode=abbreviated"));
}

#[test]
fn remaining_saturates() {
    let mut b = TokenBudget::new(5_000);
    b.used = 6_000;
    assert_eq!(b.remaining(), 0);
    assert_eq!(b.available_for_work(), 0);
    b.used = 1_000;
    assert_eq!(b.remaining(), 4_000);
    assert_eq!(b.available_for_work(), 500);
}

#[test]
fn classify_has_read_only_tools() {
    let tools = tools_for_phase(TaskPhase::Classify);
    assert!(tools.iter().all(|t| !t.name.contains("write")
        && !t.name.contains("commit")
        && !t.name.contains("create-pr")));
}

#[test]
fn implement_has_write_tools() {
    let tools = tools_for_phase(TaskPhase::Implement);
    assert!(tools.iter().any(|t| t.name == "file-write"));
    assert!(tools.iter().any(|t| t.name == "git-commit"));
}

#[test]
fn validate_has_check_tools() {
    let tools = tools_for_phase(TaskPhase::Validate);
    assert!(tools.iter().any(|t| t.name == "continuity-check"));
    assert!(tools.iter().any(|t| t.name == "tool-risk-classify"));
    assert!(tools.iter().all(|t| t.name != "file-write"));
}

#[test]
fn coordinate_has_forge_tools() {
    let tools = tools_for_phase(TaskPhase::Coordinate);
    assert!(tools.iter().any(|t| t.name == "forge-create-pr"));
    assert!(tools.iter().any(|t| t.name == "forge-comment"));
}

#[test]
fn tool_allowed_check() {
    assert!(is_tool_allowed("file-read", TaskPhase::Classify));
    assert!(!is_tool_allowed("file-write", TaskPhase::Classify));
    assert!(is_tool_allowed("file-write", TaskPhase::Implement));
}

#[test]
fn phases_for_file_read() {
    let phases = phases_for_tool("file-read");
    assert!(phases.contains(&TaskPhase::Classify));
    assert!(phases.contains(&TaskPhase::Plan));
    assert!(phases.contains(&TaskPhase::Implement));
    assert!(phases.contains(&TaskPhase::Validate));
    assert!(!phases.contains(&TaskPhase::Catalog));
    assert!(!phases.contains(&TaskPhase::Coordinate));
}

#[test]
fn tools_carry_their_phase() {
    for phase in [
        TaskPhase::Classify,
        TaskPhase::Plan,
        TaskPhase::Implement,
        TaskPhase::Validate,
        TaskPhase::Catalog,
        TaskPhase::Coordinate,
    ] {
        assert!(tools_for_phase(phase).iter().all(|t| t.phase == phase));
    }
    assert_eq!(tools_for_phase(TaskPhase::Catalog).len(), 3);
    assert!(phases_for_tool("no-such-tool").is_empty());
}

#[test]
fn spending_more_never_relaxes_the_mode() {
    let order = |m: BudgetMode| match m {
        BudgetMode::Full => 0,
        BudgetMode::Abbreviated => 1,
        BudgetMode::MinimumOutput => 2,
        BudgetMode::EmergencyHalt => 3,
    };
    let mut previous = 0;
    for used in (0..=10_000u64).step_by(250) {
        let mut b = TokenBudget::new(10_000);
        b.used = used;
        let m = order(budget_mode(&b));
        assert!(m >= previous);
        previous = m;
        if !should_proceed(&b, TaskPhase::Validate) {
            let mut later = b;
            later.used = used + 100;
            assert!(!should_proceed(&later, TaskPhase::Validate));
        }
    }
}
