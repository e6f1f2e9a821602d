use but_ai::agent::architect::Architect;
use but_ai::agent::orchestrator::AgentOrchestrator;
use but_ai::agent::{Complexity, PatchOutput, TaskPlan, TokenBudget};
use but_ai::ids::{AgentId, EntryId};
use but_ai::memory::entry::MemoryState;
use but_ai::memory::store::InMemoryStore;

/// The task run with an empty memory: plan, implement, and decide on
/// validation, as the caller does around the orchestrator.
fn run(task: &str, budget: TokenBudget) -> (AgentOrchestrator, TaskPlan, Option<PatchOutput>, bool) {
    let mut o = AgentOrchestrator::new(AgentId("test-agent".into()), budget);
    let planned = if o.plan_due() { Some(Architect::plan_without_memory(task)) } else { None };
    let plan = o.adopt_plan(task, planned);
    let patch = o.implement(&plan);
    let store: InMemoryStore<f64> = InMemoryStore::new();
    let due = o.validation_due(patch.is_some(), &store);
    (o, plan, patch, due)
}

#[test]
fn full_pipeline_executes() {
    let (o, _plan, patch, _due) = run("add authentication middleware", TokenBudget::new(32_000));
    assert!(patch.is_some());
    assert!(o.budget_remaining() > 0);
}

#[test]
fn emergency_budget_skips_implementation() {
    let mut budget = TokenBudget::new(10_000);
    budget.used = 8_500; // Emergency halt
    let (o, plan, patch, due) = run("fix bug", budget);
    assert!(patch.is_none());
    assert!(!due);
    assert_eq!(plan.approach, "Emergency plan for: fix bug");
    assert_eq!(plan.complexity, Complexity::Simple);
    assert_eq!(o.budget().used, 8_500);
}

#[test]
fn planning_and_validation_are_charged() {
    let mut o = AgentOrchestrator::new(AgentId("a".into()), TokenBudget::new(32_000));
    let plan = o.adopt_plan("task", Some(Architect::plan_without_memory("task")));
    assert_eq!(o.budget().used, 500);
    assert!(plan.approach.starts_with("Task: task"));
    o.record_validation();
    assert_eq!(o.budget().used, 1_000);
    assert_eq!(o.budget_remaining(), 31_000);
}

#[test]
fn catalog_record_of_a_patch() {
    let o = AgentOrchestrator::new(AgentId("a".into()), TokenBudget::new(32_000));
    let plan = TaskPlan {
        approach: "Do it".into(),
        files: vec!["crates/but-ai/src/auth.rs".into()],
        complexity: Complexity::Moderate,
        estimated_tokens: 0,
    };
    let patch = PatchOutput {
        patch: String::new(),
        commit_msg: "x".into(),
        files_touched: vec!["crates/but-ai/src/auth.rs".into(), "web/app.ts".into()],
        tokens_used: 0,
    };
    let mut store = InMemoryStore::new();
    let id = o.catalog_patch(&patch, &plan, 1.0f64, &mut store);
    assert_eq!(id.0, "task-0000000000000078");
    let r = store.load(&EntryId("task-0000000000000078".into())).unwrap();
    assert_eq!(r.agent, AgentId("a".into()));
    assert_eq!(r.content, "Do it\n\nFiles: crates/but-ai/src/auth.rs, web/app.ts\nComplexity: Moderate");
    assert_eq!(r.classification.subject_headings, vec!["but-ai", "auth", "web", "app"]);
    assert_eq!(r.classification.call_number.to_string(), "CRATES.BUT-AI.AUTH");
    assert_eq!(r.state, MemoryState::Alive);
    assert_eq!(r.survival, 1.0);
}

#[test]
fn catalog_record_without_files() {
    let o = AgentOrchestrator::new(AgentId("a".into()), TokenBudget::new(100));
    let plan = TaskPlan { approach: "p".into(), files: vec![], complexity: Complexity::Simple, estimated_tokens: 0 };
    let patch = PatchOutput { patch: String::new(), commit_msg: String::new(), files_touched: vec![], tokens_used: 0 };
    let mut store = InMemoryStore::new();
    let id = o.catalog_patch(&patch, &plan, 0.5f64, &mut store);
    assert_eq!(id.0, "task-0000000000000000");
    let r = store.load(&id).unwrap();
    assert_eq!(r.classification.call_number.to_string(), "AGENT.PATCH");
    assert!(r.classification.subject_headings.is_empty());
}

#[test]
fn orchestrator_implement_is_the_implementers_patch() {
    let plan = TaskPlan {
        approach: "Fix typo in README".into(),
        files: vec!["README.md".into()],
        complexity: Complexity::Simple,
        estimated_tokens: 4_000,
    };
    let mut o = AgentOrchestrator::new(AgentId("test-agent".into()), TokenBudget::new(32_000));
    let before = o.budget().used;
    let got = o.implement(&plan).unwrap();
    let mut budget = TokenBudget::new(32_000);
    let expected = but_ai::agent::implementer::Implementer::implement(&plan, &mut budget);
    assert_eq!(got.patch, expected.patch);
    assert_eq!(got.commit_msg, expected.commit_msg);
    assert_eq!(got.files_touched, expected.files_touched);
    assert_eq!(got.tokens_used, expected.tokens_used);
    assert!(!got.patch.is_empty());
    assert_eq!(o.budget().used, before + got.tokens_used);
}
