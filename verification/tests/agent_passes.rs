use but_ai::agent::architect::{estimate_complexity, extract_likely_files, looks_like_path, split_whitespace, Architect};
use but_ai::agent::implementer::Implementer;
use but_ai::agent::{Complexity, TaskPlan, TokenBudget};

fn simple_plan() -> TaskPlan {
    TaskPlan {
        approach: "Fix typo in README".into(),
        files: vec!["README.md".into()],
        complexity: Complexity::Simple,
        estimated_tokens: 4_000,
    }
}

fn complex_plan() -> TaskPlan {
    TaskPlan {
        approach: "Refactor authentication middleware across three crates".into(),
        files: vec![
            "crates/auth/src/lib.rs".into(),
            "crates/api/src/middleware.rs".into(),
            "crates/web/src/session.rs".into(),
        ],
        complexity: Complexity::Complex,
        estimated_tokens: 24_000,
    }
}

#[test]
fn implement_simple_full_budget() {
    let plan = simple_plan();
    let mut budget = TokenBudget::new(32_000);
    let output = Implementer::implement(&plan, &mut budget);

    assert!(!output.patch.is_empty());
    assert!(output.patch.contains("README.md"));
    assert!(output.tokens_used > 0);
    assert_eq!(output.files_touched, vec!["README.md"]);
    assert!(output.patch.contains("Polish pass"));
}

#[test]
fn implement_with_tight_budget() {
    let plan = complex_plan();
    let mut budget = TokenBudget::new(10_000);
    budget.used = 5_500;
    let output = Implementer::implement(&plan, &mut budget);

    assert!(!output.patch.is_empty());
    assert!(!output.patch.contains("Polish pass"));
}

#[test]
fn implement_emergency_halt() {
    let plan = simple_plan();
    let mut budget = TokenBudget::new(10_000);
    budget.used = 8_500;
    let output = Implementer::implement(&plan, &mut budget);

    assert!(output.patch.is_empty());
    assert_eq!(output.tokens_used, 0);
}

#[test]
fn commit_message_includes_metadata() {
    let plan = simple_plan();
    let mut budget = TokenBudget::new(32_000);
    let output = Implementer::implement(&plan, &mut budget);

    assert!(output.commit_msg.contains("Shuttle passes:"));
    assert!(output.commit_msg.contains("Complexity: simple"));
    assert!(output.commit_msg.contains("Tokens used:"));
}

#[test]
fn implement_charges_the_budget_exactly() {
    let plan = simple_plan();
    let mut budget = TokenBudget::new(32_000);
    let output = Implementer::implement(&plan, &mut budget);
    // Rough pass: 123 bytes -> 30 tokens; refinement note: 54 bytes -> 13;
    // polish note: 55 bytes -> 13.
    let rough = "diff --git a/README.md b/README.md\n--- a/README.md\n+++ b/README.md\n@@ -1,1 +1,1 @@\n+// TODO: implement changes for README.md\n";
    let refine = "\n# Refinement pass: complexity=Simple, files=1\n";
    let polish = "\n# Polish pass: edge cases and documentation reviewed\n";
    assert_eq!(output.patch, format!("{rough}{refine}{polish}"));
    let expected = (rough.len() / 4 + refine.len() / 4 + polish.len() / 4) as u64;
    assert_eq!(output.tokens_used, expected);
    assert_eq!(budget.used, expected);
    assert_eq!(
        output.commit_msg,
        format!("Fix typo in README\n\nShuttle passes: 3/3\nComplexity: simple\nTokens used: {expected}\nFiles touched: 1\n")
    );
}

#[test]
fn long_titles_are_cut_at_69_bytes() {
    let plan = TaskPlan {
        approach: "x".repeat(80),
        files: vec![],
        complexity: Complexity::Moderate,
        estimated_tokens: 12_000,
    };
    let mut budget = TokenBudget::new(32_000);
    let output = Implementer::implement(&plan, &mut budget);
    assert!(output.commit_msg.starts_with(&format!("{}...\n\n", "x".repeat(69))));
    assert!(output.patch.starts_with("# No files identified in plan"));
}

#[test]
fn complexity_cross_cutting() {
    assert_eq!(estimate_complexity("cross-repo migration of auth system", 0), Complexity::Complex);
}

#[test]
fn complexity_from_length_and_memory() {
    assert_eq!(estimate_complexity("fix a bug", 6), Complexity::Simple);
    assert_eq!(estimate_complexity("fix a bug", 4), Complexity::Moderate);
    let long = "word ".repeat(25);
    assert_eq!(estimate_complexity(&long, 10), Complexity::Moderate);
    let longer = "word ".repeat(51);
    assert_eq!(estimate_complexity(&longer, 2), Complexity::Complex);
}

#[test]
fn path_detection() {
    assert!(looks_like_path("src/auth/middleware.rs"));
    assert!(!looks_like_path("hello"));
    assert!(!looks_like_path("https://example.com"));
}

#[test]
fn likely_files_from_task_and_memory() {
    let files = extract_likely_files(
        "update `src/auth.rs`, and src/auth.rs again",
        &vec!["see docs/guide.md for details".to_string()],
    );
    assert_eq!(files, vec!["src/auth.rs".to_string(), "docs/guide.md".to_string()]);
    assert_eq!(split_whitespace("  a  b c "), vec!["a", "b", "c"]);
}

#[test]
fn plan_with_empty_memory() {
    let plan = Architect::plan_without_memory("add authentication middleware");
    assert_eq!(plan.complexity, Complexity::Moderate);
    assert!(plan.approach.contains("No prior context"));
    assert_eq!(plan.estimated_tokens, 12_000);
}
