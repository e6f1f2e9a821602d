use but_ai::coordination::forge::{ForgeError, InMemoryForge};
use but_ai::repo::{ForgeType, PrRef, PrStatus, RepoRef};

fn test_repo() -> RepoRef {
    RepoRef {
        forge: ForgeType::GitHub,
        owner: "test-org".to_string(),
        repo: "test-repo".to_string(),
    }
}

#[test]
fn create_and_query_pr() {
    let mut forge = InMemoryForge::new();
    let repo = test_repo();

    let pr = forge.create_pr(&repo, "test PR", "body", "feat/x", "main").unwrap();
    assert_eq!(pr.number, 1);
    assert_eq!(forge.pr_status(&pr).unwrap(), PrStatus::Open);
}

#[test]
fn comment_round_trip() {
    let mut forge = InMemoryForge::new();
    let repo = test_repo();
    let pr = forge.create_pr(&repo, "test", "body", "feat/x", "main").unwrap();

    forge.comment(&pr, "hello").unwrap();
    forge.comment(&pr, "world").unwrap();

    let comments = forge.list_comments(&pr).unwrap();
    assert_eq!(comments, vec!["hello", "world"]);
}

#[test]
fn labels_and_list_prs() {
    let mut forge = InMemoryForge::new();
    let repo = test_repo();

    let pr1 = forge.create_pr(&repo, "PR 1", "", "a", "main").unwrap();
    let pr2 = forge.create_pr(&repo, "PR 2", "", "b", "main").unwrap();

    forge.add_label(&pr1, "but-ai").unwrap();

    let labeled = forge.list_prs(&repo, &["but-ai"]).unwrap();
    assert_eq!(labeled.len(), 1);
    assert_eq!(labeled[0], pr1);

    let all = forge.list_prs(&repo, &[]).unwrap();
    assert_eq!(all.len(), 2);
    let _ = pr2;
}

#[test]
fn set_status() {
    let mut forge = InMemoryForge::new();
    let repo = test_repo();
    let pr = forge.create_pr(&repo, "test", "", "a", "main").unwrap();

    forge.set_status(&pr, PrStatus::Merged);
    assert_eq!(forge.pr_status(&pr).unwrap(), PrStatus::Merged);
}

#[test]
fn missing_pull_requests_are_reported() {
    let mut forge = InMemoryForge::default();
    let ghost = PrRef { repo: test_repo(), number: 42 };
    let e = forge.comment(&ghost, "x").unwrap_err();
    assert_eq!(
        e,
        ForgeError::NotFound { owner: "test-org".to_string(), repo: "test-repo".to_string(), number: 42 }
    );
    assert_eq!(e.message(), "PR test-org/test-repo#42 not found");
    assert!(forge.pr_status(&ghost).is_err());
    assert!(forge.add_label(&ghost, "l").is_err());
    assert!(forge.comments_for(&ghost).is_empty());
    forge.set_status(&ghost, PrStatus::Closed);
    assert!(forge.prs().is_empty());
    assert_eq!(forge.forge_type(), ForgeType::GitHub);
}

#[test]
fn labels_are_added_once_and_filter_by_repo() {
    let mut forge = InMemoryForge::new();
    let repo = test_repo();
    let other = RepoRef { forge: ForgeType::GitHub, owner: "o".to_string(), repo: "r".to_string() };
    let a = forge.create_pr(&repo, "a", "", "a", "main").unwrap();
    let b = forge.create_pr(&other, "b", "", "b", "main").unwrap();
    forge.add_label(&a, "x").unwrap();
    forge.add_label(&a, "x").unwrap();
    forge.add_label(&b, "x").unwrap();
    assert_eq!(forge.list_prs(&repo, &["x", "y"]).unwrap(), vec![a.clone()]);
    assert_eq!(forge.list_prs(&other, &["y"]).unwrap(), Vec::<PrRef>::new());
    assert_eq!(forge.prs(), vec![a, b.clone()]);
    assert_eq!(b.number, 2);
}
