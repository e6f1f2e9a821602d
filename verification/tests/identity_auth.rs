use but_ai::identity::agent::{
    glob_match, AgentCapability, AgentIdentity as RegisteredIdentity, AgentIdentityBuilder, AgentRegistry,
    AuthorizationCheck,
};
use but_ai::identity::authorization::{
    can_produce_patches, check_branch_authorization, check_call_number_authorization, check_full_authorization,
    check_patch_size, check_repo_authorization, matches_glob, AgentIdentity, AgentRole, AuthorizationScope,
};
use but_ai::ids::AgentId;

fn dara_identity() -> RegisteredIdentity {
    AgentIdentityBuilder::new("dara", "tidal-protocol-collective")
        .capability(AgentCapability::PatchGeneration)
        .capability(AgentCapability::DiffAnalysis)
        .branch_pattern("feat/*")
        .branch_pattern("fix/*")
        .repo("gitbutler/but")
        .max_patch_lines(1000)
        .build("2026-01-15T00:00:00Z".to_string())
}

#[test]
fn register_and_lookup() {
    let mut registry = AgentRegistry::new();
    registry.register(dara_identity()).unwrap();

    let dara = AgentId("dara".to_string());
    assert!(registry.get(&dara).is_some());
    assert_eq!(registry.count(), 1);
}

#[test]
fn version_must_increase() {
    let mut registry = AgentRegistry::new();
    registry.register(dara_identity()).unwrap();

    assert!(registry.register(dara_identity()).is_err());

    let mut updated = dara_identity();
    updated.version = 2;
    registry.register(updated).unwrap();
}

#[test]
fn authorization_check_branch_pattern() {
    let mut registry = AgentRegistry::new();
    registry.register(dara_identity()).unwrap();

    let dara = AgentId("dara".to_string());
    assert_eq!(
        registry.is_authorized(&dara, "feat/auth", "gitbutler/but"),
        AuthorizationCheck::Allowed
    );
    assert!(matches!(
        registry.is_authorized(&dara, "main", "gitbutler/but"),
        AuthorizationCheck::Denied { .. }
    ));
}

#[test]
fn glob_match_patterns() {
    assert!(glob_match("feat/*", "feat/auth"));
    assert!(!glob_match("feat/*", "feat/auth/nested"));
    assert!(glob_match("**", "anything/goes/here"));
    assert!(!glob_match("feat/*", "fix/bug"));
}

#[test]
fn unknown_agent_and_other_repo_are_denied() {
    let mut registry = AgentRegistry::new();
    registry.register(dara_identity()).unwrap();
    let dara = AgentId("dara".to_string());
    assert!(matches!(
        registry.is_authorized(&dara, "feat/auth", "other/repo"),
        AuthorizationCheck::Denied { .. }
    ));
    assert!(matches!(
        registry.is_authorized(&AgentId("ghost".to_string()), "feat/auth", "gitbutler/but"),
        AuthorizationCheck::Denied { .. }
    ));
    assert_eq!(registry.all_ids(), vec![dara]);
}

fn test_scope() -> AuthorizationScope {
    AuthorizationScope {
        branch_patterns: vec!["feat/*".to_string(), "fix/*".to_string()],
        max_patch_lines: Some(500),
        repos: vec!["*".to_string()],
        call_number_ranges: vec!["ARCH.*".to_string(), "SEC.*".to_string()],
    }
}

#[test]
fn branch_authorized() {
    let scope = test_scope();
    assert!(check_branch_authorization(&scope, "feat/new-thing").authorized);
    assert!(check_branch_authorization(&scope, "fix/bug-123").authorized);
}

#[test]
fn branch_denied() {
    let scope = test_scope();
    assert!(!check_branch_authorization(&scope, "main").authorized);
    assert!(!check_branch_authorization(&scope, "release/1.0").authorized);
}

#[test]
fn patch_size_within_limit() {
    let scope = test_scope();
    assert!(check_patch_size(&scope, 100).authorized);
    assert!(check_patch_size(&scope, 500).authorized);
}

#[test]
fn patch_size_exceeds_limit() {
    let scope = test_scope();
    assert!(!check_patch_size(&scope, 501).authorized);
}

#[test]
fn wildcard_repo() {
    let scope = test_scope();
    assert!(check_repo_authorization(&scope, "any-repo").authorized);
}

#[test]
fn call_number_authorization() {
    let scope = test_scope();
    assert!(check_call_number_authorization(&scope, "ARCH.AUTH").authorized);
    assert!(check_call_number_authorization(&scope, "SEC.CRYPTO").authorized);
    assert!(!check_call_number_authorization(&scope, "OPS.DEPLOY").authorized);
}

#[test]
fn empty_call_number_ranges_means_unrestricted() {
    let scope = AuthorizationScope {
        branch_patterns: vec!["*".to_string()],
        max_patch_lines: None,
        repos: vec!["*".to_string()],
        call_number_ranges: vec![],
    };
    assert!(check_call_number_authorization(&scope, "ANYTHING").authorized);
}

#[test]
fn denial_messages() {
    let scope = test_scope();
    let r = check_branch_authorization(&scope, "main");
    assert_eq!(
        r.denial_reason.unwrap(),
        "Branch 'main' does not match any authorized pattern: [\"feat/*\", \"fix/*\"]"
    );
    let r = check_patch_size(&scope, 501);
    assert_eq!(r.denial_reason.unwrap(), "Patch size 501 lines exceeds limit of 500 lines");
    let empty = AuthorizationScope {
        branch_patterns: vec![],
        max_patch_lines: None,
        repos: vec![],
        call_number_ranges: vec![],
    };
    assert_eq!(
        check_branch_authorization(&empty, "x").denial_reason.unwrap(),
        "No branch patterns authorized"
    );
    assert_eq!(check_repo_authorization(&empty, "x").denial_reason.unwrap(), "No repositories authorized");
}

#[test]
fn full_authorization_checks_in_order() {
    let identity = AgentIdentity {
        name: AgentId("a".to_string()),
        role: AgentRole::Implementer,
        authorization: AuthorizationScope {
            branch_patterns: vec!["feat/*".to_string()],
            max_patch_lines: Some(10),
            repos: vec!["org/repo".to_string()],
            call_number_ranges: vec![],
        },
    };
    assert!(check_full_authorization(&identity, "feat/x", "org/repo", 10).authorized);
    assert!(!check_full_authorization(&identity, "feat/x", "org/repo", 11).authorized);
    assert!(!check_full_authorization(&identity, "feat/x", "other", 1).authorized);
    assert!(!check_full_authorization(&identity, "main", "org/repo", 1).authorized);
    assert!(can_produce_patches(AgentRole::Architect));
    assert!(can_produce_patches(AgentRole::Implementer));
    assert!(!can_produce_patches(AgentRole::Validator));
    assert!(!can_produce_patches(AgentRole::Coordinator));
}

#[test]
fn simple_globs() {
    assert!(matches_glob("*", "x"));
    assert!(matches_glob("SEC.*", "SEC.AUTH"));
    assert!(!matches_glob("SEC.*", "OPS"));
    assert!(matches_glob("main", "main"));
    assert!(!matches_glob("main", "mainline"));
}
