//! Role-based authorization: branch patterns, repositories, call-number
//! ranges and patch size limits.

use vstd::prelude::*;
use crate::ids::AgentId;
use crate::text::{debug_list, debug_strings, dec, dec_string, has_prefix, push_str, starts_with, str_eq, views};

verus! {

/// The role an agent plays.
#[derive(Debug, Clone, Copy, PartialEq, Eq, Structural)]
pub enum AgentRole {
    Architect,
    Implementer,
    Validator,
    Coordinator,
}

/// What an agent may touch.
#[derive(Debug, PartialEq, Eq)]
pub struct AuthorizationScope {
    /// Glob patterns of branches the agent may write.
    pub branch_patterns: Vec<String>,
    /// The largest patch, in lines, the agent may produce (`None`: no limit).
    pub max_patch_lines: Option<u32>,
    /// Repositories the agent may touch; `*` matches any.
    pub repos: Vec<String>,
    /// Glob patterns of call numbers the agent may file under (empty: any).
    pub call_number_ranges: Vec<String>,
}

/// An agent, its role and its authorization.
#[derive(Debug, PartialEq, Eq)]
pub struct AgentIdentity {
    pub name: AgentId,
    pub role: AgentRole,
    pub authorization: AuthorizationScope,
}

/// The outcome of an authorization check.
#[derive(Debug, PartialEq, Eq)]
pub struct AuthorizationResult {
    pub authorized: bool,
    pub denial_reason: Option<String>,
}

/// The view of an outcome: whether it allows, and the denial reason.
pub open spec fn outcome(r: AuthorizationResult) -> (bool, Option<Seq<char>>) {
    (r.authorized, match r.denial_reason { Some(s) => Some(s@), None => None })
}

impl AuthorizationResult {
    /// An outcome that allows.
    pub fn allowed() -> (r: Self)
        ensures
            outcome(r) == (true, None::<Seq<char>>),
    {
        AuthorizationResult { authorized: true, denial_reason: None }
    }

    /// An outcome that denies, with a reason.
    pub fn denied(reason: String) -> (r: Self)
        ensures
            outcome(r) == (false, Some(reason@)),
    {
        AuthorizationResult { authorized: false, denial_reason: Some(reason) }
    }
}

/// `*` matches anything; a pattern ending in `*` matches what starts with
/// the rest; any other pattern matches itself.
pub open spec fn glob_matches(pattern: Seq<char>, value: Seq<char>) -> bool {
    if pattern == seq!['*'] {
        true
    } else if pattern.len() > 0 && pattern.last() == '*' {
        starts_with(value, pattern.drop_last())
    } else {
        pattern == value
    }
}

/// Some pattern of the list matches the value.
pub open spec fn any_glob(patterns: Seq<Seq<char>>, value: Seq<char>) -> bool {
    exists|i: int| 0 <= i < patterns.len() && glob_matches(#[trigger] patterns[i], value)
}

/// Whether `pattern` matches `value`.
pub fn matches_glob(pattern: &str, value: &str) -> (r: bool)
    ensures
        r == glob_matches(pattern@, value@),
{
    proof {
        reveal_strlit("*");
        assert("*"@ =~= seq!['*']);
    }
    if str_eq(pattern, "*") {
        return true;
    }
    let n = pattern.unicode_len();
    if n > 0 && pattern.get_char(n - 1) == '*' {
        let prefix = crate::text::slice_chars(pattern, 0, n - 1);
        assert(prefix@ =~= pattern@.drop_last());
        return has_prefix(value, prefix.as_str());
    }
    str_eq(pattern, value)
}

/// Whether some pattern of `patterns` matches `value`.
fn any_matches(patterns: &Vec<String>, value: &str) -> (r: bool)
    ensures
        r == any_glob(views(patterns@), value@),
{
    let mut i: usize = 0;
    while i < patterns.len()
        invariant
            i <= patterns@.len(),
            forall|j: int| 0 <= j < i ==> !glob_matches(#[trigger] views(patterns@)[j], value@),
        decreases patterns@.len() - i,
    {
        if matches_glob(patterns[i].as_str(), value) {
            assert(glob_matches(views(patterns@)[i as int], value@));
            return true;
        }
        i = i + 1;
    }
    false
}

/// Denied when no branch pattern is set; allowed when a pattern matches.
pub open spec fn branch_outcome(scope: AuthorizationScope, branch: Seq<char>) -> (bool, Option<Seq<char>>) {
    if scope.branch_patterns@.len() == 0 {
        (false, Some("No branch patterns authorized"@))
    } else if any_glob(views(scope.branch_patterns@), branch) {
        (true, None)
    } else {
        (false, Some("Branch '"@ + branch + "' does not match any authorized pattern: "@ + debug_list(views(scope.branch_patterns@))))
    }
}

/// Whether the scope allows writing to `branch`.
pub fn check_branch_authorization(scope: &AuthorizationScope, branch: &str) -> (r: AuthorizationResult)
    ensures
        outcome(r) == branch_outcome(*scope, branch@),
{
    proof {
        reveal_strlit("No branch patterns authorized");
        reveal_strlit("Branch '");
        reveal_strlit("' does not match any authorized pattern: ");
        reveal_strlit("");
    }
    if scope.branch_patterns.len() == 0 {
        return AuthorizationResult::denied("No branch patterns authorized".to_owned());
    }
    if any_matches(&scope.branch_patterns, branch) {
        return AuthorizationResult::allowed();
    }
    let mut s = String::new();
    push_str(&mut s, "Branch '");
    push_str(&mut s, branch);
    push_str(&mut s, "' does not match any authorized pattern: ");
    let d = debug_strings(&scope.branch_patterns);
    push_str(&mut s, d.as_str());
    AuthorizationResult::denied(s)
}

/// Denied exactly when a limit is set and the patch exceeds it.
pub open spec fn patch_outcome(scope: AuthorizationScope, lines: u32) -> (bool, Option<Seq<char>>) {
    match scope.max_patch_lines {
        Some(max) => if lines > max {
            (false, Some("Patch size "@ + dec(lines as nat) + " lines exceeds limit of "@ + dec(max as nat) + " lines"@))
        } else {
            (true, None)
        },
        None => (true, None),
    }
}

/// Whether a patch of `patch_lines` lines is within the scope's limit.
pub fn check_patch_size(scope: &AuthorizationScope, patch_lines: u32) -> (r: AuthorizationResult)
    ensures
        outcome(r) == patch_outcome(*scope, patch_lines),
{
    match scope.max_patch_lines {
        Some(max) => {
            if patch_lines > max {
                let mut s = String::new();
                push_str(&mut s, "Patch size ");
                let a = dec_string(patch_lines as u64);
                push_str(&mut s, a.as_str());
                push_str(&mut s, " lines exceeds limit of ");
                let b = dec_string(max as u64);
                push_str(&mut s, b.as_str());
                push_str(&mut s, " lines");
                proof {
                    reveal_strlit("Patch size ");
                    reveal_strlit(" lines exceeds limit of ");
                    reveal_strlit(" lines");
                    reveal_strlit("");
                }
                AuthorizationResult::denied(s)
            } else {
                AuthorizationResult::allowed()
            }
        },
        None => AuthorizationResult::allowed(),
    }
}

/// Some entry of the list is `*` or the repository itself.
pub open spec fn repo_listed(repos: Seq<Seq<char>>, repo: Seq<char>) -> bool {
    exists|i: int| 0 <= i < repos.len() && (#[trigger] repos[i] == seq!['*'] || repos[i] == repo)
}

/// Denied when no repository is listed; allowed when the repository is.
pub open spec fn repo_outcome(scope: AuthorizationScope, repo: Seq<char>) -> (bool, Option<Seq<char>>) {
    if scope.repos@.len() == 0 {
        (false, Some("No repositories authorized"@))
    } else if repo_listed(views(scope.repos@), repo) {
        (true, None)
    } else {
        (false, Some("Repository '"@ + repo + "' not in authorized list: "@ + debug_list(views(scope.repos@))))
    }
}

/// Whether the scope allows touching `repo`.
pub fn check_repo_authorization(scope: &AuthorizationScope, repo: &str) -> (r: AuthorizationResult)
    ensures
        outcome(r) == repo_outcome(*scope, repo@),
{
    proof {
        reveal_strlit("No repositories authorized");
        reveal_strlit("Repository '");
        reveal_strlit("' not in authorized list: ");
        reveal_strlit("*");
        reveal_strlit("");
        assert("*"@ =~= seq!['*']);
    }
    if scope.repos.len() == 0 {
        return AuthorizationResult::denied("No repositories authorized".to_owned());
    }
    let mut i: usize = 0;
    while i < scope.repos.len()
        invariant
            i <= scope.repos@.len(),
            "*"@ == seq!['*'],
            forall|j: int| 0 <= j < i ==> !(#[trigger] views(scope.repos@)[j] == seq!['*'] || views(scope.repos@)[j] == repo@),
        decreases scope.repos@.len() - i,
    {
        assert(views(scope.repos@)[i as int] == scope.repos@[i as int]@);
        if str_eq(scope.repos[i].as_str(), "*") || str_eq(scope.repos[i].as_str(), repo) {
            assert(views(scope.repos@)[i as int] == seq!['*'] || views(scope.repos@)[i as int] == repo@);
            return AuthorizationResult::allowed();
        }
        i = i + 1;
    }
    let mut s = String::new();
    push_str(&mut s, "Repository '");
    push_str(&mut s, repo);
    push_str(&mut s, "' not in authorized list: ");
    let d = debug_strings(&scope.repos);
    push_str(&mut s, d.as_str());
    AuthorizationResult::denied(s)
}

/// Allowed when no range is set or a range matches.
pub open spec fn call_number_outcome(scope: AuthorizationScope, call_number: Seq<char>) -> (bool, Option<Seq<char>>) {
    if scope.call_number_ranges@.len() == 0 {
        (true, None)
    } else if any_glob(views(scope.call_number_ranges@), call_number) {
        (true, None)
    } else {
        (false, Some("Call number '"@ + call_number + "' not in authorized ranges: "@ + debug_list(views(scope.call_number_ranges@))))
    }
}

/// Whether the scope allows filing under `call_number`.
pub fn check_call_number_authorization(scope: &AuthorizationScope, call_number: &str) -> (r: AuthorizationResult)
    ensures
        outcome(r) == call_number_outcome(*scope, call_number@),
{
    proof {
        reveal_strlit("Call number '");
        reveal_strlit("' not in authorized ranges: ");
        reveal_strlit("");
    }
    if scope.call_number_ranges.len() == 0 {
        return AuthorizationResult::allowed();
    }
    if any_matches(&scope.call_number_ranges, call_number) {
        return AuthorizationResult::allowed();
    }
    let mut s = String::new();
    push_str(&mut s, "Call number '");
    push_str(&mut s, call_number);
    push_str(&mut s, "' not in authorized ranges: ");
    let d = debug_strings(&scope.call_number_ranges);
    push_str(&mut s, d.as_str());
    AuthorizationResult::denied(s)
}

/// The branch, then the repository, then the patch size; the first denial wins.
pub open spec fn full_outcome(identity: AgentIdentity, branch: Seq<char>, repo: Seq<char>, lines: u32) -> (bool, Option<Seq<char>>) {
    let scope = identity.authorization;
    if !branch_outcome(scope, branch).0 {
        branch_outcome(scope, branch)
    } else if !repo_outcome(scope, repo).0 {
        repo_outcome(scope, repo)
    } else if !patch_outcome(scope, lines).0 {
        patch_outcome(scope, lines)
    } else {
        (true, None)
    }
}

/// Check branch, repository and patch size together.
pub fn check_full_authorization(identity: &AgentIdentity, branch: &str, repo: &str, patch_lines: u32) -> (r: AuthorizationResult)
    ensures
        outcome(r) == full_outcome(*identity, branch@, repo@, patch_lines),
{
    let scope = &identity.authorization;
    let branch_check = check_branch_authorization(scope, branch);
    if !branch_check.authorized {
        return branch_check;
    }
    let repo_check = check_repo_authorization(scope, repo);
    if !repo_check.authorized {
        return repo_check;
    }
    let patch_check = check_patch_size(scope, patch_lines);
    if !patch_check.authorized {
        return patch_check;
    }
    AuthorizationResult::allowed()
}

/// Only implementers and architects produce patches.
pub fn can_produce_patches(role: AgentRole) -> (r: bool)
    ensures
        r == (role == AgentRole::Implementer || role == AgentRole::Architect),
{
    match role {
        AgentRole::Implementer => true,
        AgentRole::Architect => true,
        _ => false,
    }
}

} // verus!
