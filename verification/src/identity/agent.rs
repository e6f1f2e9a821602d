//! The registry of agent identities, and a builder for identities.

use vstd::prelude::*;
use crate::ids::AgentId;
use crate::strmap::StrMap;
use crate::text::{dec, dec_string, ends_with, has_char, has_prefix, has_suffix, push_str, slice_chars, starts_with, str_eq, views};

verus! {

/// What an agent can do.
#[derive(Debug, Clone, Copy, PartialEq, Eq, Structural)]
pub enum AgentCapability {
    PatchGeneration,
    DiffAnalysis,
    CodeReview,
    MemoryCuration,
}

/// The branches and repositories an agent may touch.
#[derive(Debug, PartialEq, Eq)]
pub struct AuthorizationScope {
    /// Branch patterns (empty: any branch).
    pub branches: Vec<String>,
    /// Repository patterns (empty: any repository).
    pub repos: Vec<String>,
    /// The largest patch, in lines.
    pub max_patch_lines: Option<u32>,
}

/// A registered agent.
#[derive(Debug, PartialEq, Eq)]
pub struct AgentIdentity {
    pub name: AgentId,
    pub organization: String,
    pub capabilities: Vec<AgentCapability>,
    pub authorization_scope: AuthorizationScope,
    pub signing_key_fingerprint: Option<String>,
    pub created: String,
    pub version: u32,
}

/// The outcome of an authorization check.
#[derive(Debug, PartialEq, Eq)]
pub enum AuthorizationCheck {
    Allowed,
    Denied { reason: String },
}

/// `**` matches anything; `p/*` matches `p/x` for one more path segment
/// `x`; `p/**` matches any path below `p/`; anything else matches itself.
pub open spec fn path_glob(pattern: Seq<char>, value: Seq<char>) -> bool {
    if pattern == seq!['*', '*'] {
        true
    } else if ends_with(pattern, seq!['/', '*']) {
        let prefix = pattern.subrange(0, pattern.len() - 2);
        if starts_with(value, prefix) {
            let rest = value.subrange(prefix.len() as int, value.len() as int);
            rest.len() > 0 && rest[0] == '/' && !rest.subrange(1, rest.len() as int).contains('/')
        } else {
            false
        }
    } else if ends_with(pattern, seq!['/', '*', '*']) {
        let prefix = pattern.subrange(0, pattern.len() - 3);
        starts_with(value, prefix) && prefix.len() < value.len() && value[prefix.len() as int] == '/'
    } else {
        pattern == value
    }
}

/// A pattern with a `*` matches by `path_glob`; one without, only itself.
pub open spec fn item_matches(pattern: Seq<char>, value: Seq<char>) -> bool {
    if pattern.contains('*') { path_glob(pattern, value) } else { pattern == value }
}

/// The list is empty or one of its patterns matches.
pub open spec fn allows(patterns: Seq<Seq<char>>, value: Seq<char>) -> bool {
    patterns.len() == 0 || exists|i: int| 0 <= i < patterns.len() && item_matches(#[trigger] patterns[i], value)
}

/// Whether `pattern` matches `value` as a path glob.
pub fn glob_match(pattern: &str, value: &str) -> (r: bool)
    ensures
        r == path_glob(pattern@, value@),
{
    proof {
        reveal_strlit("**");
        reveal_strlit("/*");
        reveal_strlit("/**");
        assert("**"@ =~= seq!['*', '*']);
        assert("/*"@ =~= seq!['/', '*']);
        assert("/**"@ =~= seq!['/', '*', '*']);
    }
    if str_eq(pattern, "**") {
        return true;
    }
    let n = pattern.unicode_len();
    let m = value.unicode_len();
    if has_suffix(pattern, "/*") {
        let prefix = slice_chars(pattern, 0, n - 2);
        if has_prefix(value, prefix.as_str()) {
            let p = prefix.unicode_len();
            let rest = slice_chars(value, p, m);
            if rest.unicode_len() == 0 || rest.get_char(0) != '/' {
                return false;
            }
            let tail = slice_chars(rest.as_str(), 1, rest.unicode_len());
            assert(tail@ =~= rest@.subrange(1, rest@.len() as int));
            return !has_char(tail.as_str(), '/');
        }
        return false;
    }
    if has_suffix(pattern, "/**") {
        let prefix = slice_chars(pattern, 0, n - 3);
        let p = prefix.unicode_len();
        return has_prefix(value, prefix.as_str()) && p < m && value.get_char(p) == '/';
    }
    str_eq(pattern, value)
}

fn item_match(pattern: &str, value: &str) -> (r: bool)
    ensures
        r == item_matches(pattern@, value@),
{
    if has_char(pattern, '*') { glob_match(pattern, value) } else { str_eq(pattern, value) }
}

fn allowed_by(patterns: &Vec<String>, value: &str) -> (r: bool)
    ensures
        r == allows(views(patterns@), value@),
{
    if patterns.len() == 0 {
        return true;
    }
    let mut i: usize = 0;
    while i < patterns.len()
        invariant
            i <= patterns@.len(),
            forall|j: int| 0 <= j < i ==> !item_matches(#[trigger] views(patterns@)[j], value@),
        decreases patterns@.len() - i,
    {
        assert(views(patterns@)[i as int] == patterns@[i as int]@);
        if item_match(patterns[i].as_str(), value) {
            return true;
        }
        i = i + 1;
    }
    false
}

/// The repository is checked first, then the branch.
pub open spec fn scope_outcome(scope: AuthorizationScope, branch: Seq<char>, repo: Seq<char>) -> Option<Seq<char>> {
    if !allows(views(scope.repos@), repo) {
        Some("Agent not authorized for repo "@ + repo)
    } else if !allows(views(scope.branches@), branch) {
        Some("Agent not authorized for branch "@ + branch)
    } else {
        None
    }
}

/// The denial reason of a check, if any.
pub open spec fn denial(c: AuthorizationCheck) -> Option<Seq<char>> {
    match c {
        AuthorizationCheck::Allowed => None,
        AuthorizationCheck::Denied { reason } => Some(reason@),
    }
}

fn check_authorization(scope: &AuthorizationScope, branch: &str, repo: &str) -> (r: AuthorizationCheck)
    ensures
        denial(r) == scope_outcome(*scope, branch@, repo@),
{
    proof {
        reveal_strlit("Agent not authorized for repo ");
        reveal_strlit("Agent not authorized for branch ");
        reveal_strlit("");
    }
    if !allowed_by(&scope.repos, repo) {
        let mut s = String::new();
        push_str(&mut s, "Agent not authorized for repo ");
        push_str(&mut s, repo);
        return AuthorizationCheck::Denied { reason: s };
    }
    if !allowed_by(&scope.branches, branch) {
        let mut s = String::new();
        push_str(&mut s, "Agent not authorized for branch ");
        push_str(&mut s, branch);
        return AuthorizationCheck::Denied { reason: s };
    }
    AuthorizationCheck::Allowed
}

/// Registering an identity that is not newer than the registered one.
#[derive(Debug, PartialEq, Eq)]
pub enum RegistryError {
    NotNewer { name: String, version: u32, existing: u32 },
}

impl RegistryError {
    /// The error as a sentence.
    pub fn message(&self) -> (s: String)
        ensures
            s@ == (match self {
                RegistryError::NotNewer { name, version, existing } => "Agent "@ + name@ + " version "@ + dec(
                    *version as nat,
                ) + " is not newer than existing version "@ + dec(*existing as nat),
            }),
    {
        match self {
            RegistryError::NotNewer { name, version, existing } => {
                let mut s = String::new();
                push_str(&mut s, "Agent ");
                push_str(&mut s, name.as_str());
                push_str(&mut s, " version ");
                let a = dec_string(*version as u64);
                push_str(&mut s, a.as_str());
                push_str(&mut s, " is not newer than existing version ");
                let b = dec_string(*existing as u64);
                push_str(&mut s, b.as_str());
                proof {
                    reveal_strlit("Agent ");
                    reveal_strlit(" version ");
                    reveal_strlit(" is not newer than existing version ");
                    reveal_strlit("");
                }
                s
            },
        }
    }
}

/// The identities of a collective, keyed by agent name.
pub struct AgentRegistry {
    agents: StrMap<AgentIdentity>,
}

impl View for AgentRegistry {
    type V = Map<Seq<char>, AgentIdentity>;

    closed spec fn view(&self) -> Map<Seq<char>, AgentIdentity> {
        self.agents.map()
    }
}

impl Default for AgentRegistry {
    fn default() -> (r: Self)
        ensures
            r@ == Map::<Seq<char>, AgentIdentity>::empty(),
            r.order() == Seq::<Seq<char>>::empty(),
    {
        AgentRegistry::new()
    }
}

impl AgentRegistry {
    #[verifier::type_invariant]
    spec fn inv(self) -> bool {
        self.agents.wf()
    }

    /// Agent names in the order first registered.
    pub closed spec fn order(self) -> Seq<Seq<char>> {
        self.agents.key_seq()
    }

    /// An empty registry.
    pub fn new() -> (r: Self)
        ensures
            r@ == Map::<Seq<char>, AgentIdentity>::empty(),
            r.order() == Seq::<Seq<char>>::empty(),
    {
        AgentRegistry { agents: StrMap::new() }
    }

    /// Register an identity under its name; a registered name only accepts a
    /// strictly newer version.
    pub fn register(&mut self, identity: AgentIdentity) -> (r: Result<(), RegistryError>)
        ensures
            r is Err <==> (old(self)@.dom().contains(identity.name@) && identity.version <= old(self)@[identity.name@].version),
            r is Ok ==> final(self)@ == old(self)@.insert(identity.name@, identity),
            r matches Err(RegistryError::NotNewer { name, version, existing }) ==> {
                &&& final(self)@ == old(self)@
                &&& name@ == identity.name@
                &&& version == identity.version
                &&& existing == old(self)@[identity.name@].version
            },
    {
        proof { use_type_invariant(&*self); }
        let key = identity.name.0.clone();
        match self.agents.get(key.as_str()) {
            Some(existing) => {
                if identity.version <= existing.version {
                    return Err(RegistryError::NotNewer { name: key, version: identity.version, existing: existing.version });
                }
            },
            None => {},
        }
        let mut m = StrMap::new();
        std::mem::swap(&mut m, &mut self.agents);
        m.insert(key, identity);
        self.agents = m;
        Ok(())
    }

    /// The identity registered for `agent`.
    pub fn get(&self, agent: &AgentId) -> (r: Option<&AgentIdentity>)
        ensures
            match r {
                Some(i) => self@.dom().contains(agent@) && *i == self@[agent@],
                None => !self@.dom().contains(agent@),
            },
    {
        proof { use_type_invariant(self); }
        self.agents.get(agent.0.as_str())
    }

    /// Every identity, in the order first registered.
    pub fn all(&self) -> (r: Vec<&AgentIdentity>)
        ensures
            r@.len() == self.order().len(),
            forall|i: int| 0 <= i < r@.len() ==> *(#[trigger] r@[i]) == self@[self.order()[i]],
    {
        proof {
            use_type_invariant(self);
            self.agents.lemma_wf();
        }
        let mut out: Vec<&AgentIdentity> = Vec::new();
        let mut i: usize = 0;
        while i < self.agents.len()
            invariant
                self.agents.wf(),
                i <= self.agents.key_seq().len(),
                self.agents.key_seq().len() == self.agents.val_seq().len(),
                forall|j: int| 0 <= j < self.agents.key_seq().len() ==> #[trigger] self.agents.map()[self.agents.key_seq()[j]] == self.agents.val_seq()[j],
                out@.len() == i,
                forall|j: int| 0 <= j < i ==> *(#[trigger] out@[j]) == self.agents.map()[self.agents.key_seq()[j]],
            decreases self.agents.key_seq().len() - i,
        {
            out.push(self.agents.val_at(i));
            i = i + 1;
        }
        out
    }

    /// Every registered name, in the order first registered.
    pub fn all_ids(&self) -> (r: Vec<AgentId>)
        ensures
            r@.map_values(|a: AgentId| a@) == self.order(),
            forall|a: Seq<char>| self@.dom().contains(a) <==> self.order().contains(a),
    {
        proof {
            use_type_invariant(self);
            self.agents.lemma_wf();
        }
        let mut out: Vec<AgentId> = Vec::new();
        let mut i: usize = 0;
        while i < self.agents.len()
            invariant
                self.agents.wf(),
                i <= self.agents.key_seq().len(),
                out@.map_values(|a: AgentId| a@) == self.agents.key_seq().take(i as int),
            decreases self.agents.key_seq().len() - i,
        {
            let ghost before = out@;
            let k = self.agents.key_at(i).clone();
            out.push(AgentId(k));
            assert(out@.map_values(|a: AgentId| a@) =~= before.map_values(|a: AgentId| a@).push(self.agents.key_seq()[i as int]));
            i = i + 1;
            assert(out@.map_values(|a: AgentId| a@) =~= self.agents.key_seq().take(i as int));
        }
        assert(self.agents.key_seq().take(self.agents.key_seq().len() as int) =~= self.agents.key_seq());
        out
    }

    /// Number of registered agents.
    pub fn count(&self) -> (n: usize)
        ensures
            n == self.order().len(),
            n == self@.len(),
    {
        proof {
            use_type_invariant(self);
            self.agents.lemma_wf();
            self.agents.key_seq().unique_seq_to_set();
            assert(self.agents.map().dom() =~= self.agents.key_seq().to_set());
        }
        self.agents.len()
    }

    /// Whether `agent` may write to `branch` of `repo`: it must be
    /// registered, its repositories must allow `repo` and its branches `branch`.
    pub fn is_authorized(&self, agent: &AgentId, branch: &str, repo: &str) -> (r: AuthorizationCheck)
        ensures
            !self@.dom().contains(agent@) ==> denial(r) == Some("Agent "@ + agent@ + " not registered"@),
            self@.dom().contains(agent@) ==> denial(r) == scope_outcome(self@[agent@].authorization_scope, branch@, repo@),
    {
        match self.get(agent) {
            None => {
                let mut s = String::new();
                push_str(&mut s, "Agent ");
                push_str(&mut s, agent.0.as_str());
                push_str(&mut s, " not registered");
                proof {
                    reveal_strlit("Agent ");
                    reveal_strlit(" not registered");
                    reveal_strlit("");
                }
                AuthorizationCheck::Denied { reason: s }
            },
            Some(identity) => check_authorization(&identity.authorization_scope, branch, repo),
        }
    }
}

/// Builds an agent identity step by step.
pub struct AgentIdentityBuilder {
    name: AgentId,
    organization: String,
    capabilities: Vec<AgentCapability>,
    branches: Vec<String>,
    repos: Vec<String>,
    max_patch_lines: Option<u32>,
}

/// The plain content of a builder.
pub struct BuilderView {
    pub name: Seq<char>,
    pub organization: Seq<char>,
    pub capabilities: Seq<AgentCapability>,
    pub branches: Seq<Seq<char>>,
    pub repos: Seq<Seq<char>>,
    pub max_patch_lines: Option<u32>,
}

impl View for AgentIdentityBuilder {
    type V = BuilderView;

    closed spec fn view(&self) -> BuilderView {
        BuilderView {
            name: self.name@,
            organization: self.organization@,
            capabilities: self.capabilities@,
            branches: views(self.branches@),
            repos: views(self.repos@),
            max_patch_lines: self.max_patch_lines,
        }
    }
}

impl AgentIdentityBuilder {
    /// A builder for an agent of an organization, with nothing granted.
    pub fn new(name: &str, organization: &str) -> (b: Self)
        ensures
            b@ == (BuilderView {
                name: name@,
                organization: organization@,
                capabilities: Seq::empty(),
                branches: Seq::empty(),
                repos: Seq::empty(),
                max_patch_lines: None,
            }),
    {
        let b = AgentIdentityBuilder {
            name: AgentId(name.to_owned()),
            organization: organization.to_owned(),
            capabilities: Vec::new(),
            branches: Vec::new(),
            repos: Vec::new(),
            max_patch_lines: None,
        };
        assert(views(b.branches@) =~= Seq::<Seq<char>>::empty());
        assert(views(b.repos@) =~= Seq::<Seq<char>>::empty());
        b
    }

    /// Add a capability.
    pub fn capability(self, cap: AgentCapability) -> (b: Self)
        ensures
            b@ == (BuilderView { capabilities: self@.capabilities.push(cap), ..self@ }),
    {
        let mut s = self;
        s.capabilities.push(cap);
        s
    }

    /// Allow a branch pattern.
    pub fn branch_pattern(self, pattern: &str) -> (b: Self)
        ensures
            b@ == (BuilderView { branches: self@.branches.push(pattern@), ..self@ }),
    {
        let mut s = self;
        let ghost before = s.branches@;
        s.branches.push(pattern.to_owned());
        assert(views(s.branches@) =~= views(before).push(pattern@));
        s
    }

    /// Allow a repository.
    pub fn repo(self, repo: &str) -> (b: Self)
        ensures
            b@ == (BuilderView { repos: self@.repos.push(repo@), ..self@ }),
    {
        let mut s = self;
        let ghost before = s.repos@;
        s.repos.push(repo.to_owned());
        assert(views(s.repos@) =~= views(before).push(repo@));
        s
    }

    /// Limit patch size.
    pub fn max_patch_lines(self, max: u32) -> (b: Self)
        ensures
            b@ == (BuilderView { max_patch_lines: Some(max), ..self@ }),
    {
        let mut s = self;
        s.max_patch_lines = Some(max);
        s
    }

    /// The identity, at version 1, created at `now`, with no signing key.
    pub fn build(self, now: String) -> (i: AgentIdentity)
        ensures
            i.name@ == self@.name,
            i.organization@ == self@.organization,
            i.capabilities@ == self@.capabilities,
            views(i.authorization_scope.branches@) == self@.branches,
            views(i.authorization_scope.repos@) == self@.repos,
            i.authorization_scope.max_patch_lines == self@.max_patch_lines,
            i.signing_key_fingerprint is None,
            i.created == now,
            i.version == 1,
    {
        AgentIdentity {
            name: self.name,
            organization: self.organization,
            capabilities: self.capabilities,
            authorization_scope: AuthorizationScope {
                branches: self.branches,
                repos: self.repos,
                max_patch_lines: self.max_patch_lines,
            },
            signing_key_fingerprint: None,
            created: now,
            version: 1,
        }
    }
}

/// `p/**` matches every path below `p/`, and only those; `p/*` matches a
/// path below `p/` exactly when the part after `p/` has no further `/`;
/// `**` matches everything.
pub proof fn lemma_path_glob_below(p: Seq<char>, s: Seq<char>, v: Seq<char>)
    ensures
        path_glob(p + seq!['/', '*', '*'], p + seq!['/'] + s),
        path_glob(p + seq!['/', '*'], p + seq!['/'] + s) == !s.contains('/'),
        path_glob(seq!['*', '*'], v),
        path_glob(p + seq!['/', '*', '*'], v) ==> exists|t: Seq<char>| v == p + seq!['/'] + t,
{
    let pat2 = p + seq!['/', '*', '*'];
    let pat1 = p + seq!['/', '*'];
    let val = p + seq!['/'] + s;
    assert(pat2.len() >= 3);
    assert(pat2 != seq!['*', '*']);
    assert(!ends_with(pat2, seq!['/', '*'])) by {
        assert(pat2.subrange(pat2.len() - 2, pat2.len() as int)[0] == '*');
    }
    assert(ends_with(pat2, seq!['/', '*', '*'])) by {
        assert(pat2.subrange(pat2.len() - 3, pat2.len() as int) =~= seq!['/', '*', '*']);
    }
    assert(pat2.subrange(0, pat2.len() - 3) =~= p);
    assert(val.subrange(0, p.len() as int) =~= p);
    assert(val[p.len() as int] == '/');
    assert(pat1 != seq!['*', '*']) by {
        if pat1 == seq!['*', '*'] {
            assert(pat1[pat1.len() - 2] == '/');
        }
    }
    assert(ends_with(pat1, seq!['/', '*'])) by {
        assert(pat1.subrange(pat1.len() - 2, pat1.len() as int) =~= seq!['/', '*']);
    }
    assert(pat1.subrange(0, pat1.len() - 2) =~= p);
    let rest = val.subrange(p.len() as int, val.len() as int);
    assert(rest =~= seq!['/'] + s);
    assert(rest.subrange(1, rest.len() as int) =~= s);
    if path_glob(pat2, v) {
        let t = v.subrange(p.len() as int + 1, v.len() as int);
        assert(v =~= p + seq!['/'] + t);
    }
}

} // verus!
