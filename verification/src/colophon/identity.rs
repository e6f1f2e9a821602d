//! The identity manager: the colophons of a workshop's agents and the log of
//! their signing keys.

use vstd::prelude::*;
use crate::ids::AgentId;
use crate::text::{debug_str, debug_string, has_char, clone_strings, has_prefix, has_suffix, push_str, slice_chars, starts_with, ends_with, str_eq, views};

verus! {

/// The part an agent plays in the workshop.
#[derive(Debug, Clone, Copy, PartialEq, Eq, Structural)]
pub enum WorkshopRole {
    Author,
    Editor,
    ContinuityChecker,
    Publisher,
}

/// What an agent may write.
#[derive(Debug, PartialEq, Eq)]
pub struct AgentAuthorization {
    pub branch_patterns: Vec<String>,
    pub max_chapter_size: Option<u32>,
    pub repos: Vec<String>,
}

/// An agent's colophon.
#[derive(Debug, PartialEq, Eq)]
pub struct Colophon {
    pub agent_id: AgentId,
    pub commune: String,
    pub role: WorkshopRole,
    pub capabilities: Vec<String>,
    pub style: String,
    pub authorization: AgentAuthorization,
    pub signing_key: Option<String>,
    pub first_chapter: Option<u64>,
    pub chapters_authored: u64,
    pub created_at: String,
}

/// What happened to a key.
#[derive(Debug, Clone, Copy, PartialEq, Eq, Structural)]
pub enum KeyEvent {
    Provisioned,
    Rotated,
    Compromised,
}

/// One line of the key log.
#[derive(Debug, PartialEq, Eq)]
pub struct KeyLifecycleEntry {
    pub event: KeyEvent,
    pub key_id: String,
    pub timestamp: String,
    pub succeeded_by: Option<String>,
    pub forgery_detected_at: Option<String>,
}

/// The view of an optional string.
pub open spec fn ov(o: Option<String>) -> Option<Seq<char>> {
    match o {
        Some(s) => Some(s@),
        None => None,
    }
}

/// The plain content of a colophon.
pub struct ColophonView {
    pub agent_id: Seq<char>,
    pub commune: Seq<char>,
    pub role: WorkshopRole,
    pub capabilities: Seq<Seq<char>>,
    pub style: Seq<char>,
    pub branch_patterns: Seq<Seq<char>>,
    pub max_chapter_size: Option<u32>,
    pub repos: Seq<Seq<char>>,
    pub signing_key: Option<Seq<char>>,
    pub first_chapter: Option<u64>,
    pub chapters_authored: u64,
    pub created_at: Seq<char>,
}

/// The view of a colophon.
pub open spec fn colophon_view(c: Colophon) -> ColophonView {
    ColophonView {
        agent_id: c.agent_id@,
        commune: c.commune@,
        role: c.role,
        capabilities: views(c.capabilities@),
        style: c.style@,
        branch_patterns: views(c.authorization.branch_patterns@),
        max_chapter_size: c.authorization.max_chapter_size,
        repos: views(c.authorization.repos@),
        signing_key: ov(c.signing_key),
        first_chapter: c.first_chapter,
        chapters_authored: c.chapters_authored,
        created_at: c.created_at@,
    }
}

/// The plain content of a key log line.
pub struct KeyEntryView {
    pub event: KeyEvent,
    pub key_id: Seq<char>,
    pub timestamp: Seq<char>,
    pub succeeded_by: Option<Seq<char>>,
    pub forgery_detected_at: Option<Seq<char>>,
}

/// The view of a key log line.
pub open spec fn entry_view(e: KeyLifecycleEntry) -> KeyEntryView {
    KeyEntryView {
        event: e.event,
        key_id: e.key_id@,
        timestamp: e.timestamp@,
        succeeded_by: ov(e.succeeded_by),
        forgery_detected_at: ov(e.forgery_detected_at),
    }
}

/// The views of key log lines.
pub open spec fn entry_views(s: Seq<KeyLifecycleEntry>) -> Seq<KeyEntryView> {
    s.map_values(|e: KeyLifecycleEntry| entry_view(e))
}

/// The views of colophons.
pub open spec fn colophon_views(s: Seq<Colophon>) -> Seq<ColophonView> {
    s.map_values(|c: Colophon| colophon_view(c))
}

/// A key provisioned at `timestamp`.
pub open spec fn provisioned(key: Seq<char>, timestamp: Seq<char>) -> KeyEntryView {
    KeyEntryView { event: KeyEvent::Provisioned, key_id: key, timestamp, succeeded_by: None, forgery_detected_at: None }
}

/// The key log after registering a colophon.
pub open spec fn log_after_register(log: Seq<KeyEntryView>, c: ColophonView) -> Seq<KeyEntryView> {
    match c.signing_key {
        Some(k) => log.push(provisioned(k, c.created_at)),
        None => log,
    }
}

/// Position `i` holds the first colophon of the agent.
pub open spec fn first_colophon(s: Seq<Colophon>, agent: Seq<char>, i: int) -> bool {
    &&& 0 <= i < s.len()
    &&& s[i].agent_id@ == agent
    &&& forall|j: int| 0 <= j < i ==> (#[trigger] s[j]).agent_id@ != agent
}

/// No colophon is the agent's.
pub open spec fn no_colophon(s: Seq<Colophon>, agent: Seq<char>) -> bool {
    forall|j: int| 0 <= j < s.len() ==> (#[trigger] s[j]).agent_id@ != agent
}

/// What a `*` stands for at the end of a pattern: characters of a single
/// path component (no `/`).
pub open spec fn in_component(c: Seq<char>) -> bool {
    !c.contains('/')
}

/// A pattern matches a branch when equal to it, or when it ends in `*` and
/// the branch is the pattern's text before the `*` followed by characters
/// of one path component: `p/*` takes one whole (non-empty) component
/// after `p/`, `p*` the rest of the component that `p` begins.
pub open spec fn branch_matches(pattern: Seq<char>, branch: Seq<char>) -> bool {
    if pattern == branch {
        true
    } else if ends_with(pattern, seq!['/', '*']) {
        let q = pattern.subrange(0, pattern.len() - 1);
        starts_with(branch, q) && branch.len() > q.len() && in_component(branch.skip(q.len() as int))
    } else if ends_with(pattern, seq!['*']) {
        let q = pattern.subrange(0, pattern.len() - 1);
        starts_with(branch, q) && in_component(branch.skip(q.len() as int))
    } else {
        false
    }
}

fn branch_match(pattern: &str, branch: &str) -> (r: bool)
    ensures
        r == branch_matches(pattern@, branch@),
{
    proof {
        reveal_strlit("/*");
        reveal_strlit("*");
        assert("/*"@ =~= seq!['/', '*']);
        assert("*"@ =~= seq!['*']);
    }
    if str_eq(pattern, branch) {
        return true;
    }
    if !has_suffix(pattern, "*") {
        proof {
            if ends_with(pattern@, seq!['/', '*']) {
                assert(pattern@.subrange(pattern@.len() - 1, pattern@.len() as int) =~= seq!['*']);
            }
        }
        return false;
    }
    let n = pattern.unicode_len();
    let q = slice_chars(pattern, 0, n - 1);
    if !has_prefix(branch, q.as_str()) {
        return false;
    }
    let m = branch.unicode_len();
    let k = q.as_str().unicode_len();
    let rest = slice_chars(branch, k, m);
    assert(rest@ =~= branch@.skip(k as int));
    let whole = has_suffix(pattern, "/*");
    if whole && m <= k {
        return false;
    }
    !has_char(rest.as_str(), '/')
}

/// The content of a workshop member's colophon.
pub open spec fn member(
    name: Seq<char>,
    commune: Seq<char>,
    role: WorkshopRole,
    capabilities: Seq<Seq<char>>,
    style: Seq<char>,
    patterns: Seq<Seq<char>>,
    max_chapter_size: Option<u32>,
    timestamp: Seq<char>,
) -> ColophonView {
    ColophonView {
        agent_id: name,
        commune,
        role,
        capabilities,
        style,
        branch_patterns: patterns,
        max_chapter_size,
        repos: Seq::empty(),
        signing_key: Some("openwallet:"@ + commune + ":"@ + name),
        first_chapter: None,
        chapters_authored: 0,
        created_at: timestamp,
    }
}

/// The four colophons of the standard workshop: an author, an editor, a
/// continuity checker and a publisher.
pub open spec fn standard_workshop(commune: Seq<char>, timestamp: Seq<char>) -> Seq<ColophonView> {
    seq![
        member("orozco"@, commune, WorkshopRole::Author,
            seq!["patch_generation"@, "refactoring"@, "bug_fixes"@],
            "concrete, iterative, material"@, seq!["chapter/*"@, "feat/*"@], Some(500u32), timestamp),
        member("brenner"@, commune, WorkshopRole::Editor,
            seq!["memory_curation"@, "motif_tracking"@, "narrative_annotation"@],
            "lyrical, expansive, thematic"@, seq!["refs/but-ai/story/*"@], None, timestamp),
        member("sato"@, commune, WorkshopRole::ContinuityChecker,
            seq!["consistency_validation"@, "convention_tracking"@],
            "precise, factual, brief"@, Seq::empty(), None, timestamp),
        member("hartmann"@, commune, WorkshopRole::Publisher,
            seq!["cross_repo_coordination"@, "correspondence"@, "translation"@],
            "bilingual, precise, timing-aware"@, Seq::empty(), None, timestamp),
    ]
}

/// Why an identity operation failed.
#[derive(Debug, PartialEq, Eq)]
pub enum IdentityError {
    AgentNotFound { agent: AgentId },
}

impl IdentityError {
    /// The error as a sentence, naming the agent as `{:?}` renders an `AgentId`.
    pub fn message(&self) -> (s: String)
        ensures
            s@ == (match self {
                IdentityError::AgentNotFound { agent } => "Agent not found: AgentId("@ + debug_str(agent@) + ")"@,
            }),
    {
        match self {
            IdentityError::AgentNotFound { agent } => {
                let mut s = String::new();
                push_str(&mut s, "Agent not found: AgentId(");
                let d = debug_string(agent.0.as_str());
                push_str(&mut s, d.as_str());
                push_str(&mut s, ")");
                proof {
                    reveal_strlit("Agent not found: AgentId(");
                    reveal_strlit(")");
                    reveal_strlit("");
                }
                s
            },
        }
    }
}

/// The colophons of a workshop and the log of their keys.
pub struct IdentityManager {
    colophons: Vec<Colophon>,
    key_log: Vec<KeyLifecycleEntry>,
}

impl Default for IdentityManager {
    fn default() -> (m: Self)
        ensures
            m.colophon_seq() == Seq::<Colophon>::empty(),
            m.log() == Seq::<KeyEntryView>::empty(),
    {
        IdentityManager::new()
    }
}

fn strings(a: &str, b: &str, c: &str, n: usize) -> (v: Vec<String>)
    requires
        n <= 3,
    ensures
        views(v@) == (if n == 0 { Seq::<Seq<char>>::empty() } else if n == 1 { seq![a@] } else if n == 2 { seq![a@, b@] } else { seq![a@, b@, c@] }),
{
    let mut v: Vec<String> = Vec::new();
    if n >= 1 { v.push(a.to_owned()); }
    if n >= 2 { v.push(b.to_owned()); }
    if n >= 3 { v.push(c.to_owned()); }
    assert(views(v@) =~= (if n == 0 { Seq::<Seq<char>>::empty() } else if n == 1 { seq![a@] } else if n == 2 { seq![a@, b@] } else { seq![a@, b@, c@] }));
    v
}

fn key_name(commune: &str, name: &str) -> (s: String)
    ensures
        s@ == "openwallet:"@ + commune@ + ":"@ + name@,
{
    let mut s = String::new();
    push_str(&mut s, "openwallet:");
    push_str(&mut s, commune);
    push_str(&mut s, ":");
    push_str(&mut s, name);
    proof {
        reveal_strlit("openwallet:");
        reveal_strlit(":");
        reveal_strlit("");
    }
    s
}

impl IdentityManager {
    /// Every colophon, in the order registered.
    pub closed spec fn colophon_seq(self) -> Seq<Colophon> {
        self.colophons@
    }

    /// The key log.
    pub closed spec fn log(self) -> Seq<KeyEntryView> {
        entry_views(self.key_log@)
    }

    /// No colophons and an empty log.
    pub fn new() -> (m: Self)
        ensures
            m.colophon_seq() == Seq::<Colophon>::empty(),
            m.log() == Seq::<KeyEntryView>::empty(),
    {
        let m = IdentityManager { colophons: Vec::new(), key_log: Vec::new() };
        assert(entry_views(m.key_log@) =~= Seq::<KeyEntryView>::empty());
        m
    }

    /// A manager holding the four colophons of the standard workshop of a
    /// commune, each with its key provisioned at `timestamp`.
    pub fn with_standard_workshop(commune: &str, timestamp: &str) -> (m: Self)
        ensures
            colophon_views(m.colophon_seq()) == standard_workshop(commune@, timestamp@),
            m.log() == seq![
                provisioned("openwallet:"@ + commune@ + ":"@ + "orozco"@, timestamp@),
                provisioned("openwallet:"@ + commune@ + ":"@ + "brenner"@, timestamp@),
                provisioned("openwallet:"@ + commune@ + ":"@ + "sato"@, timestamp@),
                provisioned("openwallet:"@ + commune@ + ":"@ + "hartmann"@, timestamp@),
            ],
    {
        let mut mgr = IdentityManager::new();
        mgr.register(Colophon {
            agent_id: AgentId("orozco".to_owned()),
            commune: commune.to_owned(),
            role: WorkshopRole::Author,
            capabilities: strings("patch_generation", "refactoring", "bug_fixes", 3),
            style: "concrete, iterative, material".to_owned(),
            authorization: AgentAuthorization {
                branch_patterns: strings("chapter/*", "feat/*", "", 2),
                max_chapter_size: Some(500),
                repos: Vec::new(),
            },
            signing_key: Some(key_name(commune, "orozco")),
            first_chapter: None,
            chapters_authored: 0,
            created_at: timestamp.to_owned(),
        });
        mgr.register(Colophon {
            agent_id: AgentId("brenner".to_owned()),
            commune: commune.to_owned(),
            role: WorkshopRole::Editor,
            capabilities: strings("memory_curation", "motif_tracking", "narrative_annotation", 3),
            style: "lyrical, expansive, thematic".to_owned(),
            authorization: AgentAuthorization {
                branch_patterns: strings("refs/but-ai/story/*", "", "", 1),
                max_chapter_size: None,
                repos: Vec::new(),
            },
            signing_key: Some(key_name(commune, "brenner")),
            first_chapter: None,
            chapters_authored: 0,
            created_at: timestamp.to_owned(),
        });
        mgr.register(Colophon {
            agent_id: AgentId("sato".to_owned()),
            commune: commune.to_owned(),
            role: WorkshopRole::ContinuityChecker,
            capabilities: strings("consistency_validation", "convention_tracking", "", 2),
            style: "precise, factual, brief".to_owned(),
            authorization: AgentAuthorization {
                branch_patterns: strings("", "", "", 0),
                max_chapter_size: None,
                repos: Vec::new(),
            },
            signing_key: Some(key_name(commune, "sato")),
            first_chapter: None,
            chapters_authored: 0,
            created_at: timestamp.to_owned(),
        });
        mgr.register(Colophon {
            agent_id: AgentId("hartmann".to_owned()),
            commune: commune.to_owned(),
            role: WorkshopRole::Publisher,
            capabilities: strings("cross_repo_coordination", "correspondence", "translation", 3),
            style: "bilingual, precise, timing-aware".to_owned(),
            authorization: AgentAuthorization {
                branch_patterns: strings("", "", "", 0),
                max_chapter_size: None,
                repos: Vec::new(),
            },
            signing_key: Some(key_name(commune, "hartmann")),
            first_chapter: None,
            chapters_authored: 0,
            created_at: timestamp.to_owned(),
        });
        proof {
            assert(views(Seq::<String>::empty()) =~= Seq::<Seq<char>>::empty());
            assert(colophon_views(mgr.colophon_seq()) =~= standard_workshop(commune@, timestamp@));
        }
        mgr
    }

    /// Add a colophon; its signing key, if any, is logged as provisioned at
    /// the colophon's creation time.
    pub fn register(&mut self, colophon: Colophon)
        ensures
            final(self).colophon_seq() == old(self).colophon_seq().push(colophon),
            final(self).log() == log_after_register(old(self).log(), colophon_view(colophon)),
    {
        match &colophon.signing_key {
            Some(key) => {
                let ghost before = self.key_log@;
                self.key_log.push(KeyLifecycleEntry {
                    event: KeyEvent::Provisioned,
                    key_id: key.clone(),
                    timestamp: colophon.created_at.clone(),
                    succeeded_by: None,
                    forgery_detected_at: None,
                });
                assert(entry_views(self.key_log@) =~= entry_views(before).push(provisioned(key@, colophon.created_at@)));
            },
            None => {},
        }
        self.colophons.push(colophon);
    }

    fn position(&self, agent_id: &AgentId) -> (r: Option<usize>)
        ensures
            match r {
                Some(i) => first_colophon(self.colophons@, agent_id@, i as int),
                None => no_colophon(self.colophons@, agent_id@),
            },
    {
        let mut i: usize = 0;
        while i < self.colophons.len()
            invariant
                i <= self.colophons@.len(),
                forall|j: int| 0 <= j < i ==> (#[trigger] self.colophons@[j]).agent_id@ != agent_id@,
            decreases self.colophons@.len() - i,
        {
            if str_eq(self.colophons[i].agent_id.0.as_str(), agent_id.0.as_str()) {
                return Some(i);
            }
            i = i + 1;
        }
        None
    }

    /// The first colophon of the agent.
    pub fn get_colophon(&self, agent_id: &AgentId) -> (r: Option<&Colophon>)
        ensures
            match r {
                Some(c) => exists|i: int| first_colophon(self.colophon_seq(), agent_id@, i) && *c == self.colophon_seq()[i],
                None => no_colophon(self.colophon_seq(), agent_id@),
            },
    {
        match self.position(agent_id) {
            Some(i) => {
                assert(first_colophon(self.colophon_seq(), agent_id@, i as int));
                Some(&self.colophons[i])
            },
            None => None,
        }
    }

    /// The first colophon of the agent, to change in place; the other
    /// colophons and the key log stay.
    pub fn get_colophon_mut(&mut self, agent_id: &AgentId) -> (r: Option<&mut Colophon>)
        ensures
            match r {
                Some(c) => exists|i: int| {
                    &&& first_colophon(old(self).colophon_seq(), agent_id@, i)
                    &&& *c == old(self).colophon_seq()[i]
                    &&& final(self).colophon_seq() == old(self).colophon_seq().update(i, *final(c))
                },
                None => no_colophon(old(self).colophon_seq(), agent_id@) && final(self).colophon_seq() == old(self).colophon_seq(),
            },
            final(self).log() == old(self).log(),
    {
        match self.position(agent_id) {
            Some(i) => {
                assert(first_colophon(self.colophon_seq(), agent_id@, i as int));
                Some(&mut self.colophons[i])
            },
            None => None,
        }
    }

    /// Whether one of the agent's branch patterns matches the branch; false
    /// for an unknown agent.
    pub fn is_authorized_for_branch(&self, agent_id: &AgentId, branch: &str) -> (r: bool)
        ensures
            r == exists|i: int| first_colophon(self.colophon_seq(), agent_id@, i)
                && exists|k: int| 0 <= k < self.colophon_seq()[i].authorization.branch_patterns@.len()
                    && branch_matches(#[trigger] self.colophon_seq()[i].authorization.branch_patterns@[k]@, branch@),
    {
        match self.position(agent_id) {
            None => false,
            Some(i) => {
                let pats = &self.colophons[i].authorization.branch_patterns;
                let mut k: usize = 0;
                while k < pats.len()
                    invariant
                        k <= pats@.len(),
                        first_colophon(self.colophons@, agent_id@, i as int),
                        pats == &self.colophons@[i as int].authorization.branch_patterns,
                        forall|j: int| 0 <= j < k ==> !branch_matches(#[trigger] pats@[j]@, branch@),
                    decreases pats@.len() - k,
                {
                    if branch_match(pats[k].as_str(), branch) {
                        assert(first_colophon(self.colophon_seq(), agent_id@, i as int));
                        assert(branch_matches(self.colophon_seq()[i as int].authorization.branch_patterns@[k as int]@, branch@));
                        return true;
                    }
                    k = k + 1;
                }
                proof {
                    assert forall|i2: int| #[trigger] first_colophon(self.colophons@, agent_id@, i2) implies i2 == i as int by {
                        if i2 < i { assert(self.colophons@[i2].agent_id@ != agent_id@); }
                        if i2 > i { assert(self.colophons@[i as int].agent_id@ != agent_id@); }
                    }
                }
                false
            },
        }
    }

    /// Count a chapter for the agent's first colophon, recording it as the
    /// first chapter when none is recorded; nothing happens for an unknown agent.
    pub fn record_chapter_authored(&mut self, agent_id: &AgentId, chapter_number: u64)
        requires
            forall|i: int| first_colophon(old(self).colophon_seq(), agent_id@, i) ==> old(self).colophon_seq()[i].chapters_authored < u64::MAX,
        ensures
            final(self).log() == old(self).log(),
            no_colophon(old(self).colophon_seq(), agent_id@) ==> final(self).colophon_seq() == old(self).colophon_seq(),
            forall|i: int| #[trigger] first_colophon(old(self).colophon_seq(), agent_id@, i) ==> {
                let c = old(self).colophon_seq()[i];
                final(self).colophon_seq() == old(self).colophon_seq().update(i, Colophon {
                    chapters_authored: (c.chapters_authored + 1) as u64,
                    first_chapter: if c.first_chapter is None { Some(chapter_number) } else { c.first_chapter },
                    ..c
                })
            },
    {
        match self.position(agent_id) {
            None => {},
            Some(i) => {
                let mut colophons: Vec<Colophon> = Vec::new();
                std::mem::swap(&mut colophons, &mut self.colophons);
                let ghost before = colophons@;
                let mut c = colophons.remove(i);
                c.chapters_authored = c.chapters_authored + 1;
                if c.first_chapter.is_none() {
                    c.first_chapter = Some(chapter_number);
                }
                colophons.insert(i, c);
                self.colophons = colophons;
                proof {
                    assert forall|i2: int| #[trigger] first_colophon(before, agent_id@, i2) implies i2 == i as int by {
                        if i2 < i { assert(before[i2].agent_id@ != agent_id@); }
                        if i2 > i { assert(before[i as int].agent_id@ != agent_id@); }
                    }
                    let c0 = before[i as int];
                    assert(self.colophons@ =~= before.update(i as int, Colophon {
                        chapters_authored: (c0.chapters_authored + 1) as u64,
                        first_chapter: if c0.first_chapter is None { Some(chapter_number) } else { c0.first_chapter },
                        ..c0
                    }));
                }
            },
        }
    }

    /// Replace the agent's key: the old key, if any, is logged as rotated
    /// (succeeded by the new one), then the new key as provisioned.
    pub fn rotate_key(&mut self, agent_id: &AgentId, new_key: &str, timestamp: &str) -> (r: Result<(), IdentityError>)
        ensures
            r is Err <==> no_colophon(old(self).colophon_seq(), agent_id@),
            r matches Err(IdentityError::AgentNotFound { agent }) ==> agent@ == agent_id@ && *final(self) == *old(self),
            forall|i: int| #[trigger] first_colophon(old(self).colophon_seq(), agent_id@, i) ==> {
                let c = old(self).colophon_seq()[i];
                &&& final(self).colophon_seq() =~= old(self).colophon_seq().update(i, Colophon { signing_key: final(self).colophon_seq()[i].signing_key, ..c })
                &&& ov(final(self).colophon_seq()[i].signing_key) == Some(new_key@)
                &&& final(self).log() == (match c.signing_key {
                    Some(k) => old(self).log().push(KeyEntryView {
                        event: KeyEvent::Rotated,
                        key_id: k@,
                        timestamp: timestamp@,
                        succeeded_by: Some(new_key@),
                        forgery_detected_at: None,
                    }),
                    None => old(self).log(),
                }).push(provisioned(new_key@, timestamp@))
            },
    {
        let i = match self.position(agent_id) {
            Some(i) => i,
            None => {
                return Err(IdentityError::AgentNotFound { agent: agent_id.clone() });
            },
        };
        let ghost log0 = entry_views(self.key_log@);
        let mut colophons: Vec<Colophon> = Vec::new();
        std::mem::swap(&mut colophons, &mut self.colophons);
        let ghost before = colophons@;
        let mut c = colophons.remove(i);
        let old_key = c.signing_key.take();
        match &old_key {
            Some(old) => {
                let ghost kb = self.key_log@;
                self.key_log.push(KeyLifecycleEntry {
                    event: KeyEvent::Rotated,
                    key_id: old.clone(),
                    timestamp: timestamp.to_owned(),
                    succeeded_by: Some(new_key.to_owned()),
                    forgery_detected_at: None,
                });
                assert(entry_views(self.key_log@) =~= entry_views(kb).push(KeyEntryView {
                    event: KeyEvent::Rotated,
                    key_id: old@,
                    timestamp: timestamp@,
                    succeeded_by: Some(new_key@),
                    forgery_detected_at: None,
                }));
            },
            None => {},
        }
        c.signing_key = Some(new_key.to_owned());
        colophons.insert(i, c);
        self.colophons = colophons;
        let ghost kb2 = self.key_log@;
        self.key_log.push(KeyLifecycleEntry {
            event: KeyEvent::Provisioned,
            key_id: new_key.to_owned(),
            timestamp: timestamp.to_owned(),
            succeeded_by: None,
            forgery_detected_at: None,
        });
        assert(entry_views(self.key_log@) =~= entry_views(kb2).push(provisioned(new_key@, timestamp@)));
        proof {
            assert forall|i2: int| #[trigger] first_colophon(before, agent_id@, i2) implies i2 == i as int by {
                if i2 < i { assert(before[i2].agent_id@ != agent_id@); }
                if i2 > i { assert(before[i as int].agent_id@ != agent_id@); }
            }
        }
        Ok(())
    }

    /// Report the agent's key compromised: the key, if any, is logged as
    /// compromised, and the agent loses its key and every branch and repository.
    pub fn report_compromise(&mut self, agent_id: &AgentId, timestamp: &str) -> (r: Result<(), IdentityError>)
        ensures
            r is Err <==> no_colophon(old(self).colophon_seq(), agent_id@),
            r matches Err(IdentityError::AgentNotFound { agent }) ==> agent@ == agent_id@ && *final(self) == *old(self),
            forall|i: int| #[trigger] first_colophon(old(self).colophon_seq(), agent_id@, i) ==> {
                let c = old(self).colophon_seq()[i];
                &&& final(self).colophon_seq().len() == old(self).colophon_seq().len()
                &&& forall|j: int| 0 <= j < old(self).colophon_seq().len() && j != i ==> final(self).colophon_seq()[j] == old(self).colophon_seq()[j]
                &&& colophon_view(final(self).colophon_seq()[i]) == (ColophonView {
                    signing_key: None,
                    branch_patterns: Seq::empty(),
                    repos: Seq::empty(),
                    ..colophon_view(c)
                })
                &&& final(self).log() == (match c.signing_key {
                    Some(k) => old(self).log().push(KeyEntryView {
                        event: KeyEvent::Compromised,
                        key_id: k@,
                        timestamp: timestamp@,
                        succeeded_by: None,
                        forgery_detected_at: Some(timestamp@),
                    }),
                    None => old(self).log(),
                })
            },
    {
        let i = match self.position(agent_id) {
            Some(i) => i,
            None => {
                return Err(IdentityError::AgentNotFound { agent: agent_id.clone() });
            },
        };
        let mut colophons: Vec<Colophon> = Vec::new();
        std::mem::swap(&mut colophons, &mut self.colophons);
        let ghost before = colophons@;
        let mut c = colophons.remove(i);
        match &c.signing_key {
            Some(key) => {
                let ghost kb = self.key_log@;
                self.key_log.push(KeyLifecycleEntry {
                    event: KeyEvent::Compromised,
                    key_id: key.clone(),
                    timestamp: timestamp.to_owned(),
                    succeeded_by: None,
                    forgery_detected_at: Some(timestamp.to_owned()),
                });
                assert(entry_views(self.key_log@) =~= entry_views(kb).push(KeyEntryView {
                    event: KeyEvent::Compromised,
                    key_id: key@,
                    timestamp: timestamp@,
                    succeeded_by: None,
                    forgery_detected_at: Some(timestamp@),
                }));
            },
            None => {},
        }
        c.signing_key = None;
        c.authorization.branch_patterns = Vec::new();
        c.authorization.repos = Vec::new();
        colophons.insert(i, c);
        self.colophons = colophons;
        proof {
            assert forall|i2: int| #[trigger] first_colophon(before, agent_id@, i2) implies i2 == i as int by {
                if i2 < i { assert(before[i2].agent_id@ != agent_id@); }
                if i2 > i { assert(before[i as int].agent_id@ != agent_id@); }
            }
            assert(views(Seq::<String>::empty()) =~= Seq::<Seq<char>>::empty());
            assert forall|j: int| 0 <= j < before.len() && j != i implies self.colophons@[j] == before[j] by {}
            assert(colophon_view(self.colophons@[i as int]) =~= (ColophonView {
                signing_key: None,
                branch_patterns: Seq::empty(),
                repos: Seq::empty(),
                ..colophon_view(before[i as int])
            }));
        }
        Ok(())
    }

    /// The key log.
    pub fn key_log(&self) -> (r: &[KeyLifecycleEntry])
        ensures
            entry_views(r@) == self.log(),
    {
        self.key_log.as_slice()
    }

    /// Every colophon, in the order registered.
    pub fn all_agents(&self) -> (r: &[Colophon])
        ensures
            r@ == self.colophon_seq(),
    {
        self.colophons.as_slice()
    }

    /// The colophons with the role, in the order registered.
    pub fn agents_by_role(&self, role: WorkshopRole) -> (r: Vec<&Colophon>)
        ensures
            r@.map_values(|c: &Colophon| *c) == self.colophon_seq().filter(|c: Colophon| c.role == role),
    {
        let ghost g = self.colophons@;
        let ghost p = |c: Colophon| c.role == role;
        let mut out: Vec<&Colophon> = Vec::new();
        let mut i: usize = 0;
        while i < self.colophons.len()
            invariant
                g == self.colophons@,
                i <= g.len(),
                p == (|c: Colophon| c.role == role),
                out@.map_values(|c: &Colophon| *c) == g.take(i as int).filter(p),
            decreases g.len() - i,
        {
            proof {
                assert(g.take(i + 1).drop_last() =~= g.take(i as int));
                reveal_with_fuel(Seq::filter, 1);
            }
            let ghost before = out@;
            if self.colophons[i].role == role {
                out.push(&self.colophons[i]);
                assert(out@.map_values(|c: &Colophon| *c) =~= before.map_values(|c: &Colophon| *c).push(g[i as int]));
            } else {
                assert(out@.map_values(|c: &Colophon| *c) =~= before.map_values(|c: &Colophon| *c));
            }
            i = i + 1;
        }
        assert(g.take(g.len() as int) =~= g);
        out
    }
}

} // verus!
