//! The research centre: the life records of its agents, their roles and
//! what they may touch.

use vstd::prelude::*;
use crate::ids::AgentId;
use crate::identity::authorization::{glob_matches, matches_glob};
use crate::text::{push_str, str_eq, views};

verus! {

/// The part an agent plays in the research group.
#[derive(Debug, Clone, Copy, PartialEq, Eq, Structural)]
pub enum AgentRole {
    PrincipalInvestigator,
    Practitioner,
    ResearchFellow,
    DataCurator,
    ResearchAssistant,
}

/// What an agent may write.
#[derive(Debug, PartialEq, Eq)]
pub struct Authorization {
    pub branch_patterns: Vec<String>,
    pub max_patch_lines: Option<u32>,
    pub repos: Vec<String>,
}

/// The count of tasks an agent has completed.
#[derive(Debug, Clone, Copy, PartialEq, Eq, Structural)]
pub struct PerformanceHistory {
    pub tasks_completed: u64,
}

/// An agent's life record.
#[derive(Debug, PartialEq, Eq)]
pub struct LifeRecord {
    pub agent_id: AgentId,
    pub institution: String,
    pub role: AgentRole,
    pub specialty: String,
    pub capabilities: Vec<String>,
    pub authorization: Authorization,
    pub signing_key: Option<String>,
    pub created_at: String,
    pub performance_history: PerformanceHistory,
}

/// The plain content of a life record.
pub struct RecordView {
    pub agent_id: Seq<char>,
    pub institution: Seq<char>,
    pub role: AgentRole,
    pub specialty: Seq<char>,
    pub capabilities: Seq<Seq<char>>,
    pub branch_patterns: Seq<Seq<char>>,
    pub max_patch_lines: Option<u32>,
    pub repos: Seq<Seq<char>>,
    pub signing_key: Option<Seq<char>>,
    pub created_at: Seq<char>,
    pub tasks_completed: u64,
}

/// The view of a life record.
pub open spec fn record_view(r: LifeRecord) -> RecordView {
    RecordView {
        agent_id: r.agent_id@,
        institution: r.institution@,
        role: r.role,
        specialty: r.specialty@,
        capabilities: views(r.capabilities@),
        branch_patterns: views(r.authorization.branch_patterns@),
        max_patch_lines: r.authorization.max_patch_lines,
        repos: views(r.authorization.repos@),
        signing_key: match r.signing_key { Some(k) => Some(k@), None => None },
        created_at: r.created_at@,
        tasks_completed: r.performance_history.tasks_completed,
    }
}

/// A member of the centre as first recorded.
pub open spec fn record(
    name: Seq<char>,
    role: AgentRole,
    specialty: Seq<char>,
    capabilities: Seq<Seq<char>>,
    patterns: Seq<Seq<char>>,
    max_patch_lines: Option<u32>,
) -> RecordView {
    RecordView {
        agent_id: name,
        institution: "093-lrrc"@,
        role,
        specialty,
        capabilities,
        branch_patterns: patterns,
        max_patch_lines,
        repos: seq!["*"@],
        signing_key: Some("openwallet:093-lrrc:"@ + name),
        created_at: "2026-03-01T00:00:00Z"@,
        tasks_completed: 0,
    }
}

/// The five members of the centre.
pub open spec fn lrrc_members() -> Seq<RecordView> {
    seq![
        record("vassiliev"@, AgentRole::PrincipalInvestigator, "Bayesian survival modeling and system design"@,
            seq!["study_design"@, "statistical_review"@, "architecture"@],
            seq!["*"@], None),
        record("okonkwo"@, AgentRole::Practitioner, "Actuarial translation and practical validation"@,
            seq!["validation"@, "practitioner_review"@, "risk_assessment"@],
            seq!["study/*"@], None),
        record("petrov"@, AgentRole::ResearchFellow, "Code implementation and patch production"@,
            seq!["patch_generation"@, "numerical_computation"@, "testing"@],
            seq!["study/*"@, "feat/*"@], Some(800u32)),
        record("abebe"@, AgentRole::DataCurator, "Survival function estimation for memory entries"@,
            seq!["distribution_fitting"@, "memory_management"@, "cohort_analysis"@],
            seq!["refs/but-ai/actuarial/*"@], None),
        record("chen"@, AgentRole::ResearchAssistant, "Cross-repo coordination and PR management"@,
            seq!["coordination"@, "status_reporting"@, "dependency_tracking"@],
            Seq::empty(), None),
    ]
}

/// Position `i` holds the first record of the agent.
pub open spec fn first_record(s: Seq<LifeRecord>, agent: Seq<char>, i: int) -> bool {
    &&& 0 <= i < s.len()
    &&& s[i].agent_id@ == agent
    &&& forall|j: int| 0 <= j < i ==> (#[trigger] s[j]).agent_id@ != agent
}

/// No record is the agent's.
pub open spec fn no_record(s: Seq<LifeRecord>, agent: Seq<char>) -> bool {
    forall|j: int| 0 <= j < s.len() ==> (#[trigger] s[j]).agent_id@ != agent
}

fn strings(a: &str, b: &str, c: &str, n: usize) -> (v: Vec<String>)
    requires
        n <= 3,
    ensures
        views(v@) == (if n == 0 { Seq::<Seq<char>>::empty() } else if n == 1 { seq![a@] } else if n == 2 { seq![a@, b@] } else { seq![a@, b@, c@] }),
{
    let mut v: Vec<String> = Vec::new();
    if n >= 1 { v.push(a.to_owned()); }
    if n >= 2 { v.push(b.to_owned()); }
    if n >= 3 { v.push(c.to_owned()); }
    assert(views(v@) =~= (if n == 0 { Seq::<Seq<char>>::empty() } else if n == 1 { seq![a@] } else if n == 2 { seq![a@, b@] } else { seq![a@, b@, c@] }));
    v
}

/// The agents of a research centre.
pub struct ResearchCentre {
    agents: Vec<LifeRecord>,
    institution: String,
}

impl ResearchCentre {
    /// The records, in the order registered.
    pub closed spec fn records(self) -> Seq<LifeRecord> {
        self.agents@
    }

    /// The institution.
    pub closed spec fn institution_view(self) -> Seq<char> {
        self.institution@
    }

    /// The Longevity & Risk Research Centre and its five members.
    pub fn lrrc() -> (c: Self)
        ensures
            c.records().map_values(|r: LifeRecord| record_view(r)) == lrrc_members(),
            c.institution_view() == "093-lrrc"@,
    {
        let mut agents: Vec<LifeRecord> = Vec::new();
    agents.push(LifeRecord {
        agent_id: AgentId("vassiliev".to_owned()),
        institution: "093-lrrc".to_owned(),
        role: AgentRole::PrincipalInvestigator,
        specialty: "Bayesian survival modeling and system design".to_owned(),
        capabilities: strings("study_design", "statistical_review", "architecture", 3),
        authorization: Authorization {
            branch_patterns: strings("*", "", "", 1),
            max_patch_lines: None,
            repos: strings("*", "", "", 1),
        },
        signing_key: Some("openwallet:093-lrrc:vassiliev".to_owned()),
        created_at: "2026-03-01T00:00:00Z".to_owned(),
        performance_history: PerformanceHistory { tasks_completed: 0 },
    });
    agents.push(LifeRecord {
        agent_id: AgentId("okonkwo".to_owned()),
        institution: "093-lrrc".to_owned(),
        role: AgentRole::Practitioner,
        specialty: "Actuarial translation and practical validation".to_owned(),
        capabilities: strings("validation", "practitioner_review", "risk_assessment", 3),
        authorization: Authorization {
            branch_patterns: strings("study/*", "", "", 1),
            max_patch_lines: None,
            repos: strings("*", "", "", 1),
        },
        signing_key: Some("openwallet:093-lrrc:okonkwo".to_owned()),
        created_at: "2026-03-01T00:00:00Z".to_owned(),
        performance_history: PerformanceHistory { tasks_completed: 0 },
    });
    agents.push(LifeRecord {
        agent_id: AgentId("petrov".to_owned()),
        institution: "093-lrrc".to_owned(),
        role: AgentRole::ResearchFellow,
        specialty: "Code implementation and patch production".to_owned(),
        capabilities: strings("patch_generation", "numerical_computation", "testing", 3),
        authorization: Authorization {
            branch_patterns: strings("study/*", "feat/*", "", 2),
            max_patch_lines: Some(800),
            repos: strings("*", "", "", 1),
        },
        signing_key: Some("openwallet:093-lrrc:petrov".to_owned()),
        created_at: "2026-03-01T00:00:00Z".to_owned(),
        performance_history: PerformanceHistory { tasks_completed: 0 },
    });
    agents.push(LifeRecord {
        agent_id: AgentId("abebe".to_owned()),
        institution: "093-lrrc".to_owned(),
        role: AgentRole::DataCurator,
        specialty: "Survival function estimation for memory entries".to_owned(),
        capabilities: strings("distribution_fitting", "memory_management", "cohort_analysis", 3),
        authorization: Authorization {
            branch_patterns: strings("refs/but-ai/actuarial/*", "", "", 1),
            max_patch_lines: None,
            repos: strings("*", "", "", 1),
        },
        signing_key: Some("openwallet:093-lrrc:abebe".to_owned()),
        created_at: "2026-03-01T00:00:00Z".to_owned(),
        performance_history: PerformanceHistory { tasks_completed: 0 },
    });
    agents.push(LifeRecord {
        agent_id: AgentId("chen".to_owned()),
        institution: "093-lrrc".to_owned(),
        role: AgentRole::ResearchAssistant,
        specialty: "Cross-repo coordination and PR management".to_owned(),
        capabilities: strings("coordination", "status_reporting", "dependency_tracking", 3),
        authorization: Authorization {
            branch_patterns: strings("", "", "", 0),
            max_patch_lines: None,
            repos: strings("*", "", "", 1),
        },
        signing_key: Some("openwallet:093-lrrc:chen".to_owned()),
        created_at: "2026-03-01T00:00:00Z".to_owned(),
        performance_history: PerformanceHistory { tasks_completed: 0 },
    });
        proof {
            reveal_strlit("openwallet:093-lrrc:");
            reveal_strlit("openwallet:093-lrrc:vassiliev");
            reveal_strlit("openwallet:093-lrrc:okonkwo");
            reveal_strlit("openwallet:093-lrrc:petrov");
            reveal_strlit("openwallet:093-lrrc:abebe");
            reveal_strlit("openwallet:093-lrrc:chen");
            reveal_strlit("vassiliev");
            reveal_strlit("okonkwo");
            reveal_strlit("petrov");
            reveal_strlit("abebe");
            reveal_strlit("chen");
            assert("openwallet:093-lrrc:vassiliev"@ =~= "openwallet:093-lrrc:"@ + "vassiliev"@);
            assert("openwallet:093-lrrc:okonkwo"@ =~= "openwallet:093-lrrc:"@ + "okonkwo"@);
            assert("openwallet:093-lrrc:petrov"@ =~= "openwallet:093-lrrc:"@ + "petrov"@);
            assert("openwallet:093-lrrc:abebe"@ =~= "openwallet:093-lrrc:"@ + "abebe"@);
            assert("openwallet:093-lrrc:chen"@ =~= "openwallet:093-lrrc:"@ + "chen"@);
            assert(agents@.map_values(|r: LifeRecord| record_view(r)) =~= lrrc_members());
        }
        ResearchCentre { agents, institution: "093-lrrc".to_owned() }
    }

    /// A centre with no agents.
    pub fn empty(institution: String) -> (c: Self)
        ensures
            c.records() == Seq::<LifeRecord>::empty(),
            c.institution_view() == institution@,
    {
        ResearchCentre { agents: Vec::new(), institution }
    }

    fn position(&self, id: &AgentId) -> (r: Option<usize>)
        ensures
            match r {
                Some(i) => first_record(self.agents@, id@, i as int),
                None => no_record(self.agents@, id@),
            },
    {
        let mut i: usize = 0;
        while i < self.agents.len()
            invariant
                i <= self.agents@.len(),
                forall|j: int| 0 <= j < i ==> (#[trigger] self.agents@[j]).agent_id@ != id@,
            decreases self.agents@.len() - i,
        {
            if str_eq(self.agents[i].agent_id.0.as_str(), id.0.as_str()) {
                return Some(i);
            }
            i = i + 1;
        }
        None
    }

    /// The first record of the agent.
    pub fn get_agent(&self, id: &AgentId) -> (r: Option<&LifeRecord>)
        ensures
            match r {
                Some(a) => exists|i: int| first_record(self.records(), id@, i) && *a == self.records()[i],
                None => no_record(self.records(), id@),
            },
    {
        match self.position(id) {
            Some(i) => {
                assert(first_record(self.records(), id@, i as int));
                Some(&self.agents[i])
            },
            None => None,
        }
    }

    /// The first record of the agent, to change in place; the other records
    /// stay.
    pub fn get_agent_mut(&mut self, id: &AgentId) -> (r: Option<&mut LifeRecord>)
        ensures
            match r {
                Some(a) => exists|i: int| {
                    &&& first_record(old(self).records(), id@, i)
                    &&& *a == old(self).records()[i]
                    &&& final(self).records() == old(self).records().update(i, *final(a))
                },
                None => no_record(old(self).records(), id@) && final(self).records() == old(self).records(),
            },
            final(self).institution_view() == old(self).institution_view(),
    {
        match self.position(id) {
            Some(i) => {
                assert(first_record(self.records(), id@, i as int));
                Some(&mut self.agents[i])
            },
            None => None,
        }
    }

    /// The records with the role, in the order registered.
    pub fn agents_by_role(&self, role: AgentRole) -> (r: Vec<&LifeRecord>)
        ensures
            r@.map_values(|a: &LifeRecord| *a) == self.records().filter(|a: LifeRecord| a.role == role),
    {
        let ghost g = self.agents@;
        let ghost p = |a: LifeRecord| a.role == role;
        let mut out: Vec<&LifeRecord> = Vec::new();
        let mut i: usize = 0;
        while i < self.agents.len()
            invariant
                g == self.agents@,
                i <= g.len(),
                p == (|a: LifeRecord| a.role == role),
                out@.map_values(|a: &LifeRecord| *a) == g.take(i as int).filter(p),
            decreases g.len() - i,
        {
            proof {
                assert(g.take(i + 1).drop_last() =~= g.take(i as int));
                reveal_with_fuel(Seq::filter, 1);
            }
            let ghost before = out@;
            if self.agents[i].role == role {
                out.push(&self.agents[i]);
                assert(out@.map_values(|a: &LifeRecord| *a) =~= before.map_values(|a: &LifeRecord| *a).push(g[i as int]));
            } else {
                assert(out@.map_values(|a: &LifeRecord| *a) =~= before.map_values(|a: &LifeRecord| *a));
            }
            i = i + 1;
        }
        assert(g.take(g.len() as int) =~= g);
        out
    }

    /// The institution.
    pub fn institution(&self) -> (s: &str)
        ensures
            s@ == self.institution_view(),
    {
        self.institution.as_str()
    }

    /// Add a record.
    pub fn register(&mut self, agent: LifeRecord)
        ensures
            final(self).records() == old(self).records().push(agent),
            final(self).institution_view() == old(self).institution_view(),
    {
        self.agents.push(agent);
    }

    /// Whether one of the agent's branch patterns matches the branch (`*`
    /// matches any; `p*` what starts with `p`); false for an unknown agent.
    pub fn is_authorized(&self, agent_id: &AgentId, branch: &str) -> (r: bool)
        ensures
            r == exists|i: int| first_record(self.records(), agent_id@, i)
                && exists|k: int| 0 <= k < self.records()[i].authorization.branch_patterns@.len()
                    && glob_matches(#[trigger] self.records()[i].authorization.branch_patterns@[k]@, branch@),
    {
        match self.position(agent_id) {
            None => false,
            Some(i) => {
                let pats = &self.agents[i].authorization.branch_patterns;
                let mut k: usize = 0;
                while k < pats.len()
                    invariant
                        k <= pats@.len(),
                        first_record(self.agents@, agent_id@, i as int),
                        pats == &self.agents@[i as int].authorization.branch_patterns,
                        forall|j: int| 0 <= j < k ==> !glob_matches(#[trigger] pats@[j]@, branch@),
                    decreases pats@.len() - k,
                {
                    if matches_glob(pats[k].as_str(), branch) {
                        assert(first_record(self.records(), agent_id@, i as int));
                        assert(glob_matches(self.records()[i as int].authorization.branch_patterns@[k as int]@, branch@));
                        return true;
                    }
                    k = k + 1;
                }
                proof {
                    assert forall|i2: int| #[trigger] first_record(self.agents@, agent_id@, i2) implies i2 == i as int by {
                        if i2 < i { assert(self.agents@[i2].agent_id@ != agent_id@); }
                        if i2 > i { assert(self.agents@[i as int].agent_id@ != agent_id@); }
                    }
                }
                false
            },
        }
    }

    /// Whether a patch of that size is within the agent's limit (any size
    /// when there is none); false for an unknown agent.
    pub fn is_within_patch_limit(&self, agent_id: &AgentId, patch_lines: u32) -> (r: bool)
        ensures
            r == exists|i: int| first_record(self.records(), agent_id@, i) && match self.records()[i].authorization.max_patch_lines {
                Some(max) => patch_lines <= max,
                None => true,
            },
    {
        match self.position(agent_id) {
            None => false,
            Some(i) => {
                assert(first_record(self.records(), agent_id@, i as int));
                proof {
                    assert forall|i2: int| #[trigger] first_record(self.agents@, agent_id@, i2) implies i2 == i as int by {
                        if i2 < i { assert(self.agents@[i2].agent_id@ != agent_id@); }
                        if i2 > i { assert(self.agents@[i as int].agent_id@ != agent_id@); }
                    }
                }
                match self.agents[i].authorization.max_patch_lines {
                    Some(max) => patch_lines <= max,
                    None => true,
                }
            },
        }
    }

    /// Every record, in the order registered.
    pub fn all_agents(&self) -> (r: &[LifeRecord])
        ensures
            r@ == self.records(),
    {
        self.agents.as_slice()
    }
}

/// `study/<id>/<phase>`, with `.<dependency>` when there is one.
pub fn study_branch_name(study_id: &str, phase: &str, dependency: Option<&str>) -> (s: String)
    ensures
        s@ == "study/"@ + study_id@ + "/"@ + phase@ + match dependency {
            Some(d) => "."@ + d@,
            None => Seq::empty(),
        },
{
    proof {
        reveal_strlit("study/");
        reveal_strlit("/");
        reveal_strlit(".");
        reveal_strlit("");
    }
    let mut s = String::new();
    push_str(&mut s, "study/");
    push_str(&mut s, study_id);
    push_str(&mut s, "/");
    push_str(&mut s, phase);
    match dependency {
        Some(d) => {
            push_str(&mut s, ".");
            push_str(&mut s, d);
        },
        None => {},
    }
    s
}

/// `openwallet:<institution>:<agent>`.
pub fn signing_key_ref(institution: &str, agent_id: &str) -> (s: String)
    ensures
        s@ == "openwallet:"@ + institution@ + ":"@ + agent_id@,
{
    proof {
        reveal_strlit("openwallet:");
        reveal_strlit(":");
        reveal_strlit("");
    }
    let mut s = String::new();
    push_str(&mut s, "openwallet:");
    push_str(&mut s, institution);
    push_str(&mut s, ":");
    push_str(&mut s, agent_id);
    s
}

} // verus!
