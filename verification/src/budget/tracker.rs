//! Token budget tracking per agent, with graceful degradation when less
//! than a tenth of the budget remains.

use vstd::prelude::*;
use crate::ids::AgentId;
use crate::strmap::StrMap;
use crate::text::{dec, dec_string, push_str, views};

verus! {

/// Tokens consumed, split by direction.
#[derive(Debug, Clone, Copy, PartialEq, Eq, Structural)]
pub struct TokenUsage {
    pub input: u64,
    pub output: u64,
}

impl TokenUsage {
    /// No tokens.
    pub fn zero() -> (u: Self)
        ensures
            u.input == 0 && u.output == 0,
    {
        TokenUsage { input: 0, output: 0 }
    }

    /// Input and output together.
    pub fn total(&self) -> (t: u64)
        requires
            self.input + self.output <= u64::MAX,
        ensures
            t == self.input + self.output,
    {
        self.input + self.output
    }
}

/// A stage of an agent's execution.
#[derive(Debug, Clone, Copy, PartialEq, Eq, Structural)]
pub enum ExecutionPhase {
    Ingest,
    Recall,
    Plan,
    Execute { step: u32, total_steps: u32 },
    Generate,
    Message,
    Sign,
    Report,
    Degraded,
}

/// How a phase is written.
pub open spec fn phase_label(p: ExecutionPhase) -> Seq<char> {
    match p {
        ExecutionPhase::Ingest => "ingest"@,
        ExecutionPhase::Recall => "recall"@,
        ExecutionPhase::Plan => "plan"@,
        ExecutionPhase::Execute { step, total_steps } => "execute (step "@ + dec(step as nat) + " of "@ + dec(total_steps as nat) + ")"@,
        ExecutionPhase::Generate => "generate"@,
        ExecutionPhase::Message => "message"@,
        ExecutionPhase::Sign => "sign"@,
        ExecutionPhase::Report => "report"@,
        ExecutionPhase::Degraded => "degraded"@,
    }
}

impl ExecutionPhase {
    /// The phase as text, e.g. `execute (step 1 of 5)`.
    pub fn label(&self) -> (s: String)
        ensures
            s@ == phase_label(*self),
    {
        match self {
            ExecutionPhase::Ingest => "ingest".to_owned(),
            ExecutionPhase::Recall => "recall".to_owned(),
            ExecutionPhase::Plan => "plan".to_owned(),
            ExecutionPhase::Execute { step, total_steps } => {
                let mut s = String::new();
                push_str(&mut s, "execute (step ");
                let a = dec_string(*step as u64);
                push_str(&mut s, a.as_str());
                push_str(&mut s, " of ");
                let b = dec_string(*total_steps as u64);
                push_str(&mut s, b.as_str());
                push_str(&mut s, ")");
                proof {
                    reveal_strlit("execute (step ");
                    reveal_strlit(" of ");
                    reveal_strlit(")");
                    reveal_strlit("");
                }
                s
            },
            ExecutionPhase::Generate => "generate".to_owned(),
            ExecutionPhase::Message => "message".to_owned(),
            ExecutionPhase::Sign => "sign".to_owned(),
            ExecutionPhase::Report => "report".to_owned(),
            ExecutionPhase::Degraded => "degraded".to_owned(),
        }
    }
}

/// A note of where the budget stood when a phase began.
#[derive(Debug, PartialEq, Eq)]
pub struct BudgetCheckpoint {
    pub phase: ExecutionPhase,
    pub used: TokenUsage,
    pub remaining: u64,
    pub timestamp: String,
    pub note: String,
}

/// Tokens left: the total less what was used, never below zero.
pub open spec fn remaining_of(total: u64, used: TokenUsage) -> u64 {
    if used.input + used.output >= total { 0 } else { (total - used.input - used.output) as u64 }
}

/// Less than a tenth of the budget remains (always so for a zero budget).
pub open spec fn below_threshold(total: u64, used: TokenUsage) -> bool {
    10 * (total - (used.input + used.output)) < total || total == 0
}

/// One agent's budget.
pub struct BudgetTracker {
    agent: AgentId,
    total: u64,
    used: TokenUsage,
    phase: ExecutionPhase,
    checkpoints: Vec<BudgetCheckpoint>,
    degraded: bool,
}

/// The plain state of a tracker.
pub struct TrackerView {
    pub agent: Seq<char>,
    pub total: u64,
    pub used: TokenUsage,
    pub phase: ExecutionPhase,
    pub checkpoints: Seq<BudgetCheckpoint>,
    pub degraded: bool,
}

impl View for BudgetTracker {
    type V = TrackerView;

    closed spec fn view(&self) -> TrackerView {
        TrackerView {
            agent: self.agent@,
            total: self.total,
            used: self.used,
            phase: self.phase,
            checkpoints: self.checkpoints@,
            degraded: self.degraded,
        }
    }
}

/// A snapshot of a tracker.
#[derive(Debug, PartialEq, Eq)]
pub struct BudgetSnapshot {
    pub agent: AgentId,
    pub total: u64,
    pub used: TokenUsage,
    pub remaining: u64,
    pub phase: String,
    pub degraded: bool,
    pub checkpoint_count: usize,
}

impl BudgetTracker {
    /// A tracker with nothing used, in the ingest phase.
    pub fn new(agent: AgentId, total: u64) -> (t: Self)
        ensures
            t@ == (TrackerView {
                agent: agent@,
                total,
                used: TokenUsage { input: 0, output: 0 },
                phase: ExecutionPhase::Ingest,
                checkpoints: Seq::empty(),
                degraded: false,
            }),
    {
        let t = BudgetTracker {
            agent,
            total,
            used: TokenUsage::zero(),
            phase: ExecutionPhase::Ingest,
            checkpoints: Vec::new(),
            degraded: false,
        };
        assert(t.checkpoints@ =~= Seq::<BudgetCheckpoint>::empty());
        t
    }

    /// Record tokens used. Returns whether less than a tenth of the budget
    /// remains; the first time that happens the tracker becomes degraded and
    /// enters the degraded phase.
    pub fn record(&mut self, input_tokens: u64, output_tokens: u64) -> (r: bool)
        requires
            old(self)@.used.input + input_tokens + old(self)@.used.output + output_tokens <= u64::MAX,
        ensures
            final(self)@.used == (TokenUsage {
                input: (old(self)@.used.input + input_tokens) as u64,
                output: (old(self)@.used.output + output_tokens) as u64,
            }),
            r == below_threshold(old(self)@.total, final(self)@.used),
            final(self)@.degraded == (old(self)@.degraded || r),
            final(self)@.phase == (if r && !old(self)@.degraded { ExecutionPhase::Degraded } else { old(self)@.phase }),
            final(self)@.agent == old(self)@.agent,
            final(self)@.total == old(self)@.total,
            final(self)@.checkpoints == old(self)@.checkpoints,
    {
        self.used.input = self.used.input + input_tokens;
        self.used.output = self.used.output + output_tokens;
        let should = self.should_degrade();
        if should && !self.degraded {
            self.degraded = true;
            self.phase = ExecutionPhase::Degraded;
        }
        should
    }

    /// Enter a phase, logging a checkpoint of the budget.
    pub fn set_phase(&mut self, phase: ExecutionPhase, now: String, note: String)
        requires
            old(self)@.used.input + old(self)@.used.output <= u64::MAX,
        ensures
            final(self)@ == (TrackerView {
                phase,
                checkpoints: old(self)@.checkpoints.push(BudgetCheckpoint {
                    phase,
                    used: old(self)@.used,
                    remaining: remaining_of(old(self)@.total, old(self)@.used),
                    timestamp: now,
                    note,
                }),
                ..old(self)@
            }),
    {
        self.phase = phase;
        let remaining = self.remaining();
        self.checkpoints.push(BudgetCheckpoint { phase, used: self.used, remaining, timestamp: now, note });
    }

    /// Tokens left.
    pub fn remaining(&self) -> (r: u64)
        requires
            self@.used.input + self@.used.output <= u64::MAX,
        ensures
            r == remaining_of(self@.total, self@.used),
    {
        self.total.saturating_sub(self.used.total())
    }

    /// Whether less than a tenth of the budget remains.
    pub fn should_degrade(&self) -> (r: bool)
        requires
            self@.used.input + self@.used.output <= u64::MAX,
        ensures
            r == below_threshold(self@.total, self@.used),
    {
        if self.total == 0 {
            return true;
        }
        let used = self.used.total();
        if used >= self.total {
            return true;
        }
        let left = self.total - used;
        (left as u128) * 10 < self.total as u128
    }

    /// Whether the tracker has degraded.
    pub fn is_degraded(&self) -> (r: bool)
        ensures
            r == self@.degraded,
    {
        self.degraded
    }

    /// Tokens used.
    pub fn used(&self) -> (u: &TokenUsage)
        ensures
            *u == self@.used,
    {
        &self.used
    }

    /// The budget.
    pub fn total(&self) -> (t: u64)
        ensures
            t == self@.total,
    {
        self.total
    }

    /// The current phase.
    pub fn current_phase(&self) -> (p: &ExecutionPhase)
        ensures
            *p == self@.phase,
    {
        &self.phase
    }

    /// Every checkpoint, oldest first.
    pub fn checkpoints(&self) -> (c: &[BudgetCheckpoint])
        ensures
            c@ == self@.checkpoints,
    {
        self.checkpoints.as_slice()
    }

    /// The tracker's state at a glance.
    pub fn snapshot(&self) -> (s: BudgetSnapshot)
        requires
            self@.used.input + self@.used.output <= u64::MAX,
        ensures
            s.agent@ == self@.agent,
            s.total == self@.total,
            s.used == self@.used,
            s.remaining == remaining_of(self@.total, self@.used),
            s.phase@ == phase_label(self@.phase),
            s.degraded == self@.degraded,
            s.checkpoint_count == self@.checkpoints.len(),
    {
        BudgetSnapshot {
            agent: self.agent.clone(),
            total: self.total,
            used: self.used,
            remaining: self.remaining(),
            phase: self.phase.label(),
            degraded: self.degraded,
            checkpoint_count: self.checkpoints.len(),
        }
    }
}

/// The sum of a sequence of budgets.
pub open spec fn total_of(s: Seq<u64>) -> int
    decreases s.len(),
{
    if s.len() == 0 { 0 } else { total_of(s.drop_last()) + s.last() }
}

/// Budgets of a team, per agent.
pub struct BudgetAllocation {
    allocations: StrMap<u64>,
    team_total: u64,
}

impl BudgetAllocation {
    #[verifier::type_invariant]
    spec fn inv(self) -> bool {
        self.allocations.wf()
    }

    /// The budget of each agent.
    pub closed spec fn budgets(self) -> Map<Seq<char>, u64> {
        self.allocations.map()
    }

    /// The team's total budget.
    pub closed spec fn total_view(self) -> u64 {
        self.team_total
    }

    /// The same budget for every agent; the team total counts each listed agent.
    pub fn equal(agents: &[AgentId], per_agent: u64) -> (a: Self)
        requires
            per_agent * agents@.len() <= u64::MAX,
        ensures
            forall|k: Seq<char>| a.budgets().dom().contains(k) <==> exists|i: int| 0 <= i < agents@.len() && (#[trigger] agents@[i])@ == k,
            forall|k: Seq<char>| #[trigger] a.budgets().dom().contains(k) ==> a.budgets()[k] == per_agent,
            a.total_view() == per_agent * agents@.len(),
    {
        let mut m: StrMap<u64> = StrMap::new();
        let mut i: usize = 0;
        while i < agents.len()
            invariant
                m.wf(),
                i <= agents@.len(),
                forall|k: Seq<char>| m.map().dom().contains(k) <==> exists|j: int| 0 <= j < i && (#[trigger] agents@[j])@ == k,
                forall|k: Seq<char>| #[trigger] m.map().dom().contains(k) ==> m.map()[k] == per_agent,
            decreases agents@.len() - i,
        {
            m.insert(agents[i].0.clone(), per_agent);
            proof {
                assert forall|k: Seq<char>| m.map().dom().contains(k) implies exists|j: int| 0 <= j < i + 1 && (#[trigger] agents@[j])@ == k by {
                    if k == agents@[i as int]@ {
                    } else {
                        let j = choose|j: int| 0 <= j < i && (#[trigger] agents@[j])@ == k;
                    }
                }
            }
            i = i + 1;
        }
        proof {
            vstd::arithmetic::mul::lemma_mul_is_commutative(per_agent as int, agents@.len() as int);
        }
        let n = agents.len() as u64;
        assert(per_agent * n <= u64::MAX) by (nonlinear_arith)
            requires per_agent * agents@.len() <= u64::MAX, n == agents@.len();
        BudgetAllocation { allocations: m, team_total: per_agent * n }
    }

    /// Budgets given agent by agent (each agent at most once); the team total
    /// is their sum.
    pub fn custom(allocations: Vec<(String, u64)>) -> (a: Self)
        requires
            allocations@.map_values(|p: (String, u64)| p.0@).no_duplicates(),
            total_of(allocations@.map_values(|p: (String, u64)| p.1)) <= u64::MAX,
        ensures
            forall|k: Seq<char>| a.budgets().dom().contains(k) <==> exists|i: int| 0 <= i < allocations@.len() && (#[trigger] allocations@[i]).0@ == k,
            forall|i: int| 0 <= i < allocations@.len() ==> a.budgets()[(#[trigger] allocations@[i]).0@] == allocations@[i].1,
            a.total_view() == total_of(allocations@.map_values(|p: (String, u64)| p.1)),
    {
        let ghost names = allocations@.map_values(|p: (String, u64)| p.0@);
        let ghost amounts = allocations@.map_values(|p: (String, u64)| p.1);
        let mut m: StrMap<u64> = StrMap::new();
        let mut sum: u64 = 0;
        let mut i: usize = 0;
        while i < allocations.len()
            invariant
                m.wf(),
                i <= allocations@.len(),
                names == allocations@.map_values(|p: (String, u64)| p.0@),
                amounts == allocations@.map_values(|p: (String, u64)| p.1),
                names.no_duplicates(),
                total_of(amounts) <= u64::MAX,
                sum == total_of(amounts.take(i as int)),
                forall|k: Seq<char>| m.map().dom().contains(k) <==> exists|j: int| 0 <= j < i && (#[trigger] allocations@[j]).0@ == k,
                forall|j: int| 0 <= j < i ==> m.map()[(#[trigger] allocations@[j]).0@] == allocations@[j].1,
            decreases allocations@.len() - i,
        {
            proof {
                assert(amounts.take(i + 1).drop_last() =~= amounts.take(i as int));
                lemma_total_prefix(amounts, i as int + 1);
            }
            let (name, amount) = (&allocations[i].0, allocations[i].1);
            m.insert(name.clone(), amount);
            sum = sum + amount;
            proof {
                assert forall|k: Seq<char>| m.map().dom().contains(k) implies exists|j: int| 0 <= j < i + 1 && (#[trigger] allocations@[j]).0@ == k by {
                    if k == allocations@[i as int].0@ {
                    } else {
                        let j = choose|j: int| 0 <= j < i && (#[trigger] allocations@[j]).0@ == k;
                    }
                }
                assert forall|j: int| 0 <= j < i + 1 implies m.map()[(#[trigger] allocations@[j]).0@] == allocations@[j].1 by {
                    if j < i {
                        assert(names[j] != names[i as int]);
                    }
                }
            }
            i = i + 1;
        }
        assert(amounts.take(amounts.len() as int) =~= amounts);
        BudgetAllocation { allocations: m, team_total: sum }
    }

    /// The budget of `agent`, if allocated.
    pub fn budget_for(&self, agent: &AgentId) -> (r: Option<u64>)
        ensures
            match r {
                Some(b) => self.budgets().dom().contains(agent@) && b == self.budgets()[agent@],
                None => !self.budgets().dom().contains(agent@),
            },
    {
        proof { use_type_invariant(self); }
        match self.allocations.get(agent.0.as_str()) {
            Some(b) => Some(*b),
            None => None,
        }
    }

    /// The team's total budget.
    pub fn team_total(&self) -> (t: u64)
        ensures
            t == self.total_view(),
    {
        self.team_total
    }

    /// A fresh tracker for `agent` with its allocated budget.
    pub fn tracker_for(&self, agent: &AgentId) -> (r: Option<BudgetTracker>)
        ensures
            match r {
                Some(t) => self.budgets().dom().contains(agent@) && t@ == (TrackerView {
                    agent: agent@,
                    total: self.budgets()[agent@],
                    used: TokenUsage { input: 0, output: 0 },
                    phase: ExecutionPhase::Ingest,
                    checkpoints: Seq::empty(),
                    degraded: false,
                }),
                None => !self.budgets().dom().contains(agent@),
            },
    {
        match self.budget_for(agent) {
            Some(b) => Some(BudgetTracker::new(agent.clone(), b)),
            None => None,
        }
    }
}

/// A prefix of a sequence of budgets sums to no more than the whole.
proof fn lemma_total_prefix(s: Seq<u64>, k: int)
    requires
        0 <= k <= s.len(),
    ensures
        total_of(s.take(k)) <= total_of(s),
        0 <= total_of(s.take(k)),
    decreases s.len(),
{
    if s.len() > 0 {
        if k == s.len() {
            assert(s.take(k) =~= s);
            lemma_total_prefix(s.drop_last(), k - 1);
        } else {
            assert(s.drop_last().take(k) =~= s.take(k));
            lemma_total_prefix(s.drop_last(), k);
        }
    } else {
        assert(s.take(k) =~= s);
    }
}

} // verus!
