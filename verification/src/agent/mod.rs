//! The agent's task pipeline: phases, budget modes and the tools allowed
//! in each phase.

pub mod architect;
pub mod budget;
pub mod implementer;
pub mod orchestrator;
pub mod phase_gate;
pub mod validator;


use vstd::prelude::*;

verus! {

/// A phase of a task.
#[derive(Debug, Clone, Copy, PartialEq, Eq, Structural, Hash)]
pub enum TaskPhase {
    Classify,
    Plan,
    Implement,
    Validate,
    Catalog,
    Coordinate,
}

/// Tokens set aside for cataloguing and coordination, not available for work.
pub const RESERVED_TOKENS: u64 = 3500;

/// A task's token budget.
#[derive(Debug, Clone, Copy, PartialEq, Eq, Structural)]
pub struct TokenBudget {
    pub total: u64,
    pub used: u64,
}

impl TokenBudget {
    /// A budget of `total` tokens, none used.
    pub fn new(total: u64) -> (b: Self)
        ensures
            b.total == total,
            b.used == 0,
    {
        TokenBudget { total, used: 0 }
    }

    /// Tokens left, never below zero.
    pub fn remaining(&self) -> (r: u64)
        ensures
            r == (if self.used >= self.total { 0 } else { self.total - self.used }),
    {
        self.total.saturating_sub(self.used)
    }

    /// Tokens left once the reserve is set aside, never below zero.
    pub fn available_for_work(&self) -> (r: u64)
        ensures
            r == (if self.used + RESERVED_TOKENS >= self.total { 0 } else { self.total - self.used - RESERVED_TOKENS }),
    {
        self.remaining().saturating_sub(RESERVED_TOKENS)
    }
}

/// How much an agent may still do, by the share of its budget left.
#[derive(Debug, Clone, Copy, PartialEq, Eq, Structural)]
pub enum BudgetMode {
    Full,
    Abbreviated,
    MinimumOutput,
    EmergencyHalt,
}

/// How hard a task looks.
#[derive(Debug, Clone, Copy, PartialEq, Eq, Structural)]
pub enum Complexity {
    Simple,
    Moderate,
    Complex,
}

/// The architect's plan for a task.
#[derive(Debug, PartialEq, Eq)]
pub struct TaskPlan {
    pub approach: String,
    pub files: Vec<String>,
    pub complexity: Complexity,
    pub estimated_tokens: u64,
}

/// What the implementer produced.
#[derive(Debug, PartialEq, Eq)]
pub struct PatchOutput {
    pub patch: String,
    pub commit_msg: String,
    pub files_touched: Vec<String>,
    pub tokens_used: u64,
}

/// What the validator found.
#[derive(Debug, PartialEq, Eq)]
pub struct ValidationResult {
    pub passed: bool,
    pub issues: Vec<String>,
    pub tensions_detected: Vec<validator::Tension>,
}

/// The outcome of a task run.
#[derive(Debug, PartialEq, Eq)]
pub struct TaskResult {
    pub plan: TaskPlan,
    pub patch: Option<PatchOutput>,
    pub validation: Option<ValidationResult>,
    pub budget_remaining: u64,
}

/// What coordination did.
#[derive(Debug, PartialEq, Eq)]
pub struct CoordinationResult {
    pub pr_created: Option<crate::repo::PrRef>,
    pub messages_sent: u32,
}

/// A tool an agent may call in a phase.
#[derive(Debug, PartialEq, Eq)]
pub struct ToolSpec {
    pub name: String,
    pub description: String,
    pub phase: TaskPhase,
}

} // verus!
