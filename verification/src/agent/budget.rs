//! Budget-aware choices: the mode an agent works in, and whether a phase may
//! proceed.

use vstd::prelude::*;
use crate::text::{dec, dec_string, push_str};
use super::{BudgetMode, TaskPhase, TokenBudget, RESERVED_TOKENS};

verus! {

/// The mode for the share of the budget left: more than four fifths, full;
/// at least half, abbreviated; at least a fifth, minimum output; else halt.
/// A budget of zero tokens is fully used.
pub open spec fn mode_of(total: u64, used: u64) -> BudgetMode {
    let left = total - used;
    if total == 0 {
        BudgetMode::EmergencyHalt
    } else if 5 * left > 4 * total {
        BudgetMode::Full
    } else if 2 * left >= total {
        BudgetMode::Abbreviated
    } else if 5 * left >= total {
        BudgetMode::MinimumOutput
    } else {
        BudgetMode::EmergencyHalt
    }
}

/// How much a mode restricts work: full 0 up to emergency halt 3.
pub open spec fn severity(m: BudgetMode) -> nat {
    match m {
        BudgetMode::Full => 0,
        BudgetMode::Abbreviated => 1,
        BudgetMode::MinimumOutput => 2,
        BudgetMode::EmergencyHalt => 3,
    }
}

/// Spending more of a budget never makes its mode less restrictive, and a
/// phase refused at some spending stays refused at any higher spending.
pub proof fn lemma_mode_monotone(total: u64, used1: u64, used2: u64, phase: crate::agent::TaskPhase)
    requires
        used1 <= used2,
    ensures
        severity(mode_of(total, used1)) <= severity(mode_of(total, used2)),
        proceeds(mode_of(total, used2), phase) ==> proceeds(mode_of(total, used1), phase),
{
}

/// The mode the budget allows.
pub fn budget_mode(budget: &TokenBudget) -> (m: BudgetMode)
    ensures
        m == mode_of(budget.total, budget.used),
{
    if budget.total == 0 || budget.used >= budget.total {
        return BudgetMode::EmergencyHalt;
    }
    let left = (budget.total - budget.used) as u128;
    let total = budget.total as u128;
    if 5 * left > 4 * total {
        BudgetMode::Full
    } else if 2 * left >= total {
        BudgetMode::Abbreviated
    } else if 5 * left >= total {
        BudgetMode::MinimumOutput
    } else {
        BudgetMode::EmergencyHalt
    }
}

/// Cataloguing and coordination always proceed; validation needs the full
/// or abbreviated mode; the other phases anything but an emergency halt.
pub open spec fn proceeds(mode: BudgetMode, phase: TaskPhase) -> bool {
    match phase {
        TaskPhase::Catalog | TaskPhase::Coordinate => true,
        TaskPhase::Validate => mode == BudgetMode::Full || mode == BudgetMode::Abbreviated,
        _ => mode != BudgetMode::EmergencyHalt,
    }
}

/// Whether `phase` may run on this budget.
pub fn should_proceed(budget: &TokenBudget, phase: TaskPhase) -> (r: bool)
    ensures
        r == proceeds(mode_of(budget.total, budget.used), phase),
{
    match phase {
        TaskPhase::Catalog | TaskPhase::Coordinate => true,
        TaskPhase::Implement => budget_mode(budget) != BudgetMode::EmergencyHalt,
        TaskPhase::Validate => {
            let m = budget_mode(budget);
            m == BudgetMode::Full || m == BudgetMode::Abbreviated
        },
        TaskPhase::Classify | TaskPhase::Plan => budget_mode(budget) != BudgetMode::EmergencyHalt,
    }
}

/// The label of a mode.
pub open spec fn mode_label(m: BudgetMode) -> Seq<char> {
    match m {
        BudgetMode::Full => "full"@,
        BudgetMode::Abbreviated => "abbreviated"@,
        BudgetMode::MinimumOutput => "minimum-output"@,
        BudgetMode::EmergencyHalt => "emergency-halt"@,
    }
}

/// The whole percentage of the budget used, rounded down (a budget of zero
/// tokens counts as fully used), capped at the largest `u32`.
pub open spec fn percent_used(total: u64, used: u64) -> nat {
    let p: int = if total == 0 { 100 } else { (100 * used) / (total as int) };
    if p > u32::MAX { u32::MAX as nat } else { p as nat }
}

/// Tokens available for work.
pub open spec fn work_available(total: u64, used: u64) -> nat {
    if used + RESERVED_TOKENS >= total { 0 } else { (total - used - RESERVED_TOKENS) as nat }
}

/// A one-line account of the budget.
pub open spec fn summary_text(total: u64, used: u64) -> Seq<char> {
    "Budget: "@ + dec(used as nat) + "/"@ + dec(total as nat) + " tokens ("@ + dec(percent_used(total, used)) + "% used, mode="@
        + mode_label(mode_of(total, used)) + ", work_available="@ + dec(work_available(total, used)) + ")"@
}

/// Describe the budget, e.g. `Budget: 0/32000 tokens (0% used, mode=full, work_available=28500)`.
pub fn budget_summary(budget: &TokenBudget) -> (s: String)
    ensures
        s@ == summary_text(budget.total, budget.used),
{
    let mode = budget_mode(budget);
    let label = match mode {
        BudgetMode::Full => "full",
        BudgetMode::Abbreviated => "abbreviated",
        BudgetMode::MinimumOutput => "minimum-output",
        BudgetMode::EmergencyHalt => "emergency-halt",
    };
    let pct: u64 = if budget.total == 0 {
        100
    } else {
        let p = (100 * (budget.used as u128)) / (budget.total as u128);
        if p > 0xffff_ffff { 0xffff_ffff } else { p as u64 }
    };
    let mut s = String::new();
    push_str(&mut s, "Budget: ");
    let a = dec_string(budget.used);
    push_str(&mut s, a.as_str());
    push_str(&mut s, "/");
    let b = dec_string(budget.total);
    push_str(&mut s, b.as_str());
    push_str(&mut s, " tokens (");
    let c = dec_string(pct);
    push_str(&mut s, c.as_str());
    push_str(&mut s, "% used, mode=");
    push_str(&mut s, label);
    push_str(&mut s, ", work_available=");
    let d = dec_string(budget.available_for_work());
    push_str(&mut s, d.as_str());
    push_str(&mut s, ")");
    proof {
        reveal_strlit("Budget: ");
        reveal_strlit("/");
        reveal_strlit(" tokens (");
        reveal_strlit("% used, mode=");
        reveal_strlit(", work_available=");
        reveal_strlit(")");
        reveal_strlit("");
    }
    s
}

} // verus!
