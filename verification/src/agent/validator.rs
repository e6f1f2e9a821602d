//! The validator's decisions: whether a check is worth its tokens, and the
//! tension a finding raises.

use vstd::prelude::*;
use vstd::string::StringSliceAdditionalSpecFns;
use crate::agent::TokenBudget;
use crate::ids::{EntryId, TensionId};
use crate::memory::entry::{has_open_tension, open_tension, MemoryState};
use crate::memory::store::InMemoryStore;
use crate::text::{contains, contains_str, hex_pad, hex_pad_string, push_str};

verus! {

/// How serious a tension is.
#[derive(Debug, Clone, Copy, PartialEq, Eq, Structural)]
pub enum TensionSeverity {
    Low,
    Moderate,
    High,
}

/// A contradiction or conflict noticed between memories.
#[derive(Debug, PartialEq, Eq)]
pub struct Tension {
    pub id: TensionId,
    pub description: String,
    pub severity: TensionSeverity,
    pub introduced_in: EntryId,
    pub resolved_in: Option<EntryId>,
}

/// The conditional validator.
pub struct Validator;

/// The multiplicative hash of a byte sequence: each byte in turn,
/// `h * 31 + b`, wrapping at 64 bits, from zero.
pub open spec fn content_hash(bytes: Seq<u8>) -> u64
    decreases bytes.len(),
{
    if bytes.len() == 0 {
        0
    } else {
        content_hash(bytes.drop_last()).wrapping_mul(31).wrapping_add(bytes.last() as u64)
    }
}

/// The severity a finding's text marks: a contradiction is high, a
/// warning moderate, anything else low.
pub open spec fn severity_of(issue: Seq<char>) -> TensionSeverity {
    if contains(issue, "[Contradiction]"@) {
        TensionSeverity::High
    } else if contains(issue, "[Warning]"@) {
        TensionSeverity::Moderate
    } else {
        TensionSeverity::Low
    }
}

/// The identifier of the tension raised by a finding.
pub open spec fn tension_id_of(issue: &str) -> Seq<char> {
    "val-"@ + hex_pad(content_hash(issue.spec_bytes()) as nat, 16)
}

/// Whether validation is worth running: always while a tension is open,
/// otherwise only while more than half the budget is left (a budget of no
/// tokens counts as spent).
pub open spec fn validation_due(total: u64, used: u64, tensions_open: bool) -> bool {
    tensions_open || (total > 0 && 2 * used < total)
}

/// The content hash of a text, as sixteen hexadecimal digits.
pub(crate) fn hash_content(content: &str) -> (r: String)
    ensures
        r@ == hex_pad(content_hash(content.spec_bytes()) as nat, 16),
{
    let bytes = content.as_bytes();
    let mut hash: u64 = 0;
    let mut i: usize = 0;
    assert(bytes@.take(0) =~= Seq::<u8>::empty());
    while i < bytes.len()
        invariant
            i <= bytes@.len(),
            bytes@ == content.spec_bytes(),
            hash == content_hash(bytes@.take(i as int)),
        decreases bytes@.len() - i,
    {
        assert(bytes@.take(i + 1).drop_last() =~= bytes@.take(i as int));
        hash = hash.wrapping_mul(31).wrapping_add(bytes[i] as u64);
        i = i + 1;
    }
    assert(bytes@.take(i as int) =~= bytes@);
    hex_pad_string(hash, 16)
}

/// Some alive entry of the store carries an open tension.
pub open spec fn store_has_open_tension<S>(store: InMemoryStore<S>) -> bool {
    exists|i: int| 0 <= i < store.ids_in(MemoryState::Alive).len()
        && has_open_tension(#[trigger] store.entries()[store.ids_in(MemoryState::Alive)[i]])
}

impl Validator {
    /// Whether validation is worth running: always while an alive entry of
    /// the store carries an open tension, otherwise only while more than
    /// half the budget is left.
    pub fn should_validate<S>(budget: &TokenBudget, store: &InMemoryStore<S>) -> (r: bool)
        requires
            store.wf(),
        ensures
            r == validation_due(budget.total, budget.used, store_has_open_tension(*store)),
    {
        if has_active_tensions(store) {
            return true;
        }
        budget.total > 0 && (budget.used as u128) * 2 < budget.total as u128
    }
}

/// Whether some alive entry carries an open tension.
fn has_active_tensions<S>(store: &InMemoryStore<S>) -> (r: bool)
    requires
        store.wf(),
    ensures
        r == store_has_open_tension(*store),
{
    let alive = store.entries_by_state(MemoryState::Alive);
    let mut i: usize = 0;
    while i < alive.len()
        invariant
            i <= alive@.len(),
            alive@.len() == store.ids_in(MemoryState::Alive).len(),
            forall|j: int| 0 <= j < alive@.len() ==> *(#[trigger] alive@[j]) == store.entries()[store.ids_in(MemoryState::Alive)[j]],
            forall|j: int| 0 <= j < i ==> !has_open_tension(#[trigger] store.entries()[store.ids_in(MemoryState::Alive)[j]]),
        decreases alive@.len() - i,
    {
        if open_tension(alive[i]) {
            assert(*alive@[i as int] == store.entries()[store.ids_in(MemoryState::Alive)[i as int]]);
            return true;
        }
        assert(*alive@[i as int] == store.entries()[store.ids_in(MemoryState::Alive)[i as int]]);
        i = i + 1;
    }
    false
}

/// The tension recorded for a validation finding against an entry.
pub fn tension_from_issue(issue: &str, entry_id: &EntryId) -> (t: Tension)
    ensures
        t.id@ == tension_id_of(issue),
        t.description@ == issue@,
        t.severity == severity_of(issue@),
        t.introduced_in@ == entry_id@,
        t.resolved_in is None,
{
    proof {
        reveal_strlit("[Contradiction]");
        reveal_strlit("[Warning]");
        reveal_strlit("val-");
    }
    let severity = if contains_str(issue, "[Contradiction]") {
        TensionSeverity::High
    } else if contains_str(issue, "[Warning]") {
        TensionSeverity::Moderate
    } else {
        TensionSeverity::Low
    };
    let mut id = String::new();
    push_str(&mut id, "val-");
    let h = hash_content(issue);
    push_str(&mut id, h.as_str());
    assert(id@ =~= tension_id_of(issue));
    Tension {
        id: TensionId(id),
        description: issue.to_owned(),
        severity,
        introduced_in: entry_id.clone(),
        resolved_in: None,
    }
}

} // verus!
