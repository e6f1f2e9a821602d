//! The implementer: up to three passes over a plan (rough, refinement,
//! polish), each allowed only while the budget mode permits, each charging
//! a quarter of the bytes it wrote, capped by its share of the estimate.

use vstd::prelude::*;
use crate::memory::classification::{utf8_len, utf8_width};
use crate::text::{chars_of, clone_strings, dec, dec_string, push_str, views};
use super::{BudgetMode, Complexity, PatchOutput, TaskPlan, TokenBudget};
use super::budget::{budget_mode, mode_of};

verus! {

/// The rough patch for one file.
pub open spec fn file_stub(f: Seq<char>) -> Seq<char> {
    "diff --git a/"@ + f + " b/"@ + f + "\n--- a/"@ + f + "\n+++ b/"@ + f + "\n@@ -1,1 +1,1 @@\n+// TODO: implement changes for "@ + f + "\n"@
}

/// The rough patch of the first pass.
pub open spec fn rough_text(files: Seq<Seq<char>>) -> Seq<char>
    decreases files.len(),
{
    if files.len() == 0 {
        "# No files identified in plan -- manual implementation needed\n"@
    } else {
        stubs(files)
    }
}

/// The stubs of the files, in order.
pub open spec fn stubs(files: Seq<Seq<char>>) -> Seq<char>
    decreases files.len(),
{
    if files.len() == 0 { Seq::empty() } else { stubs(files.drop_last()) + file_stub(files.last()) }
}

/// How a complexity is printed for debugging.
pub open spec fn complexity_debug(c: Complexity) -> Seq<char> {
    match c {
        Complexity::Simple => "Simple"@,
        Complexity::Moderate => "Moderate"@,
        Complexity::Complex => "Complex"@,
    }
}

/// How a complexity is named in a commit message.
pub open spec fn complexity_label(c: Complexity) -> Seq<char> {
    match c {
        Complexity::Simple => "simple"@,
        Complexity::Moderate => "moderate"@,
        Complexity::Complex => "complex"@,
    }
}

/// The note the second pass adds.
pub open spec fn refine_note(c: Complexity, files: nat) -> Seq<char> {
    "\n# Refinement pass: complexity="@ + complexity_debug(c) + ", files="@ + dec(files) + "\n"@
}

/// The note the third pass adds.
pub open spec fn polish_note() -> Seq<char> {
    "\n# Polish pass: edge cases and documentation reviewed\n"@
}

/// Tokens a pass is charged: a quarter of its bytes, at most `cap`.
pub open spec fn charge(text: Seq<char>, cap: nat) -> nat {
    let q = utf8_len(text) / 4;
    if q < cap { q } else { cap }
}

/// The outcome of the passes on a budget with `total` tokens of which
/// `used` are spent: the patch text, the tokens charged, the passes run.
pub open spec fn shuttle(approach_files: Seq<Seq<char>>, c: Complexity, est: u64, total: u64, used: nat) -> (Seq<char>, nat, nat) {
    let run1 = mode_of(total, used as u64) != BudgetMode::EmergencyHalt;
    let t1 = if run1 { charge(rough_text(approach_files), est as nat / 2) } else { 0 };
    let u1 = used + t1;
    let m1 = mode_of(total, u1 as u64);
    let run2 = m1 == BudgetMode::Full || m1 == BudgetMode::Abbreviated;
    let t2 = if run2 { charge(refine_note(c, approach_files.len()), est as nat * 3 / 10) } else { 0 };
    let u2 = u1 + t2;
    let run3 = mode_of(total, u2 as u64) == BudgetMode::Full;
    let t3 = if run3 { charge(polish_note(), est as nat * 2 / 10) } else { 0 };
    let text = (if run1 { rough_text(approach_files) } else { Seq::empty() })
        + (if run2 { refine_note(c, approach_files.len()) } else { Seq::empty() })
        + (if run3 { polish_note() } else { Seq::empty() });
    let passes: nat = if run3 { 3 } else if run2 { 2 } else if run1 { 1 } else { 0 };
    (text, t1 + t2 + t3, passes)
}

/// The number of leading characters that take exactly `n` bytes, if there
/// is a character boundary there.
pub open spec fn boundary(s: Seq<char>, n: nat) -> Option<int> {
    if exists|k: int| 0 <= k <= s.len() && utf8_len(#[trigger] s.take(k)) == n {
        Some(choose|k: int| 0 <= k <= s.len() && utf8_len(#[trigger] s.take(k)) == n)
    } else {
        None
    }
}

/// The commit title: the approach, or its first 69 bytes and `...` when it
/// is longer than 72 bytes.
pub open spec fn title_of(approach: Seq<char>) -> Seq<char> {
    if utf8_len(approach) > 72 {
        approach.take(boundary(approach, 69).unwrap()) + "..."@
    } else {
        approach
    }
}

/// The commit message of the passes.
pub open spec fn commit_text(approach: Seq<char>, passes: nat, c: Complexity, tokens: nat, files: nat) -> Seq<char> {
    title_of(approach) + "\n\n"@ + "Shuttle passes: "@ + dec(passes) + "/3\n"@ + "Complexity: "@ + complexity_label(c) + "\n"@
        + "Tokens used: "@ + dec(tokens) + "\n"@ + "Files touched: "@ + dec(files) + "\n"@
}

/// The title is defined: a long approach has a character boundary at 69
/// bytes.
pub open spec fn title_defined(approach: Seq<char>) -> bool {
    utf8_len(approach) > 72 ==> boundary(approach, 69) is Some
}

proof fn lemma_utf8_take(s: Seq<char>, k: int)
    requires
        0 <= k < s.len(),
    ensures
        utf8_len(s.take(k + 1)) == utf8_len(s.take(k)) + utf8_width(s[k]),
{
    assert(s.take(k + 1).drop_last() =~= s.take(k));
}

proof fn lemma_utf8_grows(s: Seq<char>, a: int, b: int)
    requires
        0 <= a <= b <= s.len(),
    ensures
        utf8_len(s.take(a)) + (b - a) <= utf8_len(s.take(b)),
    decreases b - a,
{
    if a < b {
        lemma_utf8_grows(s, a, b - 1);
        lemma_utf8_take(s, b - 1);
    }
}

/// Charge a quarter of the text's bytes, at most `cap`.
fn charge_for(text: &str, cap: u64) -> (t: u64)
    ensures
        t == charge(text@, cap as nat),
{
    let v = chars_of(text);
    let limit: u128 = 4 * (cap as u128) + 4;
    let mut n: u128 = 0;
    let mut i: usize = 0;
    while i < v.len() && n < limit
        invariant
            i <= v@.len(),
            v@ == text@,
            n == utf8_len(v@.take(i as int)),
            limit == 4 * (cap as u128) + 4,
            n < limit + 4,
        decreases v@.len() - i,
    {
        let c = v[i] as u32;
        let w: u128 = if c < 0x80 { 1 } else if c < 0x800 { 2 } else if c < 0x10000 { 3 } else { 4 };
        proof { lemma_utf8_take(v@, i as int); }
        n = n + w;
        i = i + 1;
    }
    proof {
        if i == v@.len() {
            assert(v@.take(i as int) =~= v@);
        } else {
            crate::memory::classification::lemma_utf8_prefix(v@, i as int);
            assert(v@.take(v@.len() as int) =~= v@);
        }
    }
    let q = n / 4;
    if q < cap as u128 { q as u64 } else { cap }
}

/// The stub text for one file.
fn push_stub(out: &mut String, f: &str)
    ensures
        final(out)@ == old(out)@ + file_stub(f@),
{
    push_str(out, "diff --git a/");
    push_str(out, f);
    push_str(out, " b/");
    push_str(out, f);
    push_str(out, "\n--- a/");
    push_str(out, f);
    push_str(out, "\n+++ b/");
    push_str(out, f);
    push_str(out, "\n@@ -1,1 +1,1 @@\n+// TODO: implement changes for ");
    push_str(out, f);
    push_str(out, "\n");
    proof {
        reveal_strlit("diff --git a/");
        reveal_strlit(" b/");
        reveal_strlit("\n--- a/");
        reveal_strlit("\n+++ b/");
        reveal_strlit("\n@@ -1,1 +1,1 @@\n+// TODO: implement changes for ");
        reveal_strlit("\n");
    }
    assert(final(out)@ =~= old(out)@ + file_stub(f@));
}

/// The rough patch of the first pass.
fn rough_patch(files: &Vec<String>) -> (s: String)
    ensures
        s@ == rough_text(views(files@)),
{
    let ghost fv = views(files@);
    if files.len() == 0 {
        return "# No files identified in plan -- manual implementation needed\n".to_owned();
    }
    let mut s = String::new();
    proof { reveal_strlit(""); }
    let mut i: usize = 0;
    while i < files.len()
        invariant
            i <= files@.len(),
            fv == views(files@),
            s@ == stubs(fv.take(i as int)),
        decreases files@.len() - i,
    {
        push_stub(&mut s, files[i].as_str());
        assert(fv.take(i + 1).drop_last() =~= fv.take(i as int));
        i = i + 1;
    }
    assert(fv.take(files@.len() as int) =~= fv);
    s
}

/// The commit title.
fn title(approach: &str) -> (t: String)
    requires
        title_defined(approach@),
    ensures
        t@ == title_of(approach@),
{
    let v = chars_of(approach);
    let mut n: u128 = 0;
    let mut i: usize = 0;
    while i < v.len() && n <= 72
        invariant
            i <= v@.len(),
            v@ == approach@,
            n == utf8_len(v@.take(i as int)),
            n <= 76,
        decreases v@.len() - i,
    {
        let c = v[i] as u32;
        let w: u128 = if c < 0x80 { 1 } else if c < 0x800 { 2 } else if c < 0x10000 { 3 } else { 4 };
        proof { lemma_utf8_take(v@, i as int); }
        n = n + w;
        i = i + 1;
    }
    if n <= 72 {
        assert(v@.take(i as int) =~= v@);
        return approach.to_owned();
    }
    proof { crate::memory::classification::lemma_utf8_prefix(v@, i as int); }
    let ghost k = boundary(approach@, 69).unwrap();
    proof {
        assert(exists|k: int| 0 <= k <= approach@.len() && utf8_len(#[trigger] approach@.take(k)) == 69);
    }
    // Find the prefix of exactly 69 bytes.
    let mut m: u128 = 0;
    let mut j: usize = 0;
    while j < v.len() && m < 69
        invariant
            j <= v@.len(),
            v@ == approach@,
            m == utf8_len(v@.take(j as int)),
            m <= 72,
            0 <= k <= v@.len(),
            utf8_len(v@.take(k)) == 69,
            j <= k,
        decreases v@.len() - j,
    {
        let c = v[j] as u32;
        let w: u128 = if c < 0x80 { 1 } else if c < 0x800 { 2 } else if c < 0x10000 { 3 } else { 4 };
        proof {
            lemma_utf8_take(v@, j as int);
            if j + 1 > k {
                lemma_utf8_grows(v@, k, j as int);
            }
            if (j as int) < k {
                lemma_utf8_grows(v@, j + 1, k);
            }
        }
        m = m + w;
        j = j + 1;
    }
    proof {
        if (j as int) < k {
            lemma_utf8_grows(v@, j as int, k);
        }
        if (j as int) > k {
            lemma_utf8_grows(v@, k, j as int);
        }
        assert(j == k);
    }
    let mut t = crate::text::slice_chars(approach, 0, j);
    push_str(&mut t, "...");
    proof {
        reveal_strlit("...");
        assert(approach@.subrange(0, j as int) =~= approach@.take(k));
    }
    t
}

/// The commit message.
fn commit_message(approach: &str, passes: u64, c: Complexity, tokens: u64, files: usize) -> (m: String)
    requires
        title_defined(approach@),
    ensures
        m@ == commit_text(approach@, passes as nat, c, tokens as nat, files as nat),
{
    let mut m = title(approach);
    push_str(&mut m, "\n\n");
    push_str(&mut m, "Shuttle passes: ");
    let a = dec_string(passes);
    push_str(&mut m, a.as_str());
    push_str(&mut m, "/3\n");
    push_str(&mut m, "Complexity: ");
    let label = match c {
        Complexity::Simple => "simple",
        Complexity::Moderate => "moderate",
        Complexity::Complex => "complex",
    };
    push_str(&mut m, label);
    push_str(&mut m, "\n");
    push_str(&mut m, "Tokens used: ");
    let b = dec_string(tokens);
    push_str(&mut m, b.as_str());
    push_str(&mut m, "\n");
    push_str(&mut m, "Files touched: ");
    let d = dec_string(files as u64);
    push_str(&mut m, d.as_str());
    push_str(&mut m, "\n");
    proof {
        reveal_strlit("\n\n");
        reveal_strlit("Shuttle passes: ");
        reveal_strlit("/3\n");
        reveal_strlit("Complexity: ");
        reveal_strlit("simple");
        reveal_strlit("moderate");
        reveal_strlit("complex");
        reveal_strlit("\n");
        reveal_strlit("Tokens used: ");
        reveal_strlit("Files touched: ");
    }
    assert(m@ =~= commit_text(approach@, passes as nat, c, tokens as nat, files as nat));
    m
}

/// The implementer agent.
pub struct Implementer;

impl Implementer {
    /// Run the passes the budget allows and charge their tokens to it: the
    /// rough pass unless the budget is in emergency halt, the refinement in
    /// full or abbreviated mode, the polish in full mode (modes taken after
    /// the earlier passes were charged).
    pub fn implement(plan: &TaskPlan, budget: &mut TokenBudget) -> (out: PatchOutput)
        requires
            old(budget).used + plan.estimated_tokens <= u64::MAX,
            title_defined(plan.approach@),
        ensures
            ({
                let (text, tokens, passes) = shuttle(views(plan.files@), plan.complexity, plan.estimated_tokens, old(budget).total, old(budget).used as nat);
                &&& out.patch@ == text
                &&& out.tokens_used == tokens
                &&& views(out.files_touched@) == views(plan.files@)
                &&& out.commit_msg@ == commit_text(plan.approach@, passes, plan.complexity, tokens, plan.files@.len())
                &&& final(budget).used == old(budget).used + tokens
                &&& final(budget).total == old(budget).total
            }),
    {
        let est = plan.estimated_tokens;
        let ghost used0 = budget.used as nat;
        let mut patch = String::new();
        let mut tokens: u64 = 0;
        let mut passes: u64 = 0;
        proof { reveal_strlit(""); }
        let mode = budget_mode(budget);
        if mode != BudgetMode::EmergencyHalt {
            let rough = rough_patch(&plan.files);
            let t = charge_for(rough.as_str(), est / 2);
            patch = rough;
            tokens = t;
            passes = 1;
            budget.used = budget.used + t;
        }
        let mode = budget_mode(budget);
        if mode == BudgetMode::Full || mode == BudgetMode::Abbreviated {
            let mut note = String::new();
            push_str(&mut note, "\n# Refinement pass: complexity=");
            let dbg = match plan.complexity {
                Complexity::Simple => "Simple",
                Complexity::Moderate => "Moderate",
                Complexity::Complex => "Complex",
            };
            push_str(&mut note, dbg);
            push_str(&mut note, ", files=");
            let n = dec_string(plan.files.len() as u64);
            push_str(&mut note, n.as_str());
            push_str(&mut note, "\n");
            proof {
                reveal_strlit("\n# Refinement pass: complexity=");
                reveal_strlit("Simple");
                reveal_strlit("Moderate");
                reveal_strlit("Complex");
                reveal_strlit(", files=");
                reveal_strlit("\n");
                assert(note@ =~= refine_note(plan.complexity, plan.files@.len()));
            }
            let cap = ((est as u128) * 3 / 10) as u64;
            let t = charge_for(note.as_str(), cap);
            push_str(&mut patch, note.as_str());
            tokens = tokens + t;
            passes = 2;
            budget.used = budget.used + t;
        }
        let mode = budget_mode(budget);
        if mode == BudgetMode::Full {
            let note = "\n# Polish pass: edge cases and documentation reviewed\n";
            let cap = ((est as u128) * 2 / 10) as u64;
            let t = charge_for(note, cap);
            push_str(&mut patch, note);
            tokens = tokens + t;
            passes = 3;
            budget.used = budget.used + t;
        }
        let files = clone_strings(&plan.files);
        let commit_msg = commit_message(plan.approach.as_str(), passes, plan.complexity, tokens, plan.files.len());
        proof {
            let (text, tk, ps) = shuttle(views(plan.files@), plan.complexity, est, old(budget).total, used0);
            assert(patch@ =~= text);
        }
        PatchOutput { patch, commit_msg, files_touched: files, tokens_used: tokens }
    }
}

} // verus!
