//! The decisions of a task run: which phases the budget allows, what each
//! costs, and what is catalogued from a patch. The retrieval and storage
//! around them are done by the caller.

use vstd::prelude::*;
use vstd::string::StringSliceAdditionalSpecFns;
use vstd::utf8::encode_utf8;
use crate::agent::budget::{mode_of, proceeds, should_proceed};
use crate::agent::implementer::{commit_text, complexity_debug, shuttle, title_defined, Implementer};
use crate::agent::validator::{content_hash, hash_content, store_has_open_tension, validation_due, Validator};
use crate::memory::entry::{subjects_of, Classification, MemoryEntry, MemoryState};
use crate::memory::store::InMemoryStore;
use crate::agent::{Complexity, PatchOutput, TaskPhase, TaskPlan, TokenBudget};
use crate::ids::{AgentId, EntryId};
use crate::memory::call_number::{first_n, path_segments, nonempty, call_number_from_path, CallNumber};
use crate::parse::{join, join_strings, split, split_str};
use crate::text::{hex_pad, push_str, replace_all, replace_str, str_eq, views};

verus! {

/// Tokens charged for planning and for a validation pass.
pub const PHASE_COST: u64 = 500;

/// The identifier of the entry a patch is stored as: `task-` and the hash
/// of its commit message in sixteen hexadecimal digits.
pub open spec fn patch_id(commit_msg: Seq<char>) -> Seq<char> {
    "task-"@ + hex_pad(content_hash(encode_utf8(commit_msg)) as nat, 16)
}

/// A path component kept as a subject heading.
pub open spec fn kept_segment(seg: Seq<char>) -> bool {
    seg.len() > 0 && seg != "src"@ && seg != "crates"@
}

/// A kept component without `.rs` and `.ts`.
pub open spec fn subject_piece(seg: Seq<char>) -> Seq<char> {
    replace_all(replace_all(seg, ".rs"@, Seq::empty()), ".ts"@, Seq::empty())
}

/// The subject headings of the components of one path.
pub open spec fn segment_subjects(segs: Seq<Seq<char>>) -> Seq<Seq<char>>
    decreases segs.len(),
{
    if segs.len() == 0 {
        Seq::empty()
    } else {
        let r = segment_subjects(segs.drop_last());
        if kept_segment(segs.last()) { r.push(subject_piece(segs.last())) } else { r }
    }
}

/// The subject headings of the touched files, file after file.
pub open spec fn path_subjects(files: Seq<Seq<char>>) -> Seq<Seq<char>>
    decreases files.len(),
{
    if files.len() == 0 {
        Seq::empty()
    } else {
        path_subjects(files.drop_last()) + segment_subjects(split(files.last(), seq!['/']))
    }
}

/// The content recorded for a patch.
pub open spec fn record_content(approach: Seq<char>, files: Seq<Seq<char>>, c: Complexity) -> Seq<char> {
    approach + "\n\nFiles: "@ + join(files, ", "@) + "\nComplexity: "@ + complexity_debug(c)
}

/// The call number recorded for a patch: that of its first file (four
/// levels at most), or `AGENT.PATCH`.
pub open spec fn record_call_number(files: Seq<Seq<char>>) -> Seq<Seq<char>> {
    if files.len() > 0 {
        first_n(path_segments(split(files[0], seq!['/'])), 4)
    } else {
        seq!["AGENT"@, "PATCH"@]
    }
}

/// The plan used when the budget allows no planning.
pub open spec fn emergency_text(task: Seq<char>) -> Seq<char> {
    "Emergency plan for: "@ + task
}

/// The subject headings of one path.
fn subjects_of_path(path: &str, out: &mut Vec<String>)
    ensures
        views(final(out)@) == views(old(out)@) + segment_subjects(split(path@, seq!['/'])),
{
    proof {
        reveal_strlit("/");
        reveal_strlit("src");
        reveal_strlit("crates");
        reveal_strlit(".rs");
        reveal_strlit(".ts");
        reveal_strlit("");
        assert("/"@ =~= seq!['/']);
    }
    let segs = split_str(path, "/");
    let ghost sv = views(segs@);
    let ghost o0 = views(out@);
    let mut i: usize = 0;
    assert(sv.take(0) =~= Seq::<Seq<char>>::empty());
    assert(o0 + segment_subjects(sv.take(0)) =~= o0);
    while i < segs.len()
        invariant
            i <= segs@.len(),
            sv == views(segs@),
            sv == split(path@, seq!['/']),
            views(out@) == o0 + segment_subjects(sv.take(i as int)),
        decreases segs@.len() - i,
    {
        proof {
            reveal_strlit("src");
            reveal_strlit("crates");
            reveal_strlit(".rs");
            reveal_strlit(".ts");
            reveal_strlit("");
            assert(".rs"@.len() == 3);
            assert(".ts"@.len() == 3);
            assert(""@ =~= Seq::<char>::empty());
        }
        let seg = segs[i].as_str();
        assert(sv.take(i + 1).drop_last() =~= sv.take(i as int));
        assert(sv.take(i + 1).last() == seg@);
        if seg.unicode_len() > 0 && !str_eq(seg, "src") && !str_eq(seg, "crates") {
            let a = replace_str(seg, ".rs", "");
            let b = replace_str(a.as_str(), ".ts", "");
            let ghost before = views(out@);
            out.push(b);
            assert(views(out@) =~= before.push(subject_piece(seg@)));
        }
        i = i + 1;
    }
    assert(sv.take(i as int) =~= sv);
}

/// The orchestrator of one task run: the agent and its budget.
pub struct AgentOrchestrator {
    agent_id: AgentId,
    budget: TokenBudget,
}

impl AgentOrchestrator {
    /// The agent running the task.
    pub closed spec fn agent(self) -> AgentId {
        self.agent_id
    }

    /// The budget as it stands.
    pub closed spec fn budget_spec(self) -> TokenBudget {
        self.budget
    }

    /// An orchestrator for a task.
    pub fn new(agent_id: AgentId, budget: TokenBudget) -> (o: Self)
        ensures
            o.agent() == agent_id,
            o.budget_spec() == budget,
    {
        AgentOrchestrator { agent_id, budget }
    }

    /// The budget as it stands.
    pub fn budget(&self) -> (b: TokenBudget)
        ensures
            b == self.budget_spec(),
    {
        self.budget
    }

    /// Whether the budget allows planning from memory.
    pub fn plan_due(&self) -> (r: bool)
        ensures
            r == proceeds(mode_of(self.budget_spec().total, self.budget_spec().used), TaskPhase::Plan),
    {
        should_proceed(&self.budget, TaskPhase::Plan)
    }

    /// The plan to work from: the architect's plan, charged to the budget,
    /// where planning is allowed and one was made; otherwise the emergency
    /// plan (no files, simple, no tokens).
    pub fn adopt_plan(&mut self, task: &str, planned: Option<TaskPlan>) -> (p: TaskPlan)
        requires
            old(self).budget_spec().used + PHASE_COST <= u64::MAX,
        ensures
            final(self).agent() == old(self).agent(),
            final(self).budget_spec().total == old(self).budget_spec().total,
            ({
                let due = proceeds(mode_of(old(self).budget_spec().total, old(self).budget_spec().used), TaskPhase::Plan);
                if due && planned is Some {
                    &&& p == planned->Some_0
                    &&& final(self).budget_spec().used == old(self).budget_spec().used + PHASE_COST
                } else {
                    &&& p.approach@ == emergency_text(task@)
                    &&& p.files@.len() == 0
                    &&& p.complexity == Complexity::Simple
                    &&& p.estimated_tokens == 0
                    &&& final(self).budget_spec() == old(self).budget_spec()
                }
            }),
    {
        let due = should_proceed(&self.budget, TaskPhase::Plan);
        match planned {
            Some(p) => {
                if due {
                    self.budget.used = self.budget.used + PHASE_COST;
                    return p;
                }
            },
            None => {},
        }
        proof {
            reveal_strlit("Emergency plan for: ");
        }
        let mut approach = String::new();
        push_str(&mut approach, "Emergency plan for: ");
        push_str(&mut approach, task);
        TaskPlan { approach, files: Vec::new(), complexity: Complexity::Simple, estimated_tokens: 0 }
    }

    /// The implementer's patch where the budget allows implementation
    /// (anything but an emergency halt), its tokens charged; otherwise none.
    pub fn implement(&mut self, plan: &TaskPlan) -> (r: Option<PatchOutput>)
        requires
            old(self).budget_spec().used + plan.estimated_tokens <= u64::MAX,
            title_defined(plan.approach@),
        ensures
            final(self).agent() == old(self).agent(),
            final(self).budget_spec().total == old(self).budget_spec().total,
            proceeds(mode_of(old(self).budget_spec().total, old(self).budget_spec().used), TaskPhase::Implement) <==> r is Some,
            r is None ==> final(self).budget_spec() == old(self).budget_spec(),
            r is Some ==> final(self).budget_spec().used == old(self).budget_spec().used + r->Some_0.tokens_used,
            r is Some ==> ({
                let (text, tokens, passes) = shuttle(
                    views(plan.files@),
                    plan.complexity,
                    plan.estimated_tokens,
                    old(self).budget_spec().total,
                    old(self).budget_spec().used as nat,
                );
                &&& r->Some_0.patch@ == text
                &&& r->Some_0.tokens_used == tokens
                &&& views(r->Some_0.files_touched@) == views(plan.files@)
                &&& r->Some_0.commit_msg@ == commit_text(plan.approach@, passes, plan.complexity, tokens, plan.files@.len())
            }),
    {
        if should_proceed(&self.budget, TaskPhase::Implement) {
            Some(Implementer::implement(plan, &mut self.budget))
        } else {
            None
        }
    }

    /// Whether to validate: only a patch is validated, only where the budget
    /// allows validation, and then as the validator decides (always with an
    /// open tension, otherwise with more than half the budget left).
    pub fn validation_due<S>(&self, patch_made: bool, store: &InMemoryStore<S>) -> (r: bool)
        requires
            store.wf(),
        ensures
            r == (patch_made
                && proceeds(mode_of(self.budget_spec().total, self.budget_spec().used), TaskPhase::Validate)
                && validation_due(self.budget_spec().total, self.budget_spec().used, store_has_open_tension(*store))),
    {
        patch_made && should_proceed(&self.budget, TaskPhase::Validate) && Validator::should_validate(&self.budget, store)
    }

    /// Charge a validation pass.
    pub fn record_validation(&mut self)
        requires
            old(self).budget_spec().used + PHASE_COST <= u64::MAX,
        ensures
            final(self).agent() == old(self).agent(),
            final(self).budget_spec().total == old(self).budget_spec().total,
            final(self).budget_spec().used == old(self).budget_spec().used + PHASE_COST,
    {
        self.budget.used = self.budget.used + PHASE_COST;
    }

    /// Tokens left.
    pub fn budget_remaining(&self) -> (r: u64)
        ensures
            r == (if self.budget_spec().used >= self.budget_spec().total { 0 } else { self.budget_spec().total - self.budget_spec().used }),
    {
        self.budget.remaining()
    }

    /// Store a finished patch in memory as a new alive entry: identified
    /// by the hash of its commit message, the plan's approach with the
    /// files and complexity as content, the path components of the files as
    /// subjects, the call number of the first file, and the survival
    /// metadata given. Returns the entry's identifier.
    pub fn catalog_patch<S>(&self, patch: &PatchOutput, plan: &TaskPlan, survival: S, store: &mut InMemoryStore<S>) -> (id: EntryId)
        requires
            old(store).wf(),
        ensures
            final(store).wf(),
            id@ == patch_id(patch.commit_msg@),
            final(store).entries() == old(store).entries().insert(id@, final(store).entries()[id@]),
            ({
                let e = final(store).entries()[id@];
                &&& e.id == id
                &&& e.agent == self.agent()
                &&& e.content@ == record_content(plan.approach@, views(patch.files_touched@), plan.complexity)
                &&& e.created_at@.len() == 0
                &&& e.last_accessed@.len() == 0
                &&& subjects_of(e) == path_subjects(views(patch.files_touched@))
                &&& e.classification.call_number@ == record_call_number(views(patch.files_touched@))
                &&& !e.classification.controlled_vocab
                &&& e.see_also@.len() == 0
                &&& e.motifs@.len() == 0
                &&& e.tension_refs@.len() == 0
                &&& e.survival == survival
                &&& e.state == MemoryState::Alive
                &&& e.consensus_citations == 0
                &&& e.access_count == 0
                &&& e.source_commit is None
            }),
    {
        proof {
            reveal_strlit("task-");
            reveal_strlit("\n\nFiles: ");
            reveal_strlit(", ");
            reveal_strlit("\nComplexity: ");
            reveal_strlit("Simple");
            reveal_strlit("Moderate");
            reveal_strlit("Complex");
            reveal_strlit("AGENT");
            reveal_strlit("PATCH");
        }
        let files = &patch.files_touched;
        let ghost fv = views(files@);
        let mut subjects: Vec<String> = Vec::new();
        let mut i: usize = 0;
        assert(fv.take(0) =~= Seq::<Seq<char>>::empty());
        while i < files.len()
            invariant
                i <= files@.len(),
                fv == views(files@),
                views(subjects@) == path_subjects(fv.take(i as int)),
            decreases files@.len() - i,
        {
            assert(fv.take(i + 1).drop_last() =~= fv.take(i as int));
            assert(fv.take(i + 1).last() == files@[i as int]@);
            subjects_of_path(files[i].as_str(), &mut subjects);
            i = i + 1;
        }
        assert(fv.take(i as int) =~= fv);
        let call_number = if files.len() > 0 {
            call_number_from_path(files[0].as_str(), 4)
        } else {
            let mut segments: Vec<String> = Vec::new();
            segments.push("AGENT".to_owned());
            segments.push("PATCH".to_owned());
            let c = CallNumber { segments };
            assert(c@ =~= seq!["AGENT"@, "PATCH"@]);
            c
        };
        let mut id = String::new();
        push_str(&mut id, "task-");
        let h = hash_content(patch.commit_msg.as_str());
        push_str(&mut id, h.as_str());
        let mut content = String::new();
        push_str(&mut content, plan.approach.as_str());
        push_str(&mut content, "\n\nFiles: ");
        let joined = join_strings(files, ", ");
        push_str(&mut content, joined.as_str());
        push_str(&mut content, "\nComplexity: ");
        let name = match plan.complexity {
            Complexity::Simple => "Simple",
            Complexity::Moderate => "Moderate",
            Complexity::Complex => "Complex",
        };
        push_str(&mut content, name);
        assert(content@ =~= record_content(plan.approach@, fv, plan.complexity));
        let entry_id = EntryId(id);
        let entry = MemoryEntry {
            id: entry_id.clone(),
            agent: self.agent_id.clone(),
            content,
            created_at: String::new(),
            last_accessed: String::new(),
            classification: Classification { subject_headings: subjects, call_number, controlled_vocab: false },
            see_also: Vec::new(),
            motifs: Vec::new(),
            tension_refs: Vec::new(),
            survival,
            state: MemoryState::Alive,
            consensus_citations: 0,
            access_count: 0,
            source_commit: None,
        };
        store.store(entry);
        entry_id
    }
}

} // verus!
