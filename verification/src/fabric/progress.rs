//! Progress of a piece of work: tokens used against the budget, the files
//! touched (each once, in the order first touched), and the current phase
//! with its pick counts.
//!
//! The phase and the loom position are carried through unchanged, so the
//! reporter is generic over their types.

use vstd::prelude::*;
use crate::ids::AgentId;
use crate::text::{contains_string, views};

verus! {

/// Tracks the progress of one agent's piece of work.
pub struct ProgressReporter<P, L> {
    agent: AgentId,
    position: L,
    token_budget: u64,
    tokens_used: u64,
    files_touched: Vec<String>,
    current_phase: Option<P>,
    picks_completed: u32,
    picks_estimated: u32,
}

/// The plain state of a reporter.
pub struct ProgressView<P, L> {
    pub agent: Seq<char>,
    pub position: L,
    pub token_budget: u64,
    pub tokens_used: u64,
    pub files: Seq<Seq<char>>,
    pub phase: Option<P>,
    pub picks_completed: u32,
    pub picks_estimated: u32,
}

impl<P, L> View for ProgressReporter<P, L> {
    type V = ProgressView<P, L>;

    closed spec fn view(&self) -> ProgressView<P, L> {
        ProgressView {
            agent: self.agent@,
            position: self.position,
            token_budget: self.token_budget,
            tokens_used: self.tokens_used,
            files: views(self.files_touched@),
            phase: self.current_phase,
            picks_completed: self.picks_completed,
            picks_estimated: self.picks_estimated,
        }
    }
}

impl<P, L> ProgressReporter<P, L> {
    /// A reporter with nothing recorded yet.
    pub fn new(agent: AgentId, position: L, token_budget: u64) -> (r: Self)
        ensures
            r@ == (ProgressView::<P, L> {
                agent: agent@,
                position,
                token_budget,
                tokens_used: 0,
                files: Seq::empty(),
                phase: None,
                picks_completed: 0,
                picks_estimated: 0,
            }),
    {
        let r = ProgressReporter {
            agent,
            position,
            token_budget,
            tokens_used: 0,
            files_touched: Vec::new(),
            current_phase: None,
            picks_completed: 0,
            picks_estimated: 0,
        };
        assert(views(r.files_touched@) =~= Seq::<Seq<char>>::empty());
        r
    }

    /// Add the tokens an operation consumed.
    pub fn record_tokens(&mut self, tokens: u64)
        requires
            old(self)@.tokens_used + tokens <= u64::MAX,
        ensures
            final(self)@ == (ProgressView { tokens_used: (old(self)@.tokens_used + tokens) as u64, ..old(self)@ }),
    {
        self.tokens_used = self.tokens_used + tokens;
    }

    /// Record a touched file; a file already recorded is not added again.
    pub fn record_file_touched(&mut self, path: String)
        ensures
            final(self)@ == (ProgressView {
                files: if old(self)@.files.contains(path@) { old(self)@.files } else { old(self)@.files.push(path@) },
                ..old(self)@
            }),
    {
        if !contains_string(&self.files_touched, &path) {
            let ghost before = views(self.files_touched@);
            self.files_touched.push(path);
            assert(views(self.files_touched@) =~= before.push(path@));
        }
    }

    /// Enter a phase with its pick counts.
    pub fn advance_phase(&mut self, phase: P, picks_completed: u32, picks_estimated: u32)
        ensures
            final(self)@ == (ProgressView { phase: Some(phase), picks_completed, picks_estimated, ..old(self)@ }),
    {
        self.current_phase = Some(phase);
        self.picks_completed = picks_completed;
        self.picks_estimated = picks_estimated;
    }

    /// Whether more tokens were used than the budget allows.
    pub fn is_over_budget(&self) -> (r: bool)
        ensures
            r == (self@.tokens_used > self@.token_budget),
    {
        self.tokens_used > self.token_budget
    }

    /// The number of distinct files touched.
    pub fn files_touched_count(&self) -> (n: usize)
        ensures
            n == self@.files.len(),
    {
        self.files_touched.len()
    }

    /// The files touched, in the order first touched.
    pub fn files_touched(&self) -> (r: &[String])
        ensures
            views(r@) == self@.files,
    {
        self.files_touched.as_slice()
    }

    /// The tokens used so far.
    pub fn tokens_used(&self) -> (n: u64)
        ensures
            n == self@.tokens_used,
    {
        self.tokens_used
    }
}

/// Recording a file twice leaves the files as recording it once did.
pub proof fn lemma_record_file_idempotent(files: Seq<Seq<char>>, path: Seq<char>)
    ensures
        ({
            let once = if files.contains(path) { files } else { files.push(path) };
            once.contains(path) && (if once.contains(path) { once } else { once.push(path) }) == once
        }),
{
    if !files.contains(path) {
        assert(files.push(path)[files.len() as int] == path);
    }
}

} // verus!
