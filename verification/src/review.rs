//! The bounded writer/editor loop.
//!
//! Merge summaries and episode segments are produced by the same pattern:
//! a writer drafts, an editor critiques against a rubric, and a rejected
//! draft is regenerated with the critique as feedback — at most a fixed
//! number of attempts, after which the last draft is accepted as it
//! stands.  The loop state and its bound live here; the drafting and
//! critiquing calls are the embedding program's work.
use vstd::prelude::*;

verus! {

/// How many drafts the writer/editor loop may consume.
pub const MAX_REVIEW_ATTEMPTS: u32 = 3;

/// What to do with the draft just reviewed.
pub enum ReviewStep {
    /// The editor passed the draft: accept it.
    Accept,
    /// The budget is spent: accept the last draft despite the critique.
    ForceAccept,
    /// Regenerate with the critique appended as feedback.
    Retry,
}

/// The decision after a verdict on the draft of attempt `attempts_made`.
pub open spec fn review_decision(attempts_made: u32, budget: u32, pass: bool) -> ReviewStep {
    if pass {
        ReviewStep::Accept
    } else if attempts_made >= budget {
        ReviewStep::ForceAccept
    } else {
        ReviewStep::Retry
    }
}

/// State of one writer/editor loop.
pub struct ReviewLoop {
    pub attempts: u32,
    pub budget: u32,
}

impl ReviewLoop {
    /// A fresh loop with the standard attempt budget.
    pub fn new() -> (r: Self)
        ensures
            r.attempts == 0,
            r.budget == MAX_REVIEW_ATTEMPTS,
    {
        ReviewLoop { attempts: 0, budget: MAX_REVIEW_ATTEMPTS }
    }

    /// A fresh loop with a caller-chosen attempt budget.
    pub fn with_budget(budget: u32) -> (r: Self)
        requires
            budget >= 1,
        ensures
            r.attempts == 0,
            r.budget == budget,
    {
        ReviewLoop { attempts: 0, budget }
    }

    /// Whether another draft may still be made.
    pub fn can_attempt(&self) -> (r: bool)
        ensures
            r == (self.attempts < self.budget),
    {
        self.attempts < self.budget
    }

    /// Digest the editor's verdict on the draft of the current attempt.
    /// Counts the attempt, and never asks for a retry once the budget is
    /// spent.
    pub fn on_verdict(&mut self, pass: bool) -> (step: ReviewStep)
        requires
            old(self).attempts < old(self).budget,
        ensures
            final(self).attempts == old(self).attempts + 1,
            final(self).budget == old(self).budget,
            step == review_decision(final(self).attempts, final(self).budget, pass),
    {
        self.attempts = self.attempts + 1;
        if pass {
            ReviewStep::Accept
        } else if self.attempts >= self.budget {
            ReviewStep::ForceAccept
        } else {
            ReviewStep::Retry
        }
    }
}

/// The loop is bounded: a verdict on the final budgeted attempt never asks
/// for another draft, so at most `budget` drafts are ever made.
pub proof fn lemma_review_loop_bounded(attempts_made: u32, budget: u32, pass: bool)
    requires
        attempts_made >= budget,
    ensures
        review_decision(attempts_made, budget, pass) != ReviewStep::Retry,
{
}

/// A draft the editor passes is accepted unchanged, whatever the attempt
/// count.
pub proof fn lemma_review_pass_accepts(attempts_made: u32, budget: u32)
    ensures
        review_decision(attempts_made, budget, true) == ReviewStep::Accept,
{
}

} // verus!
