//! The installer pipeline's scheduler: a closed queue-drain with at
//! most `limit` tasks in flight.  The orchestrator asks it which
//! candidate to start next and reports each task's terminal state; the
//! scheduler owns the pending queue and the aggregate counters, and its
//! well-formedness keeps the active count within the limit at every
//! step — refilling a slot the moment a task completes, never batching.

use vstd::prelude::*;

use crate::install::{ModState, Subscription};

verus! {

/// Aggregate outcome counts of one run.
#[derive(Clone, Copy, Debug)]
pub struct RunSummary {
    pub installed: usize,
    pub updated: usize,
    pub already_installed: usize,
    pub removed: usize,
    pub failed: usize,
}

/// The bounded-concurrency scheduler state.
pub struct Pipeline {
    /// Candidates not yet started, in order; the front is next.
    pub queue: Vec<Subscription>,
    /// Tasks currently in flight.
    pub active: usize,
    /// The concurrency limit `C`.
    pub limit: usize,
    /// Candidates handed out and finished.
    pub completed: usize,
    /// How many candidates the run began with.
    pub total: usize,
    /// Outcomes folded in so far, plus the reconciler's removal count.
    pub summary: RunSummary,
}

impl Pipeline {
    /// Well-formedness: the limit is positive, at most `limit` tasks are
    /// in flight, every candidate is pending, in flight or completed,
    /// and the counters account exactly for the completed ones.
    pub open spec fn wf(self) -> bool {
        &&& self.limit >= 1
        &&& self.active <= self.limit
        &&& self.completed + self.active + self.queue@.len() == self.total
        &&& self.summary.installed + self.summary.updated + self.summary.already_installed
            + self.summary.failed == self.completed
    }

    /// A run starts with every candidate pending, nothing in flight,
    /// and only the reconciler's removal count on the board.
    pub fn new(candidates: Vec<Subscription>, limit: usize, removed: usize) -> (p: Pipeline)
        requires
            limit >= 1,
        ensures
            p.wf(),
            p.queue@ == candidates@,
            p.active == 0,
            p.completed == 0,
            p.total == candidates@.len(),
            p.summary.installed == 0,
            p.summary.updated == 0,
            p.summary.already_installed == 0,
            p.summary.failed == 0,
            p.summary.removed == removed,
    {
        let total = candidates.len();
        Pipeline {
            queue: candidates,
            active: 0,
            limit,
            completed: 0,
            total,
            summary: RunSummary {
                installed: 0,
                updated: 0,
                already_installed: 0,
                removed,
                failed: 0,
            },
        }
    }

    /// Hand out the next candidate when a slot is free and one is
    /// pending; the active count never passes the limit.
    pub fn start_next(&mut self) -> (r: Option<Subscription>)
        requires
            old(self).wf(),
        ensures
            final(self).wf(),
            final(self).active <= final(self).limit,
            final(self).limit == old(self).limit,
            final(self).total == old(self).total,
            final(self).completed == old(self).completed,
            final(self).summary == old(self).summary,
            if old(self).active < old(self).limit && old(self).queue@.len() > 0 {
                r == Some(old(self).queue@[0]) && final(self).queue@ == old(self).queue@.skip(1)
                    && final(self).active == old(self).active + 1
            } else {
                r is None && final(self).queue@ == old(self).queue@ && final(self).active
                    == old(self).active
            },
    {
        if self.active < self.limit && self.queue.len() > 0 {
            let sub = self.queue.remove(0);
            self.active = self.active + 1;
            proof {
                assert(self.queue@ =~= old(self).queue@.skip(1));
            }
            Some(sub)
        } else {
            None
        }
    }

    /// Fold one finished task's terminal state into the counters and
    /// free its slot.
    pub fn complete(&mut self, outcome: ModState)
        requires
            old(self).wf(),
            old(self).active > 0,
            outcome is Installed || outcome is Updated || outcome is AlreadyInstalled
                || outcome is Failed,
        ensures
            final(self).wf(),
            final(self).active == old(self).active - 1,
            final(self).completed == old(self).completed + 1,
            final(self).queue@ == old(self).queue@,
            final(self).limit == old(self).limit,
            final(self).total == old(self).total,
            final(self).summary.removed == old(self).summary.removed,
            final(self).summary.installed == old(self).summary.installed + if outcome
                is Installed {
                1int
            } else {
                0
            },
            final(self).summary.updated == old(self).summary.updated + if outcome is Updated {
                1int
            } else {
                0
            },
            final(self).summary.already_installed == old(self).summary.already_installed
                + if outcome is AlreadyInstalled {
                1int
            } else {
                0
            },
            final(self).summary.failed == old(self).summary.failed + if outcome is Failed {
                1int
            } else {
                0
            },
    {
        self.active = self.active - 1;
        self.completed = self.completed + 1;
        match outcome {
            ModState::Installed => {
                self.summary.installed = self.summary.installed + 1;
            },
            ModState::Updated => {
                self.summary.updated = self.summary.updated + 1;
            },
            ModState::AlreadyInstalled => {
                self.summary.already_installed = self.summary.already_installed + 1;
            },
            _ => {
                self.summary.failed = self.summary.failed + 1;
            },
        }
    }

    /// The run ends when nothing is pending and nothing is in flight.
    pub fn is_done(&self) -> (b: bool)
        ensures
            b == (self.queue@.len() == 0 && self.active == 0),
    {
        self.queue.len() == 0 && self.active == 0
    }

    /// The counters so far; once `is_done`, the run's final summary.
    pub fn summary(&self) -> (s: RunSummary)
        ensures
            s == self.summary,
    {
        self.summary
    }
}

/// Bounded concurrency: a well-formed scheduler never has more than
/// `limit` tasks in flight, whatever the candidate list's length —
/// `new` starts within the bound and `start_next` and `complete` stay
/// within it.
pub proof fn lemma_bounded_concurrency(p: Pipeline)
    requires
        p.wf(),
    ensures
        p.active <= p.limit,
{
}

/// When a run is done, the outcome counters account for every
/// candidate: each one was installed, updated, already installed or
/// failed, and none was lost or counted twice.
pub proof fn lemma_run_accounting(p: Pipeline)
    requires
        p.wf(),
        p.queue@.len() == 0,
        p.active == 0,
    ensures
        p.summary.installed + p.summary.updated + p.summary.already_installed
            + p.summary.failed == p.total,
{
}

} // verus!
