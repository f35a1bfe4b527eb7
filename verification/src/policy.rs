//! The integer side of the scheduling policies.
//!
//! A policy answers one question: given where the server is, how much work
//! waits at each configuration, and a little context, what should the
//! server do next — serve here, reconfigure along one edge, or wait? A
//! policy that commits to a multi-hop target records it as a lock, which
//! the simulator feeds back on the next decision.
//!
//! The scores the policies rank configurations by are computed on rates
//! and times by the simulator; what lives here is the logic around them:
//! DART's commitment rule and how its decisions end, the Duenyas-Van Oyen
//! router's state machine, and the candidate sequences of Tian's `K`-stop
//! index with the rule that turns its choice into a step.

pub mod dart;
pub mod dvo;
pub mod tian;

use vstd::prelude::*;

verus! {

/// What the server does next, as a policy's integer logic decides it.
#[derive(Debug, Clone, Copy, PartialEq, Eq, Structural)]
pub enum Step {
    /// Serve one job at the current configuration.
    Serve,
    /// Wait in place.
    Idle,
    /// Reconfigure along one edge to `hop`, committing to `lock` if any.
    Move { hop: usize, lock: Option<usize> },
}

/// Serve where a job waits here, wait otherwise.
pub open spec fn serve_or_idle(current: usize, queue_lens: Seq<usize>) -> Step {
    if queue_lens[current as int] > 0 {
        Step::Serve
    } else {
        Step::Idle
    }
}

/// Serve where a job waits here, wait otherwise.
pub fn serve_or_idle_here(current: usize, queue_lens: &[usize]) -> (r: Step)
    requires
        current < queue_lens@.len(),
    ensures
        r == serve_or_idle(current, queue_lens@),
{
    if queue_lens[current] > 0 {
        Step::Serve
    } else {
        Step::Idle
    }
}

/// Some configuration holds a job.
pub open spec fn any_waiting(queue_lens: Seq<usize>) -> bool {
    exists|i: int| 0 <= i < queue_lens.len() && queue_lens[i] > 0
}

/// Whether any configuration holds a job.
pub fn has_work(queue_lens: &[usize]) -> (r: bool)
    ensures
        r == any_waiting(queue_lens@),
{
    let mut i: usize = 0;
    while i < queue_lens.len()
        invariant
            i <= queue_lens.len(),
            forall|k: int| 0 <= k < i ==> queue_lens@[k] == 0,
        decreases queue_lens.len() - i,
    {
        if queue_lens[i] > 0 {
            return true;
        }
        i = i + 1;
    }
    false
}

} // verus!
