//! The state machine of the Duenyas & Van Oyen (1996) reward-rate router,
//! graph-adapted.
//!
//! The router's indices — the switching index `β_j(i)` of a nonempty
//! current queue and the idling index `η_j(i)` of an empty one — are
//! computed on rates and shortest-path distances. Given their verdicts,
//! this module decides, and keeps the little memory the router needs:
//!
//!   * Movement is non-interruptible: while a committed target other than
//!     the current configuration is pending, the router keeps moving there
//!     and remembers nothing new.
//!   * Must-serve-on-arrival: after a setup completes at the committed
//!     target, at least one job is served there before anything else is
//!     considered. The very first decision counts as such an arrival at
//!     the starting configuration, which is set up before time zero.
//!   * Otherwise a nonempty current queue switches to the eligible
//!     higher-priority candidate, if there is one, and serves another job
//!     if not; an empty one switches to the idling rule's candidate when
//!     its backlog clears the strict threshold, and idles if not.

use vstd::prelude::*;

verus! {

/// The router's memory between decisions.
#[derive(Debug, Clone, Copy, PartialEq, Eq, Structural)]
pub struct DvoState {
    /// The lock the router believed active on the previous decision.
    pub last_effective_lock: Option<usize>,
    /// Whether a job has been served at that lock since it was set.
    pub served_since_arrival: bool,
    /// `true` until the first decision returns.
    pub first_call: bool,
}

/// What the router does next.
#[derive(Debug, Clone, Copy, PartialEq, Eq, Structural)]
pub enum DvoChoice {
    /// Serve one job at the current configuration.
    Serve,
    /// Move, without interruption, to this configuration and lock it.
    Commit(usize),
    /// Wait in place.
    Idle,
}

/// The lock a decision works with: the simulator's, or on the very first
/// decision the starting configuration, or else the one remembered.
pub open spec fn effective_lock(s: DvoState, current: usize, locked_target: Option<usize>) -> Option<usize> {
    match locked_target {
        Some(t) => Some(t),
        None => if s.first_call {
            Some(current)
        } else {
            s.last_effective_lock
        },
    }
}

/// One decision of the router and the memory it leaves.
///
/// `switch_target` is the eligible higher-priority candidate of the
/// switching rule, if any; `idle_target` is the idling rule's candidate
/// when it clears the strict threshold `Q_k > λ_k d(k, i)`, if any.
pub open spec fn dvo_transition(
    s: DvoState,
    current: usize,
    queue_lens: Seq<usize>,
    locked_target: Option<usize>,
    switch_target: Option<usize>,
    idle_target: Option<usize>,
) -> (DvoState, DvoChoice) {
    match locked_target {
        Some(t) if t != current => (s, DvoChoice::Commit(t)),
        _ => {
            let e = effective_lock(s, current, locked_target);
            let fresh = s.last_effective_lock != e;
            let served = if fresh {
                false
            } else {
                s.served_since_arrival
            };
            let s1 = DvoState { last_effective_lock: e, served_since_arrival: served, first_call: false };
            if e == Some(current) && queue_lens[current as int] > 0 && !served {
                (DvoState { served_since_arrival: true, ..s1 }, DvoChoice::Serve)
            } else if queue_lens[current as int] != 0 {
                match switch_target {
                    Some(j) => (
                        DvoState { last_effective_lock: Some(j), served_since_arrival: false, ..s1 },
                        DvoChoice::Commit(j),
                    ),
                    None => (DvoState { served_since_arrival: true, ..s1 }, DvoChoice::Serve),
                }
            } else {
                match idle_target {
                    Some(k) => (
                        DvoState { last_effective_lock: Some(k), served_since_arrival: false, ..s1 },
                        DvoChoice::Commit(k),
                    ),
                    None => (s1, DvoChoice::Idle),
                }
            }
        },
    }
}

/// The router's rules, stated case by case, `q` the queue here and `e`
/// the lock the decision works with (the simulator's, else the start on the
/// first decision, else the one remembered):
///   * a lock on another configuration is followed, memory untouched;
///   * otherwise, with `q > 0`, the router serves when `e` is here and no
///     job has been served since it was set; else it commits to the
///     switching candidate if there is one and serves if not;
///   * otherwise, with `q == 0`, it commits to the idling candidate if
///     there is one and waits if not, whether the lock is absent or here;
///   * every decision not in transit clears the first-call flag, a commit
///     remembers its target with nothing served yet, and a service is
///     remembered as served.
pub open spec fn dvo_step_rule(
    s: DvoState,
    current: usize,
    queue_lens: Seq<usize>,
    locked_target: Option<usize>,
    switch_target: Option<usize>,
    idle_target: Option<usize>,
    s2: DvoState,
    r: DvoChoice,
) -> bool {
    let q = queue_lens[current as int];
    let e = match locked_target {
        Some(t) => Some(t),
        None => if s.first_call {
            Some(current)
        } else {
            s.last_effective_lock
        },
    };
    let owed = e == Some(current) && (s.last_effective_lock != e || !s.served_since_arrival);
    match locked_target {
        Some(t) if t != current => r == DvoChoice::Commit(t) && s2 == s,
        _ => {
            &&& q > 0 && owed ==> r == DvoChoice::Serve
            &&& q > 0 && !owed ==> r == (match switch_target {
                Some(j) => DvoChoice::Commit(j),
                None => DvoChoice::Serve,
            })
            &&& q == 0 ==> r == (match idle_target {
                Some(k) => DvoChoice::Commit(k),
                None => DvoChoice::Idle,
            })
            &&& !s2.first_call
            &&& r matches DvoChoice::Commit(k) ==> s2.last_effective_lock == Some(k)
                && !s2.served_since_arrival
            &&& r == DvoChoice::Serve ==> s2.served_since_arrival && s2.last_effective_lock == e
        },
    }
}

/// Every decision of the router follows its rules: it follows a lock
/// elsewhere without replanning, serves once on arrival, switches or
/// serves at a nonempty queue, and at an empty one commits to the idling
/// candidate or waits, with or without a lock here.
pub proof fn lemma_dvo_step_rule(
    s: DvoState,
    current: usize,
    queue_lens: Seq<usize>,
    locked_target: Option<usize>,
    switch_target: Option<usize>,
    idle_target: Option<usize>,
)
    ensures
        ({
            let (s2, r) = dvo_transition(s, current, queue_lens, locked_target, switch_target, idle_target);
            dvo_step_rule(s, current, queue_lens, locked_target, switch_target, idle_target, s2, r)
        }),
{
}

impl DvoState {
    /// The memory of a router that has not decided yet.
    pub fn new() -> (r: DvoState)
        ensures
            r == (DvoState { last_effective_lock: None, served_since_arrival: false, first_call: true }),
    {
        DvoState { last_effective_lock: None, served_since_arrival: false, first_call: true }
    }

    /// Take one decision at `current`, updating the memory.
    pub fn step(
        &mut self,
        current: usize,
        queue_lens: &[usize],
        locked_target: Option<usize>,
        switch_target: Option<usize>,
        idle_target: Option<usize>,
    ) -> (r: DvoChoice)
        requires
            current < queue_lens@.len(),
            switch_target != Some(current),
            idle_target != Some(current),
        ensures
            r matches DvoChoice::Commit(t) ==> t != current,
            dvo_step_rule(*old(self), current, queue_lens@, locked_target, switch_target, idle_target, *final(self), r),
            (*final(self), r) == dvo_transition(
                *old(self),
                current,
                queue_lens@,
                locked_target,
                switch_target,
                idle_target,
            ),
    {
        if let Some(t_lock) = locked_target {
            if t_lock != current {
                return DvoChoice::Commit(t_lock);
            }
        }
        let effective = match locked_target {
            Some(t) => Some(t),
            None => if self.first_call {
                Some(current)
            } else {
                self.last_effective_lock
            },
        };
        self.first_call = false;
        if self.last_effective_lock != effective {
            self.last_effective_lock = effective;
            self.served_since_arrival = false;
        }
        if let Some(t) = effective {
            if t == current && queue_lens[current] > 0 && !self.served_since_arrival {
                self.served_since_arrival = true;
                return DvoChoice::Serve;
            }
        }
        if queue_lens[current] != 0 {
            if let Some(target) = switch_target {
                self.last_effective_lock = Some(target);
                self.served_since_arrival = false;
                return DvoChoice::Commit(target);
            }
            self.served_since_arrival = true;
            return DvoChoice::Serve;
        }
        if let Some(k) = idle_target {
            self.last_effective_lock = Some(k);
            self.served_since_arrival = false;
            return DvoChoice::Commit(k);
        }
        DvoChoice::Idle
    }
}

/// Movement is non-interruptible: while the lock names another
/// configuration, the router keeps moving there and its memory is
/// untouched, whatever the queues hold.
pub proof fn lemma_no_replanning_in_transit(
    s: DvoState,
    current: usize,
    queue_lens: Seq<usize>,
    t: usize,
    switch_target: Option<usize>,
    idle_target: Option<usize>,
)
    requires
        t != current,
    ensures
        dvo_transition(s, current, queue_lens, Some(t), switch_target, idle_target) == (
            s,
            DvoChoice::Commit(t),
        ),
{
}

/// Must-serve-on-arrival: on reaching a newly locked target that holds a
/// job, the router serves, however attractive another queue is.
pub proof fn lemma_serves_on_arrival(
    s: DvoState,
    current: usize,
    queue_lens: Seq<usize>,
    switch_target: Option<usize>,
    idle_target: Option<usize>,
)
    requires
        current < queue_lens.len(),
        queue_lens[current as int] > 0,
        s.last_effective_lock != Some(current),
    ensures
        dvo_transition(s, current, queue_lens, Some(current), switch_target, idle_target).1
            == DvoChoice::Serve,
{
}

/// The first decision is an arrival at the starting configuration: with a
/// job there, the router serves it first.
pub proof fn lemma_first_decision_serves_start(
    current: usize,
    queue_lens: Seq<usize>,
    switch_target: Option<usize>,
    idle_target: Option<usize>,
)
    requires
        current < queue_lens.len(),
        queue_lens[current as int] > 0,
    ensures
        dvo_transition(
            DvoState { last_effective_lock: None, served_since_arrival: false, first_call: true },
            current,
            queue_lens,
            None,
            switch_target,
            idle_target,
        ).1 == DvoChoice::Serve,
{
}

/// The must-serve rule fires once per arrival: asked again at the same
/// lock with the same queues, the router serves again only if no eligible
/// candidate beckons, and otherwise switches to it.
pub proof fn lemma_serves_once_then_switches(
    s: DvoState,
    current: usize,
    queue_lens: Seq<usize>,
    lock: Option<usize>,
    switch_target: Option<usize>,
    idle_target: Option<usize>,
)
    requires
        current < queue_lens.len(),
        queue_lens[current as int] > 0,
        lock == Some(current),
        dvo_transition(s, current, queue_lens, lock, switch_target, idle_target).1
            == DvoChoice::Serve,
    ensures
        ({
            let s2 = dvo_transition(s, current, queue_lens, lock, switch_target, idle_target).0;
            dvo_transition(s2, current, queue_lens, lock, switch_target, idle_target).1 == match switch_target {
                Some(j) => DvoChoice::Commit(j),
                None => DvoChoice::Serve,
            }
        }),
{
}

/// The router never moves to where it stands: every commitment names
/// another configuration, given candidates that do.
pub proof fn lemma_never_moves_in_place(
    s: DvoState,
    current: usize,
    queue_lens: Seq<usize>,
    locked_target: Option<usize>,
    switch_target: Option<usize>,
    idle_target: Option<usize>,
)
    requires
        switch_target != Some(current),
        idle_target != Some(current),
    ensures
        dvo_transition(s, current, queue_lens, locked_target, switch_target, idle_target).1 matches DvoChoice::Commit(t)
            ==> t != current,
{
}

/// The router never serves an empty queue and never idles at a nonempty
/// one it is not moving away from.
pub proof fn lemma_serves_only_waiting_work(
    s: DvoState,
    current: usize,
    queue_lens: Seq<usize>,
    locked_target: Option<usize>,
    switch_target: Option<usize>,
    idle_target: Option<usize>,
)
    requires
        current < queue_lens.len(),
    ensures
        dvo_transition(s, current, queue_lens, locked_target, switch_target, idle_target).1
            == DvoChoice::Serve ==> queue_lens[current as int] > 0,
        dvo_transition(s, current, queue_lens, locked_target, switch_target, idle_target).1
            == DvoChoice::Idle ==> queue_lens[current as int] == 0,
{
}

} // verus!
