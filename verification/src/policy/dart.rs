//! DART's commitment rule.
//!
//! DART picks the target of highest urgency, commits to a shortest path
//! toward it, and holds that commitment until the target is reached, so
//! the server cannot be pulled into a myopic detour part-way there. The
//! urgency and the serve-or-move guards are computed on ages, rates and
//! distances; this module decides, before any of them is needed, whether
//! the decision is already settled by the commitment:
//!
//!   * with no job anywhere, the server idles;
//!   * on physically arriving at the committed target with work there, it
//!     serves at least once before re-deciding — without this an age-
//!     ranked policy could arrive, see the age it travelled to relieve
//!     ranked second, and leave again without serving;
//!   * an existing commitment is kept while it is still meaningful: a
//!     different, still-nonempty configuration reachable from here;
//!   * otherwise — a lock at the current location, at a configuration that
//!     has drained, or no lock at all — the target is chosen afresh.

use vstd::prelude::*;
use crate::policy::{any_waiting, serve_or_idle, serve_or_idle_here, Step};

verus! {

/// How a DART decision starts.
#[derive(Debug, Clone, Copy, PartialEq, Eq, Structural)]
pub enum DartPlan {
    /// No job anywhere: wait.
    Idle,
    /// Just arrived at the committed target, which holds work: serve.
    ServeOnArrival,
    /// Keep heading for the committed target.
    Keep(usize),
    /// Choose the target afresh by urgency.
    Choose,
}

/// The commitment rule. `reachable[t]` says whether `t` can be reached from
/// `current`.
pub open spec fn dart_plan_spec(
    current: usize,
    queue_lens: Seq<usize>,
    locked_target: Option<usize>,
    just_arrived: bool,
    reachable: Seq<bool>,
) -> DartPlan {
    if !any_waiting(queue_lens) {
        DartPlan::Idle
    } else if just_arrived && locked_target == Some(current) && queue_lens[current as int] > 0 {
        DartPlan::ServeOnArrival
    } else {
        match locked_target {
            Some(t) => if t != current && queue_lens[t as int] > 0 && reachable[t as int] {
                DartPlan::Keep(t)
            } else {
                DartPlan::Choose
            },
            None => DartPlan::Choose,
        }
    }
}

/// The commitment rule, stated case by case. The server waits exactly when
/// no job waits anywhere. Having just arrived at its lock with work there,
/// it serves, and serves on arrival in no other case. A lock on another
/// configuration that holds work and can be reached is kept, and only such
/// a lock is kept. In every other case with work somewhere the target is
/// chosen afresh.
pub open spec fn commitment_rule(
    current: usize,
    queue_lens: Seq<usize>,
    locked_target: Option<usize>,
    just_arrived: bool,
    reachable: Seq<bool>,
    r: DartPlan,
) -> bool {
    let nothing_waits = forall|j: int| 0 <= j < queue_lens.len() ==> queue_lens[j] == 0;
    let arrived = just_arrived && locked_target == Some(current) && queue_lens[current as int] > 0;
    let live = locked_target matches Some(t) && t != current && queue_lens[t as int] > 0
        && reachable[t as int];
    &&& (r == DartPlan::Idle <==> nothing_waits)
    &&& (r == DartPlan::ServeOnArrival <==> arrived)
    &&& (r is Keep <==> live)
    &&& (r matches DartPlan::Keep(t) ==> locked_target == Some(t))
    &&& (r == DartPlan::Choose <==> !nothing_waits && !arrived && !live)
}

/// The commitment rule holds of every decision: waiting exactly when
/// nothing waits, serving on arrival exactly at a lock with work, keeping
/// exactly a live lock, and choosing afresh otherwise.
pub proof fn lemma_commitment_rule(
    current: usize,
    queue_lens: Seq<usize>,
    locked_target: Option<usize>,
    just_arrived: bool,
    reachable: Seq<bool>,
)
    requires
        current < queue_lens.len(),
        reachable.len() == queue_lens.len(),
        locked_target matches Some(t) ==> t < queue_lens.len(),
    ensures
        commitment_rule(
            current,
            queue_lens,
            locked_target,
            just_arrived,
            reachable,
            dart_plan_spec(current, queue_lens, locked_target, just_arrived, reachable),
        ),
{
    let r = dart_plan_spec(current, queue_lens, locked_target, just_arrived, reachable);
    if any_waiting(queue_lens) {
        let w = choose|w: int| 0 <= w < queue_lens.len() && queue_lens[w] > 0;
        assert(queue_lens[w] > 0);
    } else {
        assert forall|j: int| 0 <= j < queue_lens.len() implies queue_lens[j] == 0 by {
            if queue_lens[j] > 0 {
                assert(any_waiting(queue_lens));
            }
        }
    }
}

/// Start a DART decision at `current`.
pub fn plan(
    current: usize,
    queue_lens: &[usize],
    locked_target: Option<usize>,
    just_arrived: bool,
    reachable: &[bool],
) -> (r: DartPlan)
    requires
        current < queue_lens@.len(),
        reachable@.len() == queue_lens@.len(),
        locked_target matches Some(t) ==> t < queue_lens@.len(),
    ensures
        r == dart_plan_spec(current, queue_lens@, locked_target, just_arrived, reachable@),
        commitment_rule(current, queue_lens@, locked_target, just_arrived, reachable@, r),
{
    if !crate::policy::has_work(queue_lens) {
        return DartPlan::Idle;
    }
    if just_arrived {
        if let Some(t) = locked_target {
            if t == current && queue_lens[current] > 0 {
                return DartPlan::ServeOnArrival;
            }
        }
    }
    match locked_target {
        Some(t) => {
            if t != current && queue_lens[t] > 0 && reachable[t] {
                DartPlan::Keep(t)
            } else {
                DartPlan::Choose
            }
        },
        None => DartPlan::Choose,
    }
}

/// A configuration DART may choose as its target from `current`: another
/// one, holding work, that can be reached from here and left again.
pub open spec fn eligible(
    current: usize,
    queue_lens: Seq<usize>,
    reach_to: Seq<bool>,
    reach_back: Seq<bool>,
    k: int,
) -> bool {
    k != current && queue_lens[k] > 0 && reach_to[k] && reach_back[k]
}

/// The targets DART ranks by urgency, in increasing order: every eligible
/// configuration. `reach_to[k]` says whether `k` can be reached from
/// `current`, `reach_back[k]` whether `current` can be reached from `k`.
pub fn eligible_targets(
    current: usize,
    queue_lens: &[usize],
    reach_to: &[bool],
    reach_back: &[bool],
) -> (r: Vec<usize>)
    requires
        reach_to@.len() == queue_lens@.len(),
        reach_back@.len() == queue_lens@.len(),
    ensures
        forall|k: usize|
            #[trigger] r@.contains(k) <==> (k < queue_lens@.len() && eligible(
                current,
                queue_lens@,
                reach_to@,
                reach_back@,
                k as int,
            )),
        forall|a: int, b: int| 0 <= a < b < r@.len() ==> r@[a] < r@[b],
{
    let n = queue_lens.len();
    let mut out: Vec<usize> = Vec::new();
    let mut k: usize = 0;
    while k < n
        invariant
            n == queue_lens@.len(),
            reach_to@.len() == n,
            reach_back@.len() == n,
            k <= n,
            forall|x: usize|
                #[trigger] out@.contains(x) <==> (x < k && eligible(
                    current,
                    queue_lens@,
                    reach_to@,
                    reach_back@,
                    x as int,
                )),
            forall|a: int, b: int| 0 <= a < b < out@.len() ==> out@[a] < out@[b],
            forall|a: int| 0 <= a < out@.len() ==> out@[a] < k,
        decreases n - k,
    {
        if k != current && queue_lens[k] > 0 && reach_to[k] && reach_back[k] {
            let ghost before = out@;
            out.push(k);
            assert forall|x: usize| #[trigger] out@.contains(x) <==> (x < k + 1 && eligible(
                current,
                queue_lens@,
                reach_to@,
                reach_back@,
                x as int,
            )) by {
                if x == k {
                    assert(out@[before.len() as int] == k);
                } else if out@.contains(x) {
                    let w = choose|w: int| 0 <= w < out@.len() && out@[w] == x;
                    assert(w < before.len());
                    assert(before.contains(x));
                } else if before.contains(x) {
                    let w = choose|w: int| 0 <= w < before.len() && before[w] == x;
                    assert(out@[w] == x);
                }
            }
        }
        k = k + 1;
    }
    out
}

/// How a DART decision ends, once its target is settled. With no target
/// the server serves here or waits. With a target it serves here when a
/// job waits and one of the two guards opens (`guard_opens`, computed on
/// ages, rates and distances), and otherwise takes the first hop toward
/// the target, `next_hops[target]`, keeping the target as its lock.
pub open spec fn dart_act_spec(
    current: usize,
    queue_lens: Seq<usize>,
    target: Option<usize>,
    guard_opens: bool,
    next_hops: Seq<Option<usize>>,
) -> Step {
    match target {
        None => serve_or_idle(current, queue_lens),
        Some(t) => if queue_lens[current as int] > 0 && guard_opens {
            Step::Serve
        } else {
            Step::Move { hop: next_hops[t as int].unwrap(), lock: Some(t) }
        },
    }
}

/// End a DART decision at `current`: `target` is the kept or chosen
/// target, and `next_hops` the first hops from `current`.
pub fn act(
    current: usize,
    queue_lens: &[usize],
    target: Option<usize>,
    guard_opens: bool,
    next_hops: &[Option<usize>],
) -> (r: Step)
    requires
        current < queue_lens@.len(),
        target matches Some(t) ==> t < next_hops@.len(),
        target matches Some(t) ==> (queue_lens@[current as int] > 0 && guard_opens)
            || next_hops@[t as int] is Some,
    ensures
        r == dart_act_spec(current, queue_lens@, target, guard_opens, next_hops@),
        target is None ==> (r == Step::Serve <==> queue_lens@[current as int] > 0),
        target is None ==> (r == Step::Idle <==> queue_lens@[current as int] == 0),
        (target is Some) && queue_lens@[current as int] > 0 && guard_opens ==> r == Step::Serve,
        match target {
            Some(t) => !(queue_lens@[current as int] > 0 && guard_opens) ==> r == (Step::Move {
                hop: next_hops@[t as int].unwrap(),
                lock: Some(t),
            }),
            None => true,
        },
{
    match target {
        None => serve_or_idle_here(current, queue_lens),
        Some(t) => {
            if queue_lens[current] > 0 && guard_opens {
                Step::Serve
            } else {
                Step::Move { hop: next_hops[t].unwrap(), lock: Some(t) }
            }
        },
    }
}

/// A DART move keeps its target as the lock, so the commitment survives
/// the hop; it serves only where a job waits and waits only where none
/// does.
pub proof fn lemma_moves_keep_the_target(
    current: usize,
    queue_lens: Seq<usize>,
    target: Option<usize>,
    guard_opens: bool,
    next_hops: Seq<Option<usize>>,
)
    requires
        current < queue_lens.len(),
    ensures
        dart_act_spec(current, queue_lens, target, guard_opens, next_hops) matches Step::Move { lock, .. }
            ==> lock == target && target is Some,
        dart_act_spec(current, queue_lens, target, guard_opens, next_hops) == Step::Serve
            ==> queue_lens[current as int] > 0,
        dart_act_spec(current, queue_lens, target, guard_opens, next_hops) == Step::Idle
            ==> queue_lens[current as int] == 0,
{
}

/// A whole DART decision: the commitment rule, then, when the target is
/// chosen afresh, the `chosen` one, then how the decision ends.
pub open spec fn dart_decision(
    current: usize,
    queue_lens: Seq<usize>,
    locked_target: Option<usize>,
    just_arrived: bool,
    reach_to: Seq<bool>,
    chosen: Option<usize>,
    guard_opens: bool,
    next_hops: Seq<Option<usize>>,
) -> Step {
    match dart_plan_spec(current, queue_lens, locked_target, just_arrived, reach_to) {
        DartPlan::Idle => Step::Idle,
        DartPlan::ServeOnArrival => Step::Serve,
        DartPlan::Keep(t) => dart_act_spec(current, queue_lens, Some(t), guard_opens, next_hops),
        DartPlan::Choose => dart_act_spec(current, queue_lens, chosen, guard_opens, next_hops),
    }
}

/// DART waits only when no job waits anywhere. This holds when every
/// configuration can be reached from the current one and left back to it,
/// as validation demands, and when a target is chosen exactly when one is
/// eligible, as ranking the eligible targets does.
pub proof fn lemma_idles_only_when_no_job_waits(
    current: usize,
    queue_lens: Seq<usize>,
    locked_target: Option<usize>,
    just_arrived: bool,
    reach_to: Seq<bool>,
    reach_back: Seq<bool>,
    chosen: Option<usize>,
    guard_opens: bool,
    next_hops: Seq<Option<usize>>,
)
    requires
        current < queue_lens.len(),
        reach_to.len() == queue_lens.len(),
        reach_back.len() == queue_lens.len(),
        forall|k: int| 0 <= k < queue_lens.len() ==> #[trigger] reach_to[k] && reach_back[k],
        chosen is None <==> forall|k: int|
            0 <= k < queue_lens.len() ==> !#[trigger] eligible(current, queue_lens, reach_to, reach_back, k),
    ensures
        (dart_decision(
            current,
            queue_lens,
            locked_target,
            just_arrived,
            reach_to,
            chosen,
            guard_opens,
            next_hops,
        ) == Step::Idle) <==> !any_waiting(queue_lens),
{
    if any_waiting(queue_lens) {
        let w = choose|w: int| 0 <= w < queue_lens.len() && queue_lens[w] > 0;
        if queue_lens[current as int] == 0 {
            assert(eligible(current, queue_lens, reach_to, reach_back, w));
        }
    }
}

/// Commitment holds: a lock on another configuration that is reachable and
/// still holds work is kept, whether or not the server has just arrived
/// somewhere on the way.
pub proof fn lemma_keeps_live_commitment(
    current: usize,
    queue_lens: Seq<usize>,
    t: usize,
    just_arrived: bool,
    reachable: Seq<bool>,
)
    requires
        current < queue_lens.len(),
        t < queue_lens.len(),
        t != current,
        queue_lens[t as int] > 0,
        reachable[t as int],
    ensures
        dart_plan_spec(current, queue_lens, Some(t), just_arrived, reachable) == DartPlan::Keep(t),
{
}

/// A commitment to a configuration that has drained is released: the
/// target is chosen afresh while work waits elsewhere.
pub proof fn lemma_releases_drained_commitment(
    current: usize,
    queue_lens: Seq<usize>,
    t: usize,
    just_arrived: bool,
    reachable: Seq<bool>,
)
    requires
        current < queue_lens.len(),
        t < queue_lens.len(),
        t != current,
        queue_lens[t as int] == 0,
        any_waiting(queue_lens),
    ensures
        dart_plan_spec(current, queue_lens, Some(t), just_arrived, reachable) == DartPlan::Choose,
{
}

/// The server idles exactly when no job waits anywhere, and serves on
/// arrival only where a job waits.
pub proof fn lemma_idles_only_when_empty(
    current: usize,
    queue_lens: Seq<usize>,
    locked_target: Option<usize>,
    just_arrived: bool,
    reachable: Seq<bool>,
)
    requires
        current < queue_lens.len(),
    ensures
        (dart_plan_spec(current, queue_lens, locked_target, just_arrived, reachable)
            == DartPlan::Idle) == !any_waiting(queue_lens),
        dart_plan_spec(current, queue_lens, locked_target, just_arrived, reachable)
            == DartPlan::ServeOnArrival ==> queue_lens[current as int] > 0,
        dart_plan_spec(current, queue_lens, locked_target, just_arrived, reachable) matches DartPlan::Keep(t)
            ==> t != current && queue_lens[t as int] > 0,
{
}

} // verus!
