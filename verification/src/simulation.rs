//! The server's discrete state machine and the derivation of replication
//! seeds.
//!
//! The event loop pops events in time order and applies each to the
//! server: a job arrival lengthens a queue, a service completion shortens
//! the queue the server stands at, and a completed reconfiguration puts
//! the server at its destination. Whenever the server is free the policy
//! is asked for its next action, which the state machine then applies:
//! serve one job here, reconfigure toward a neighbour, or wait.
//!
//! Times, durations and random draws belong to the event loop; what is
//! kept here is what they cannot change: where the server is, what it is
//! doing, what it has committed to, and how many jobs wait where.

pub mod seeding;

use vstd::prelude::*;

use crate::event::EventKind;

verus! {

/// What the server is doing between two events.
#[derive(Debug, Clone, Copy, PartialEq, Eq, Structural)]
pub enum ServerState {
    /// Waiting in place for an arrival.
    Idle,
    /// Serving one job at its location.
    Serving,
    /// Reconfiguring toward another configuration.
    Switching,
}

/// The abstract state of the server and its queues.
pub struct ServerView {
    /// Number of waiting jobs (including one in service) per configuration.
    pub queue_lens: Seq<usize>,
    /// Where the server stands.
    pub location: usize,
    /// Destination the policy committed to, if any.
    pub locked_target: Option<usize>,
    /// What the server is doing.
    pub state: ServerState,
    /// Destination of the reconfiguration in progress.
    pub heading: usize,
}

/// The server and its queues, as the event loop drives them.
pub struct ServerCore {
    queue_lens: Vec<usize>,
    location: usize,
    locked_target: Option<usize>,
    state: ServerState,
    heading: usize,
}

impl View for ServerCore {
    type V = ServerView;

    closed spec fn view(&self) -> ServerView {
        ServerView {
            queue_lens: self.queue_lens@,
            location: self.location,
            locked_target: self.locked_target,
            state: self.state,
            heading: self.heading,
        }
    }
}

/// The invariant of the running server: it stands at a configuration, a
/// reconfiguration in progress heads for one, and a service in progress
/// has its job waiting at the server's location.
pub open spec fn server_ok(v: ServerView) -> bool {
    &&& v.location < v.queue_lens.len()
    &&& v.heading < v.queue_lens.len()
    &&& (v.locked_target matches Some(t) ==> t < v.queue_lens.len())
    &&& (v.state == ServerState::Serving ==> v.queue_lens[v.location as int] >= 1)
}

impl ServerCore {
    /// The server at `start`, every queue empty, idle, with `start` as its
    /// committed target so that the policy serves there before moving, as
    /// it would after any other arrival at a committed target.
    pub fn new(n: usize, start: usize) -> (r: ServerCore)
        requires
            start < n,
        ensures
            r@.queue_lens == Seq::new(n as nat, |i: int| 0usize),
            r@.location == start,
            r@.locked_target == Some(start),
            r@.state == ServerState::Idle,
            server_ok(r@),
    {
        let mut queue_lens: Vec<usize> = Vec::new();
        let mut i: usize = 0;
        while i < n
            invariant
                i <= n,
                queue_lens@ == Seq::new(i as nat, |k: int| 0usize),
            decreases n - i,
        {
            queue_lens.push(0);
            i = i + 1;
        }
        ServerCore { queue_lens, location: start, locked_target: Some(start), state: ServerState::Idle, heading: start }
    }

    /// Number of configurations.
    pub fn n(&self) -> (r: usize)
        ensures
            r == self@.queue_lens.len(),
    {
        self.queue_lens.len()
    }

    /// Queue lengths, indexed by configuration.
    pub fn queue_lens(&self) -> (r: &[usize])
        ensures
            r@ == self@.queue_lens,
    {
        self.queue_lens.as_slice()
    }

    /// Where the server stands.
    pub fn location(&self) -> (r: usize)
        ensures
            r == self@.location,
    {
        self.location
    }

    /// The committed destination, if any.
    pub fn locked_target(&self) -> (r: Option<usize>)
        ensures
            r == self@.locked_target,
    {
        self.locked_target
    }

    /// Destination of the reconfiguration in progress, or of the last one.
    pub fn heading(&self) -> (r: usize)
        ensures
            r == self@.heading,
    {
        self.heading
    }

    /// What the server is doing.
    pub fn state(&self) -> (r: ServerState)
        ensures
            r == self@.state,
    {
        self.state
    }

    /// A job arrives at `i`. Returns `true` when the server was idle, the
    /// only case in which an arrival changes what it does next; otherwise
    /// the service or reconfiguration in flight finishes first.
    pub fn arrive(&mut self, i: usize) -> (wake: bool)
        requires
            server_ok(old(self)@),
            i < old(self)@.queue_lens.len(),
            old(self)@.queue_lens[i as int] < usize::MAX,
        ensures
            server_ok(final(self)@),
            final(self)@.queue_lens == old(self)@.queue_lens.update(
                i as int,
                (old(self)@.queue_lens[i as int] + 1) as usize,
            ),
            final(self)@.location == old(self)@.location,
            final(self)@.locked_target == old(self)@.locked_target,
            final(self)@.state == old(self)@.state,
            final(self)@.heading == old(self)@.heading,
            wake == (old(self)@.state == ServerState::Idle),
    {
        let l = self.queue_lens[i];
        self.queue_lens.set(i, l + 1);
        self.state == ServerState::Idle
    }

    /// The service in progress completes: one job leaves the queue at the
    /// server's location, which is returned.
    pub fn complete_service(&mut self) -> (at: usize)
        requires
            server_ok(old(self)@),
            old(self)@.state == ServerState::Serving,
        ensures
            server_ok(final(self)@),
            at == old(self)@.location,
            final(self)@.queue_lens == old(self)@.queue_lens.update(
                at as int,
                (old(self)@.queue_lens[at as int] - 1) as usize,
            ),
            final(self)@.location == old(self)@.location,
            final(self)@.locked_target == old(self)@.locked_target,
            final(self)@.state == ServerState::Idle,
            final(self)@.heading == old(self)@.heading,
    {
        let at = self.location;
        let l = self.queue_lens[at];
        self.queue_lens.set(at, l - 1);
        self.state = ServerState::Idle;
        at
    }

    /// The reconfiguration in progress completes: the server now stands at
    /// its destination, which is returned.
    pub fn complete_switchover(&mut self) -> (at: usize)
        requires
            server_ok(old(self)@),
            old(self)@.state == ServerState::Switching,
        ensures
            server_ok(final(self)@),
            at == old(self)@.heading,
            final(self)@.location == old(self)@.heading,
            final(self)@.queue_lens == old(self)@.queue_lens,
            final(self)@.locked_target == old(self)@.locked_target,
            final(self)@.state == ServerState::Idle,
            final(self)@.heading == old(self)@.heading,
    {
        self.location = self.heading;
        self.state = ServerState::Idle;
        self.location
    }

    /// Start serving one job at the server's location.
    pub fn serve(&mut self)
        requires
            server_ok(old(self)@),
            old(self)@.queue_lens[old(self)@.location as int] > 0,
        ensures
            server_ok(final(self)@),
            final(self)@ == (ServerView { state: ServerState::Serving, ..old(self)@ }),
    {
        self.state = ServerState::Serving;
    }

    /// A service that counts as en-route: it happens at one configuration
    /// while a different one is the committed target.
    pub fn serving_in_transit(&self) -> (r: bool)
        ensures
            r == (self@.locked_target matches Some(t) && t != self@.location),
    {
        match self.locked_target {
            Some(t) => t != self.location,
            None => false,
        }
    }

    /// Start reconfiguring toward `target`, recording `lock` as the
    /// committed destination.
    pub fn start_switchover(&mut self, target: usize, lock: Option<usize>)
        requires
            server_ok(old(self)@),
            target < old(self)@.queue_lens.len(),
            lock matches Some(t) ==> t < old(self)@.queue_lens.len(),
        ensures
            server_ok(final(self)@),
            final(self)@ == (ServerView {
                state: ServerState::Switching,
                heading: target,
                locked_target: lock,
                ..old(self)@
            }),
    {
        self.locked_target = lock;
        self.heading = target;
        self.state = ServerState::Switching;
    }

    /// Wait in place. The lock is kept: if the wait later ends in a move,
    /// the policy still needs to know which target it committed to.
    pub fn idle(&mut self)
        requires
            server_ok(old(self)@),
        ensures
            server_ok(final(self)@),
            final(self)@ == (ServerView { state: ServerState::Idle, ..old(self)@ }),
    {
        self.state = ServerState::Idle;
    }
}

/// Whether `ev` can happen to a server in state `v`: an arrival names a
/// configuration whose queue can grow, a service completion needs a service
/// in progress, and a reconfiguration completes at the destination it was
/// started toward.
pub open spec fn event_ok(v: ServerView, ev: EventKind) -> bool {
    match ev {
        EventKind::Arrival(i) => i < v.queue_lens.len() && v.queue_lens[i as int] < usize::MAX,
        EventKind::ServiceCompletion => v.state == ServerState::Serving,
        EventKind::SwitchoverCompletion(t) => v.state == ServerState::Switching && t == v.heading,
    }
}

/// The server after event `ev`.
pub open spec fn after_event(v: ServerView, ev: EventKind) -> ServerView {
    match ev {
        EventKind::Arrival(i) => ServerView {
            queue_lens: v.queue_lens.update(i as int, (v.queue_lens[i as int] + 1) as usize),
            ..v
        },
        EventKind::ServiceCompletion => ServerView {
            queue_lens: v.queue_lens.update(
                v.location as int,
                (v.queue_lens[v.location as int] - 1) as usize,
            ),
            state: ServerState::Idle,
            ..v
        },
        EventKind::SwitchoverCompletion(t) => ServerView { location: t, state: ServerState::Idle, ..v },
    }
}

/// Whether the policy is consulted after event `ev` hit a server in state
/// `v`, and if so whether the server has just completed a reconfiguration.
/// An arrival changes what the server does only when it was idle; the
/// other events free the server.
pub open spec fn followup(v: ServerView, ev: EventKind) -> Option<bool> {
    match ev {
        EventKind::Arrival(_) => if v.state == ServerState::Idle {
            Some(false)
        } else {
            None
        },
        EventKind::ServiceCompletion => Some(false),
        EventKind::SwitchoverCompletion(_) => Some(true),
    }
}

impl ServerCore {
    /// Apply event `ev` to the server. Returns `Some(just_arrived)` when the
    /// policy must now decide what the server does next, `None` when the
    /// service or reconfiguration in flight continues.
    pub fn apply(&mut self, ev: EventKind) -> (r: Option<bool>)
        requires
            server_ok(old(self)@),
            event_ok(old(self)@, ev),
        ensures
            server_ok(final(self)@),
            final(self)@ == after_event(old(self)@, ev),
            r == followup(old(self)@, ev),
            ev is Arrival ==> (r is None <==> old(self)@.state != ServerState::Idle),
            ev is Arrival && old(self)@.state == ServerState::Idle ==> r == Some(false),
            ev is ServiceCompletion ==> r == Some(false),
            ev is SwitchoverCompletion ==> r == Some(true),
            event_moves_jobs(old(self)@, final(self)@, ev),
    {
        match ev {
            EventKind::Arrival(i) => {
                if self.arrive(i) {
                    Some(false)
                } else {
                    None
                }
            },
            EventKind::ServiceCompletion => {
                self.complete_service();
                Some(false)
            },
            EventKind::SwitchoverCompletion(_) => {
                self.complete_switchover();
                Some(true)
            },
        }
    }
}

/// What an event does to the server, stated field by field: an arrival
/// lengthens the queue it names by one and touches nothing else; a service
/// completion shortens the queue where the server stands by one and frees
/// the server; a completed reconfiguration puts the server at the event's
/// configuration, frees it, and moves no job.
pub open spec fn event_moves_jobs(v: ServerView, w: ServerView, ev: EventKind) -> bool {
    &&& w.queue_lens.len() == v.queue_lens.len()
    &&& w.locked_target == v.locked_target
    &&& w.heading == v.heading
    &&& match ev {
        EventKind::Arrival(i) => {
            &&& w.queue_lens[i as int] == v.queue_lens[i as int] + 1
            &&& forall|j: int| 0 <= j < v.queue_lens.len() && j != i ==> w.queue_lens[j] == v.queue_lens[j]
            &&& w.location == v.location
            &&& w.state == v.state
        },
        EventKind::ServiceCompletion => {
            &&& w.queue_lens[v.location as int] == v.queue_lens[v.location as int] - 1
            &&& forall|j: int|
                0 <= j < v.queue_lens.len() && j != v.location ==> w.queue_lens[j] == v.queue_lens[j]
            &&& w.location == v.location
            &&& w.state == ServerState::Idle
        },
        EventKind::SwitchoverCompletion(t) => {
            &&& w.queue_lens == v.queue_lens
            &&& w.location == t
            &&& w.state == ServerState::Idle
        },
    }
}

/// Each event changes the server exactly as it should, and the policy is
/// consulted after an arrival exactly when the server was idle: an arrival
/// during a service or a reconfiguration leaves the policy alone, since
/// the work in flight finishes first.
pub proof fn lemma_event_effects(v: ServerView, ev: EventKind)
    requires
        server_ok(v),
        event_ok(v, ev),
    ensures
        event_moves_jobs(v, after_event(v, ev), ev),
        server_ok(after_event(v, ev)),
        ev is Arrival ==> (followup(v, ev) is None <==> v.state != ServerState::Idle),
        ev is Arrival && v.state == ServerState::Idle ==> followup(v, ev) == Some(false),
        ev is ServiceCompletion ==> followup(v, ev) == Some(false),
        ev is SwitchoverCompletion ==> followup(v, ev) == Some(true),
{
}

/// The number of jobs waiting in the whole system.
pub open spec fn total_jobs(queue_lens: Seq<usize>) -> int
    decreases queue_lens.len(),
{
    if queue_lens.len() == 0 {
        0
    } else {
        total_jobs(queue_lens.drop_last()) + queue_lens.last()
    }
}

/// Changing one queue changes the total by the same amount.
proof fn lemma_total_jobs_update(q: Seq<usize>, i: int, x: usize)
    requires
        0 <= i < q.len(),
    ensures
        total_jobs(q.update(i, x)) == total_jobs(q) - q[i] + x,
    decreases q.len(),
{
    let u = q.update(i, x);
    if i == q.len() - 1 {
        assert(u.drop_last() =~= q.drop_last());
    } else {
        lemma_total_jobs_update(q.drop_last(), i, x);
        assert(u.drop_last() =~= q.drop_last().update(i, x));
    }
}

/// Jobs are neither lost nor created: an arrival adds one job to the
/// system, a service completion removes one, and the end of a
/// reconfiguration moves none.
pub proof fn lemma_jobs_conserved(v: ServerView, ev: EventKind)
    requires
        server_ok(v),
        event_ok(v, ev),
    ensures
        total_jobs(after_event(v, ev).queue_lens) == total_jobs(v.queue_lens) + match ev {
            EventKind::Arrival(_) => 1int,
            EventKind::ServiceCompletion => -1int,
            EventKind::SwitchoverCompletion(_) => 0int,
        },
{
    match ev {
        EventKind::Arrival(i) => {
            lemma_total_jobs_update(v.queue_lens, i as int, (v.queue_lens[i as int] + 1) as usize);
        },
        EventKind::ServiceCompletion => {
            lemma_total_jobs_update(
                v.queue_lens,
                v.location as int,
                (v.queue_lens[v.location as int] - 1) as usize,
            );
        },
        EventKind::SwitchoverCompletion(_) => {},
    }
}

/// A service in progress always has its job: while the server serves, the
/// queue at its location is nonempty, so the completion never finds an
/// empty queue.
pub proof fn lemma_serving_has_a_job(v: ServerView)
    requires
        server_ok(v),
        v.state == ServerState::Serving,
    ensures
        v.queue_lens[v.location as int] >= 1,
{
}

} // verus!
