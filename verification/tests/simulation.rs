use dartsim::event::EventKind;
use dartsim::simulation::{ServerCore, ServerState};

#[test]
fn server_starts_idle_and_committed_to_its_start() {
    let core = ServerCore::new(3, 1);
    assert_eq!(core.n(), 3);
    assert_eq!(core.queue_lens(), &[0, 0, 0]);
    assert_eq!(core.location(), 1);
    assert_eq!(core.locked_target(), Some(1));
    assert_eq!(core.state(), ServerState::Idle);
}

#[test]
fn arrivals_wake_only_an_idle_server() {
    let mut core = ServerCore::new(2, 0);
    assert!(core.arrive(1));
    assert_eq!(core.queue_lens(), &[0, 1]);
    core.start_switchover(1, Some(1));
    assert_eq!(core.state(), ServerState::Switching);
    assert!(!core.arrive(0));
    assert_eq!(core.queue_lens(), &[1, 1]);
}

#[test]
fn a_switchover_lands_at_its_target() {
    let mut core = ServerCore::new(3, 0);
    core.arrive(2);
    core.start_switchover(1, Some(2));
    assert_eq!(core.location(), 0);
    let at = core.complete_switchover();
    assert_eq!(at, 1);
    assert_eq!(core.location(), 1);
    assert_eq!(core.locked_target(), Some(2));
    assert_eq!(core.state(), ServerState::Idle);
}

#[test]
fn a_service_takes_one_job_from_the_servers_queue() {
    let mut core = ServerCore::new(2, 0);
    core.arrive(0);
    core.arrive(0);
    core.serve();
    assert_eq!(core.state(), ServerState::Serving);
    core.arrive(0);
    let at = core.complete_service();
    assert_eq!(at, 0);
    assert_eq!(core.queue_lens(), &[2, 0]);
    core.idle();
    assert_eq!(core.state(), ServerState::Idle);
}

#[test]
fn en_route_service_is_service_away_from_the_lock() {
    let mut core = ServerCore::new(3, 0);
    assert!(!core.serving_in_transit());
    core.arrive(1);
    core.start_switchover(1, Some(2));
    core.complete_switchover();
    assert!(core.serving_in_transit());
    core.start_switchover(2, None);
    core.complete_switchover();
    assert!(!core.serving_in_transit());
}

#[test]
fn events_drive_the_server_and_say_when_to_decide() {
    let mut core = ServerCore::new(3, 0);
    // An arrival at an idle server asks for a decision.
    assert_eq!(core.apply(EventKind::Arrival(2)), Some(false));
    assert_eq!(core.queue_lens(), &[0, 0, 1]);
    core.start_switchover(2, Some(2));
    assert_eq!(core.heading(), 2);
    // While the server moves, arrivals only queue up.
    assert_eq!(core.apply(EventKind::Arrival(0)), None);
    assert_eq!(core.apply(EventKind::Arrival(2)), None);
    // The reconfiguration ends: a decision right after arriving.
    assert_eq!(core.apply(EventKind::SwitchoverCompletion(2)), Some(true));
    assert_eq!(core.location(), 2);
    assert_eq!(core.state(), ServerState::Idle);
    core.serve();
    // The service ends: one job fewer here, and a decision.
    assert_eq!(core.apply(EventKind::ServiceCompletion), Some(false));
    assert_eq!(core.queue_lens(), &[1, 0, 1]);
    assert_eq!(core.state(), ServerState::Idle);
}

#[test]
fn jobs_are_conserved_across_events() {
    let mut core = ServerCore::new(2, 0);
    let total = |c: &ServerCore| c.queue_lens().iter().sum::<usize>();
    for k in 0..5 {
        core.apply(EventKind::Arrival(k % 2));
    }
    assert_eq!(total(&core), 5);
    core.serve();
    core.apply(EventKind::ServiceCompletion);
    assert_eq!(total(&core), 4);
    core.start_switchover(1, Some(1));
    core.apply(EventKind::SwitchoverCompletion(1));
    assert_eq!(total(&core), 4);
}
