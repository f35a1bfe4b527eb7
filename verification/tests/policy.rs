use dartsim::policy::dart::{act as dart_act, eligible_targets, plan, DartPlan};
use dartsim::policy::dvo::{DvoChoice, DvoState};
use dartsim::policy::{has_work, serve_or_idle_here, Step};
use dartsim::policy::tian::{act as tian_act, build_domain, enumerate_sequences, serves_on_arrival};

#[test]
fn full_k_stop_allows_current_after_first_stop() {
    // Two configurations, each reachable from the other; current 0, K = 2.
    let domain = build_domain(0, &[false, true]);
    assert!(
        domain.contains(&0),
        "current queue must remain in the domain for later sequence positions"
    );
    assert!(domain.contains(&1));
    let seqs = enumerate_sequences(2, 0, &domain, 2usize.min(domain.len()), 100);
    assert_eq!(
        seqs.len(),
        2,
        "with domain {{0,1}} and current 0, Tian should score [1] and [1,0]"
    );
    assert_eq!(seqs, vec![vec![1], vec![1, 0]]);
}

#[test]
fn tian_sequences_come_in_depth_first_preorder() {
    let domain = build_domain(0, &[true, true, true]);
    assert_eq!(domain, vec![0, 1, 2]);
    let seqs = enumerate_sequences(3, 0, &domain, 2, 100);
    assert_eq!(
        seqs,
        vec![vec![1], vec![1, 0], vec![1, 2], vec![2], vec![2, 0], vec![2, 1]]
    );
}

#[test]
fn tian_enumeration_stops_at_the_cap() {
    let domain = vec![0, 1, 2, 3];
    let seqs = enumerate_sequences(4, 0, &domain, 3, 4);
    assert_eq!(seqs, vec![vec![1], vec![1, 0], vec![1, 0, 2], vec![1, 0, 3]]);
    // A cap of zero still scores one sequence.
    assert_eq!(enumerate_sequences(4, 0, &domain, 3, 0), vec![vec![1]]);
}

#[test]
fn tian_domain_leaves_out_unreachable_configurations() {
    assert_eq!(build_domain(1, &[false, false, true, false]), vec![1, 2]);
    let seqs = enumerate_sequences(4, 1, &[1, 2], 4, 100);
    assert_eq!(seqs, vec![vec![2], vec![2, 1]]);
}

#[test]
fn all_empty_idles() {
    assert!(!has_work(&[0, 0, 0, 0]));
    assert!(has_work(&[0, 0, 1, 0]));
    assert_eq!(plan(1, &[0, 0, 0, 0], None, false, &[true; 4]), DartPlan::Idle);
}

#[test]
fn serve_on_arrival_at_locked_target() {
    assert_eq!(
        plan(3, &[5, 0, 0, 2], Some(3), true, &[true; 4]),
        DartPlan::ServeOnArrival
    );
    // Not just arrived: the lock at the current location is stale.
    assert_eq!(plan(0, &[4, 0, 0, 0], Some(0), false, &[true; 4]), DartPlan::Choose);
}

#[test]
fn keeps_locked_destination() {
    assert_eq!(plan(0, &[0, 1, 0, 4], Some(3), false, &[true; 4]), DartPlan::Keep(3));
}

#[test]
fn dart_releases_a_drained_or_unreachable_commitment() {
    assert_eq!(plan(0, &[0, 3, 0, 0], Some(3), false, &[true; 4]), DartPlan::Choose);
    assert_eq!(
        plan(0, &[0, 3, 0, 2], Some(3), false, &[true, true, true, false]),
        DartPlan::Choose
    );
    assert_eq!(plan(0, &[0, 3, 0, 2], None, false, &[true; 4]), DartPlan::Choose);
}

#[test]
fn must_serve_one_after_setup() {
    let mut s = DvoState::new();
    let q = [0usize, 3, 100];
    assert_eq!(s.step(1, &q, Some(1), Some(2), None), DvoChoice::Serve);
    assert_eq!(s.step(1, &q, Some(1), Some(2), None), DvoChoice::Commit(2));
}

#[test]
fn no_replanning_during_transit() {
    let mut s = DvoState::new();
    let before = s;
    assert_eq!(s.step(1, &[0, 1000, 5], Some(2), Some(0), Some(0)), DvoChoice::Commit(2));
    assert_eq!(s, before);
}

#[test]
fn dvo_first_decision_serves_the_start() {
    let mut s = DvoState::new();
    assert_eq!(s.step(0, &[3, 7], None, Some(1), None), DvoChoice::Serve);
    assert!(!s.first_call);
    assert_eq!(s.last_effective_lock, Some(0));
}

#[test]
fn dvo_idles_or_switches_at_an_empty_queue() {
    let mut s = DvoState::new();
    assert_eq!(s.step(0, &[0, 0], None, None, None), DvoChoice::Idle);
    assert_eq!(s.step(0, &[0, 1], None, None, None), DvoChoice::Idle);
    assert_eq!(s.step(0, &[0, 100], None, None, Some(1)), DvoChoice::Commit(1));
    assert_eq!(s.last_effective_lock, Some(1));
}

#[test]
fn dvo_serves_when_no_candidate_beckons() {
    let mut s = DvoState::new();
    assert_eq!(s.step(1, &[0, 5], None, None, None), DvoChoice::Serve);
    assert_eq!(s.step(1, &[50, 5], None, None, None), DvoChoice::Serve);
    assert_eq!(s.step(1, &[50, 5], None, Some(0), None), DvoChoice::Commit(0));
}

#[test]
fn serve_or_idle_follows_the_queue_here() {
    assert_eq!(serve_or_idle_here(1, &[0, 2]), Step::Serve);
    assert_eq!(serve_or_idle_here(0, &[0, 2]), Step::Idle);
}

#[test]
fn dart_without_a_target_serves_here_or_waits() {
    let hops = [None, Some(1), Some(1), Some(1)];
    assert_eq!(dart_act(0, &[4, 0, 0, 0], None, false, &hops), Step::Serve);
    assert_eq!(dart_act(0, &[0, 0, 0, 0], None, false, &hops), Step::Idle);
}

#[test]
fn dart_serves_when_a_guard_opens_and_otherwise_hops_with_the_lock() {
    // Line 0-1-2-3, target 3: the first hop is 1, and the lock stays 3.
    let hops = [None, Some(1), Some(1), Some(1)];
    assert_eq!(dart_act(0, &[5, 0, 0, 3], Some(3), true, &hops), Step::Serve);
    assert_eq!(
        dart_act(0, &[5, 0, 0, 3], Some(3), false, &hops),
        Step::Move { hop: 1, lock: Some(3) }
    );
    // Nothing to serve here: the guard does not matter.
    assert_eq!(
        dart_act(0, &[0, 0, 0, 3], Some(3), true, &hops),
        Step::Move { hop: 1, lock: Some(3) }
    );
}

#[test]
fn tian_transit_serves_on_arrival_at_its_lock() {
    let hops = [None, Some(1), Some(1)];
    assert!(serves_on_arrival(true, Some(0), 0, &[2, 0, 5]));
    assert!(!serves_on_arrival(false, Some(0), 0, &[2, 0, 5]));
    assert!(!serves_on_arrival(true, Some(0), 0, &[0, 0, 5]));
    assert_eq!(tian_act(0, &[2, 0, 5], true, Some(0), Some(2), false, &hops), Step::Serve);
}

#[test]
fn tian_locks_the_stop_with_transit_and_the_hop_without() {
    let hops = [None, Some(1), Some(1)];
    assert_eq!(
        tian_act(0, &[0, 0, 5], true, None, Some(2), false, &hops),
        Step::Move { hop: 1, lock: Some(2) }
    );
    assert_eq!(
        tian_act(0, &[0, 0, 5], false, None, Some(2), false, &hops),
        Step::Move { hop: 1, lock: Some(1) }
    );
}

#[test]
fn tian_catches_work_in_transit_only_when_the_guard_opens() {
    let hops = [None, Some(1), Some(1)];
    // Crossing 0 on the way to lock 2, with work at 0.
    assert_eq!(tian_act(0, &[3, 0, 5], true, Some(2), Some(2), true, &hops), Step::Serve);
    assert_eq!(
        tian_act(0, &[3, 0, 5], true, Some(2), Some(2), false, &hops),
        Step::Move { hop: 1, lock: Some(2) }
    );
    // The plain variant never catches.
    assert_eq!(
        tian_act(0, &[3, 0, 5], false, Some(2), Some(2), true, &hops),
        Step::Move { hop: 1, lock: Some(1) }
    );
}

#[test]
fn tian_falls_back_to_serving_or_waiting() {
    let hops = [None, None, Some(1)];
    // No eligible sequence.
    assert_eq!(tian_act(0, &[3, 0, 5], false, None, None, false, &hops), Step::Serve);
    assert_eq!(tian_act(0, &[0, 0, 5], false, None, None, false, &hops), Step::Idle);
    // A stop at the current configuration, or one without a first hop.
    assert_eq!(tian_act(0, &[3, 0, 5], false, None, Some(0), false, &hops), Step::Serve);
    assert_eq!(tian_act(0, &[0, 4, 0], false, None, Some(1), false, &hops), Step::Idle);
}

#[test]
fn dvo_never_moves_to_where_it_stands() {
    let mut s = DvoState::new();
    // First decision at an empty start: the idling candidate is elsewhere.
    assert_eq!(s.step(0, &[0, 9], None, None, Some(1)), DvoChoice::Commit(1));
    // The lock names another configuration: keep moving there.
    assert_eq!(s.step(2, &[0, 9, 0], Some(1), None, None), DvoChoice::Commit(1));
}

#[test]
fn dart_targets_are_the_other_reachable_configurations_with_work() {
    let q = [3usize, 0, 2, 5, 1];
    let to = [true, true, true, false, true];
    let back = [true, true, true, true, false];
    // 0 is where the server stands, 1 is empty, 3 cannot be reached and
    // 4 cannot be left back to 0.
    assert_eq!(eligible_targets(0, &q, &to, &back), vec![2]);
    assert_eq!(eligible_targets(0, &q, &[true; 5], &[true; 5]), vec![2, 3, 4]);
    assert_eq!(eligible_targets(2, &[0, 0, 4], &[true; 3], &[true; 3]), Vec::<usize>::new());
}
