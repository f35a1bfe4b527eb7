use dartsim::dist::{first_hops, route};

#[test]
fn first_hops_walk_back_to_the_source() {
    // Tree from 0: 0 -> 1 -> 2 -> 3, and 0 -> 4; 5 unreachable.
    let pred = vec![None, Some(0), Some(1), Some(2), Some(0), None];
    let reachable = vec![true, true, true, true, true, false];
    let hops = first_hops(0, &pred, &reachable);
    assert_eq!(hops, vec![None, Some(1), Some(1), Some(1), Some(4), None]);
    // Every first hop is a child of the source.
    for h in hops.iter().flatten() {
        assert_eq!(pred[*h], Some(0));
    }
}

#[test]
fn first_hops_from_a_middle_source() {
    // Line 0-1-2 searched from 1.
    let pred = vec![Some(1), None, Some(1)];
    let reachable = vec![true, true, true];
    assert_eq!(first_hops(1, &pred, &reachable), vec![Some(0), None, Some(2)]);
}

#[test]
fn first_hops_give_up_on_a_walk_that_never_reaches_the_source() {
    // 1 and 2 point at each other; 3 has no predecessor.
    let pred = vec![None, Some(2), Some(1), None];
    let reachable = vec![true, true, true, true];
    assert_eq!(first_hops(0, &pred, &reachable), vec![None, None, None, None]);
}

#[test]
fn route_follows_next_hops_to_the_target() {
    // Line 0-1-2-3.
    let nh = vec![
        vec![None, Some(1), Some(1), Some(1)],
        vec![Some(0), None, Some(2), Some(2)],
        vec![Some(1), Some(1), None, Some(3)],
        vec![Some(2), Some(2), Some(2), None],
    ];
    assert_eq!(route(&nh, 0, 3), Some(vec![1, 2, 3]));
    assert_eq!(route(&nh, 3, 1), Some(vec![2, 1]));
    assert_eq!(route(&nh, 2, 2), Some(Vec::<usize>::new()));
}

#[test]
fn route_stops_at_a_missing_next_hop() {
    // 2 cannot be reached from 0: the walk meets a missing entry.
    let nh = vec![
        vec![None, Some(1), None],
        vec![Some(0), None, None],
        vec![Some(1), Some(1), None],
    ];
    assert_eq!(route(&nh, 0, 2), None);
    assert_eq!(route(&nh, 2, 0), Some(vec![1, 0]));
}

#[test]
fn route_gives_up_on_a_cycle() {
    // The next hops toward 2 loop between 0 and 1 forever.
    let nh = vec![
        vec![None, Some(1), Some(1)],
        vec![Some(0), None, Some(0)],
        vec![Some(0), Some(1), None],
    ];
    assert_eq!(route(&nh, 0, 2), None);
}
