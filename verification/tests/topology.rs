use dartsim::topology::{edge_families, Topology};

#[derive(Debug, Clone, Copy, PartialEq)]
enum Family {
    Exponential,
    ParetoII { alpha: f64 },
    Deterministic,
}

fn edges_of(rows: &[Vec<f64>]) -> Vec<Vec<bool>> {
    rows.iter().map(|r| r.iter().map(|&v| v >= 0.0).collect()).collect()
}

#[test]
fn per_edge_override_dispatch() {
    let rows = vec![vec![0.0, 0.2], vec![8.0, 0.0]];
    let topo = Topology::from_matrix_with_overrides(
        &rows,
        &edges_of(&rows),
        Family::Exponential,
        &[(1, 0, Family::ParetoII { alpha: 1.5 })],
    );
    assert_eq!(topo.edge_distribution(0, 1), Family::Exponential);
    assert_eq!(topo.edge_distribution(1, 0), Family::ParetoII { alpha: 1.5 });
    assert_eq!(topo.time(0, 1), 0.2);
    assert_eq!(topo.time(1, 0), 8.0);
}

#[test]
fn neighbors_are_the_edges_out_in_increasing_order() {
    let rows = vec![
        vec![0.0, 1.0, -1.0, 2.0],
        vec![-1.0, 0.0, 1.0, -1.0],
        vec![0.0, -1.0, 0.0, 0.0],
        vec![-1.0, -1.0, -1.0, 0.0],
    ];
    let topo = Topology::from_matrix_with_overrides(&rows, &edges_of(&rows), Family::Deterministic, &[]);
    assert_eq!(topo.n(), 4);
    assert_eq!(topo.neighbors(0), &[1, 3]);
    assert_eq!(topo.neighbors(1), &[2]);
    assert_eq!(topo.neighbors(2), &[0, 3]);
    assert!(topo.neighbors(3).is_empty());
    assert_eq!(topo.distribution(), Family::Deterministic);
}

#[test]
fn later_override_wins_and_out_of_range_is_ignored() {
    let fams = edge_families(
        3,
        Family::Exponential,
        &[
            (0, 2, Family::Deterministic),
            (0, 2, Family::ParetoII { alpha: 2.5 }),
            (7, 0, Family::Deterministic),
            (2, 1, Family::Deterministic),
        ],
    );
    assert_eq!(fams.len(), 9);
    assert_eq!(fams[2], Family::ParetoII { alpha: 2.5 });
    assert_eq!(fams[2 * 3 + 1], Family::Deterministic);
    assert_eq!(fams[1], Family::Exponential);
    assert_eq!(fams[0], Family::Exponential);
}

#[test]
fn family_swap_keeps_every_mean_and_move() {
    let rows = vec![
        vec![0.0, 6.0, 10.0],
        vec![6.0, 0.0, 5.0],
        vec![10.0, 5.0, 0.0],
    ];
    let edges = edges_of(&rows);
    let uniform = Topology::from_matrix_with_overrides(&rows, &edges, Family::Exponential, &[]);
    let mixed = Topology::from_matrix_with_overrides(
        &rows,
        &edges,
        Family::Exponential,
        &[(0, 2, Family::ParetoII { alpha: 1.5 }), (1, 2, Family::Deterministic)],
    );
    for from in 0..3 {
        assert_eq!(uniform.neighbors(from), mixed.neighbors(from));
        for to in 0..3 {
            assert_eq!(uniform.time(from, to), mixed.time(from, to));
        }
    }
    assert_ne!(uniform.edge_distribution(0, 2), mixed.edge_distribution(0, 2));
}

#[test]
fn longer_rows_are_read_up_to_the_number_of_rows() {
    // Two configurations; each row carries a trailing entry that is ignored.
    let rows = vec![vec![0.0, 2.0, 99.0], vec![3.0, 0.0, -7.0]];
    let topo = Topology::from_matrix_with_overrides(&rows, &edges_of(&rows), Family::Deterministic, &[]);
    assert_eq!(topo.n(), 2);
    assert_eq!(topo.time(0, 1), 2.0);
    assert_eq!(topo.time(1, 0), 3.0);
    assert_eq!(topo.neighbors(0), &[1]);
    assert_eq!(topo.neighbors(1), &[0]);
}
