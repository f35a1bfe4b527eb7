//! Shortest-path trees over the directed reconfiguration graph: their
//! first hops, and the walk that follows them.
//!
//! The distances themselves are computed on the mean reconfiguration
//! times; this module holds what follows from them as indices. A
//! shortest-path search from `src` leaves a predecessor array `pred`;
//! walking it back from `j` to the node whose predecessor is `src` gives
//! the first hop on the shortest path from `src` to `j`. A next-hop matrix
//! then lets the server walk a path one edge at a time.

use vstd::prelude::*;
use crate::topology::{Topology, lemma_neighbors_are_out_edges};

verus! {

/// The first hop toward `j` read off the predecessor array: follow `pred`
/// back from `j` until reaching a node whose predecessor is `src`; `None`
/// when the walk meets a missing predecessor or runs out of `fuel` steps.
pub open spec fn first_hop_of(pred: Seq<Option<usize>>, src: usize, j: usize, fuel: nat) -> Option<usize>
    decreases fuel,
{
    if fuel == 0 || j >= pred.len() {
        None
    } else {
        match pred[j as int] {
            None => None,
            Some(p) => if p == src {
                Some(j)
            } else {
                first_hop_of(pred, src, p, (fuel - 1) as nat)
            },
        }
    }
}

/// Every predecessor in `pred` names a node.
pub open spec fn preds_in_range(pred: Seq<Option<usize>>) -> bool {
    forall|i: int| 0 <= i < pred.len() ==> match #[trigger] pred[i] {
        Some(p) => p < pred.len(),
        None => true,
    }
}

/// A first hop is a node whose predecessor is the source.
pub proof fn lemma_first_hop_is_child_of_source(
    pred: Seq<Option<usize>>,
    src: usize,
    j: usize,
    fuel: nat,
)
    ensures
        first_hop_of(pred, src, j, fuel) matches Some(x) ==> x < pred.len() && pred[x as int]
            == Some(src),
    decreases fuel,
{
    if fuel > 0 && j < pred.len() {
        match pred[j as int] {
            None => {},
            Some(p) => {
                if p != src {
                    lemma_first_hop_is_child_of_source(pred, src, p, (fuel - 1) as nat);
                }
            },
        }
    }
}

/// A first hop is a move: when every predecessor link `p -> i` of a search
/// over topology `t` is an edge of `t`, each first hop from `src` is a
/// neighbour of `src`, and so another configuration.
pub proof fn lemma_first_hop_is_a_move<W, F>(
    t: Topology<W, F>,
    rows: Seq<Seq<W>>,
    edges: Seq<Seq<bool>>,
    pred: Seq<Option<usize>>,
    src: usize,
    j: usize,
    fuel: nat,
)
    requires
        t.carries(rows, edges),
        src < t.size(),
        edges[src as int].len() >= t.size(),
        pred.len() == t.size(),
        forall|i: int|
            0 <= i < pred.len() ==> (#[trigger] pred[i] matches Some(p) ==> p < t.size() && t.adjacency(
                p as int,
            ).contains(i as usize)),
    ensures
        first_hop_of(pred, src, j, fuel) matches Some(h) ==> t.adjacency(src as int).contains(h) && h
            != src,
{
    lemma_first_hop_is_child_of_source(pred, src, j, fuel);
    lemma_neighbors_are_out_edges(t, rows, edges, src as int);
    if first_hop_of(pred, src, j, fuel) is Some {
        let h = first_hop_of(pred, src, j, fuel).unwrap();
        assert(pred[h as int] == Some(src));
        assert(t.adjacency(src as int).contains(h));
    }
}

/// First hops from `src` to every destination.
///
/// `result[j]` is the configuration immediately following `src` on the
/// shortest path to `j`, found by walking the predecessor array back from
/// `j`; `None` when `j == src`, when `j` is unreachable, or when the walk
/// meets a missing predecessor or does not reach a child of `src` within
/// `n` steps, which a shortest-path search never leaves.
pub fn first_hops(src: usize, pred: &Vec<Option<usize>>, reachable: &Vec<bool>) -> (r: Vec<Option<usize>>)
    requires
        preds_in_range(pred@),
        reachable@.len() == pred@.len(),
    ensures
        r.len() == pred.len(),
        forall|j: int|
            0 <= j < pred.len() ==> #[trigger] r[j] == if j == src || !reachable[j] {
                None
            } else {
                first_hop_of(pred@, src, j as usize, pred.len() as nat)
            },
        forall|j: int|
            0 <= j < pred.len() ==> (#[trigger] r[j] matches Some(h) ==> h < pred.len() && pred@[h as int]
                == Some(src)),
{
    let n = pred.len();
    let mut next_hop: Vec<Option<usize>> = Vec::new();
    let mut j: usize = 0;
    while j < n
        invariant
            n == pred.len(),
            preds_in_range(pred@),
            reachable@.len() == n,
            j <= n,
            next_hop.len() == j,
            forall|k: int|
                0 <= k < j ==> #[trigger] next_hop[k] == if k == src || !reachable[k] {
                    None
                } else {
                    first_hop_of(pred@, src, k as usize, n as nat)
                },
        decreases n - j,
    {
        if j == src || !reachable[j] {
            next_hop.push(None);
        } else {
            let mut cur = j;
            let mut fuel: usize = n;
            let mut found: Option<usize> = None;
            loop
                invariant_except_break
                    found is None,
                invariant
                    n == pred.len(),
                    preds_in_range(pred@),
                    cur < n,
                    first_hop_of(pred@, src, cur, fuel as nat) == first_hop_of(pred@, src, j, n as nat),
                ensures
                    found == first_hop_of(pred@, src, j, n as nat),
                decreases fuel,
            {
                if fuel == 0 {
                    break;
                }
                match pred[cur] {
                    Some(p) => {
                        if p == src {
                            found = Some(cur);
                            break;
                        } else {
                            cur = p;
                            fuel = fuel - 1;
                        }
                    },
                    None => {
                        break;
                    },
                }
            }
            next_hop.push(found);
        }
        j = j + 1;
    }
    assert forall|k: int| 0 <= k < pred.len() implies (#[trigger] next_hop[k] matches Some(h) ==> h
        < pred.len() && pred@[h as int] == Some(src)) by {
        lemma_first_hop_is_child_of_source(pred@, src, k as usize, n as nat);
    }
    next_hop
}

/// The hops a server takes from `at` to `to` by following the next-hop
/// matrix one edge at a time; `None` when a next hop is missing or the walk
/// does not arrive within `fuel` edges.
pub open spec fn route_of(next_hop: Seq<Seq<Option<usize>>>, at: usize, to: usize, fuel: nat) -> Option<Seq<usize>>
    decreases fuel,
{
    if at == to {
        Some(Seq::empty())
    } else if fuel == 0 || at >= next_hop.len() || to >= next_hop[at as int].len() {
        None
    } else {
        match next_hop[at as int][to as int] {
            None => None,
            Some(h) => match route_of(next_hop, h, to, (fuel - 1) as nat) {
                None => None,
                Some(rest) => Some(seq![h] + rest),
            },
        }
    }
}

/// A route that exists arrives: it is empty exactly when the server
/// already stands at the target, otherwise its last hop is the target, and
/// it takes at most `fuel` edges.
pub proof fn lemma_route_arrives(next_hop: Seq<Seq<Option<usize>>>, at: usize, to: usize, fuel: nat)
    requires
        route_of(next_hop, at, to, fuel) is Some,
    ensures
        ({
            let r = route_of(next_hop, at, to, fuel).unwrap();
            &&& (r.len() == 0 <==> at == to)
            &&& r.len() > 0 ==> r.last() == to
            &&& r.len() <= fuel
        }),
    decreases fuel,
{
    if at != to {
        let h = next_hop[at as int][to as int].unwrap();
        lemma_route_arrives(next_hop, h, to, (fuel - 1) as nat);
        let rest = route_of(next_hop, h, to, (fuel - 1) as nat).unwrap();
        if rest.len() > 0 {
            assert((seq![h] + rest).last() == rest.last());
        }
    }
}

/// Every row of the next-hop matrix has one entry per configuration, and
/// every entry names a configuration.
pub open spec fn is_next_hop_matrix(next_hop: Seq<Vec<Option<usize>>>) -> bool {
    forall|i: int, k: int|
        #![trigger next_hop[i]@[k]]
        0 <= i < next_hop.len() && 0 <= k < next_hop[i]@.len() ==> next_hop[i]@.len()
            == next_hop.len() && match next_hop[i]@[k] {
            Some(h) => h < next_hop.len(),
            None => true,
        }
}

/// The views of the rows of a next-hop matrix.
pub open spec fn rows_view(next_hop: Seq<Vec<Option<usize>>>) -> Seq<Seq<Option<usize>>> {
    next_hop.map_values(|row: Vec<Option<usize>>| row@)
}

/// The hops from `current` to `target` along the next-hop matrix, in the
/// order the server takes them: each edge of a multi-hop move is then drawn
/// on its own. `None` when a next hop is missing on the way, which strong
/// connectivity rules out.
pub fn route(next_hop: &Vec<Vec<Option<usize>>>, current: usize, target: usize) -> (r: Option<Vec<usize>>)
    requires
        is_next_hop_matrix(next_hop@),
        current < next_hop.len(),
        target < next_hop.len(),
    ensures
        match r {
            Some(hops) => route_of(rows_view(next_hop@), current, target, next_hop.len() as nat)
                == Some(hops@),
            None => route_of(rows_view(next_hop@), current, target, next_hop.len() as nat) is None,
        },
{
    let ghost nh = rows_view(next_hop@);
    let ghost whole = route_of(nh, current, target, next_hop.len() as nat);
    let mut hops: Vec<usize> = Vec::new();
    let mut at = current;
    let mut fuel: usize = next_hop.len();
    while at != target
        invariant
            nh == rows_view(next_hop@),
            whole == route_of(nh, current, target, next_hop.len() as nat),
            is_next_hop_matrix(next_hop@),
            at < next_hop.len(),
            target < next_hop.len(),
            whole == match route_of(nh, at, target, fuel as nat) {
                Some(rest) => Some(hops@ + rest),
                None => None,
            },
        decreases fuel,
    {
        assert(nh[at as int] == next_hop@[at as int]@);
        if fuel == 0 || target >= next_hop[at].len() {
            assert(route_of(nh, at, target, fuel as nat) is None);
            return None;
        }
        match next_hop[at][target] {
            None => {
                assert(route_of(nh, at, target, fuel as nat) is None);
                    return None;
            },
            Some(hop) => {
                proof {
                    let tail = route_of(nh, hop, target, (fuel - 1) as nat);
                    match tail {
                        Some(rest) => {
                            assert(hops@.push(hop) + rest =~= hops@ + (seq![hop] + rest));
                        },
                        None => {},
                    }
                }
                hops.push(hop);
                at = hop;
                fuel = fuel - 1;
            },
        }
    }
    assert(hops@ + Seq::<usize>::empty() =~= hops@);
    Some(hops)
}

} // verus!
