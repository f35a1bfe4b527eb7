//! Adjacency and per-edge bookkeeping of the reconfiguration graph.
//!
//! Entry `(i, j)` of the mean matrix is the mean switchover time from
//! configuration `i` to configuration `j`. Which entries are edges is given
//! alongside the matrix; the legal moves out of `i` are `neighbors(i)`, the
//! edges `i -> j` with `j != i` in increasing order of `j`.
//!
//! Every edge also carries a switchover-time family: the global default
//! everywhere, except on the edges named by per-edge overrides, where the
//! last override naming an edge wins. Overrides touch the families only:
//! the means and the adjacency, which are all that routing reads, stay as
//! the matrix gives them.
//!
//! The structure is generic in the type `W` of a mean and the type `F` of
//! a family; the simulator instantiates them with its time and family
//! types.

use vstd::prelude::*;

verus! {

/// The edges `i -> j` with `j != i` and `j < m`, in increasing order of `j`.
pub open spec fn out_edges(row: Seq<bool>, i: usize, m: nat) -> Seq<usize>
    decreases m,
{
    if m == 0 {
        Seq::empty()
    } else {
        let j = (m - 1) as nat;
        let rest = out_edges(row, i, j);
        if j != i && j < row.len() && row[j as int] {
            rest.push(j as usize)
        } else {
            rest
        }
    }
}

/// `out_edges` holds exactly the edges out of `i` below `m`, strictly
/// increasing.
pub proof fn lemma_out_edges(row: Seq<bool>, i: usize, m: nat)
    requires
        m <= row.len(),
        m <= usize::MAX + 1,
    ensures
        forall|j: usize|
            #[trigger] out_edges(row, i, m).contains(j) <==> (j < m && j != i && row[j as int]),
        forall|a: int, b: int|
            0 <= a < b < out_edges(row, i, m).len() ==> out_edges(row, i, m)[a] < out_edges(
                row,
                i,
                m,
            )[b],
        forall|a: int| 0 <= a < out_edges(row, i, m).len() ==> out_edges(row, i, m)[a] < m,
    decreases m,
{
    if m > 0 {
        let j = (m - 1) as nat;
        lemma_out_edges(row, i, j);
        let rest = out_edges(row, i, j);
        let all = out_edges(row, i, m);
        if j != i && row[j as int] {
            assert(all == rest.push(j as usize));
            assert forall|x: usize| all.contains(x) <==> (x < m && x != i && row[x as int]) by {
                if x == j {
                    assert(all[rest.len() as int] == x);
                } else if all.contains(x) {
                    let k = choose|k: int| 0 <= k < all.len() && all[k] == x;
                    assert(k < rest.len());
                    assert(rest[k] == x);
                    assert(rest.contains(x));
                } else if x < j && x != i && row[x as int] {
                    assert(rest.contains(x));
                    let k = choose|k: int| 0 <= k < rest.len() && rest[k] == x;
                    assert(all[k] == x);
                }
            }
        } else {
            assert(all == rest);
            assert forall|x: usize| all.contains(x) <==> (x < m && x != i && row[x as int]) by {
                if x < j && x != i && row[x as int] {
                    assert(rest.contains(x));
                }
                if all.contains(x) {
                    assert(rest.contains(x));
                }
            }
        }
    }
}

/// The last override that names edge `(i, j)` of an `n`-configuration
/// graph, or `default` when none does. Overrides naming a coordinate out of
/// range are ignored.
pub open spec fn family_at<F>(n: nat, default: F, overrides: Seq<(usize, usize, F)>, i: int, j: int) -> F
    decreases overrides.len(),
{
    if overrides.len() == 0 {
        default
    } else {
        let last = overrides.last();
        if last.0 < n && last.1 < n && last.0 == i && last.1 == j {
            last.2
        } else {
            family_at(n, default, overrides.drop_last(), i, j)
        }
    }
}

/// Position of edge `(i, j)` in a row-major `n × n` table.
pub open spec fn cell(n: nat, i: int, j: int) -> int {
    i * n + j
}

/// Distinct edges occupy distinct cells, and every cell lies in the table.
pub proof fn lemma_cell(n: nat, i: int, j: int, a: int, b: int)
    requires
        0 <= i < n,
        0 <= j < n,
        0 <= a < n,
        0 <= b < n,
    ensures
        0 <= cell(n, i, j) < n * n,
        cell(n, i, j) == cell(n, a, b) ==> i == a && j == b,
        i < a ==> cell(n, i, j) < cell(n, a, b),
        i == a && j < b ==> cell(n, i, j) < cell(n, a, b),
{
    assert(0 <= i * n + j < n * n) by (nonlinear_arith)
        requires
            0 <= i < n,
            0 <= j < n,
    ;
    if i < a {
        assert(i * n + j < a * n + b) by (nonlinear_arith)
            requires
                0 <= i < a,
                0 <= j < n,
                0 <= b,
        ;
    } else if a < i {
        assert(a * n + b < i * n + j) by (nonlinear_arith)
            requires
                0 <= a < i,
                0 <= b < n,
                0 <= j,
        ;
    }
}

/// The per-edge families of an `n`-configuration graph, row-major
/// (`result[from * n + to]`): `default` on every edge, then each override
/// `(from, to, family)` in turn, ignoring those out of range.
pub fn edge_families<F: Copy>(n: usize, default: F, overrides: &[(usize, usize, F)]) -> (r: Vec<F>)
    requires
        n * n <= usize::MAX,
    ensures
        r.len() == n * n,
        forall|i: int, j: int|
            0 <= i < n && 0 <= j < n ==> #[trigger] r[cell(n as nat, i, j)] == family_at(
                n as nat,
                default,
                overrides@,
                i,
                j,
            ),
{
    let nn = n * n;
    let mut fams: Vec<F> = Vec::new();
    let mut k: usize = 0;
    while k < nn
        invariant
            nn == n * n,
            k <= nn,
            fams.len() == k,
            forall|x: int| 0 <= x < k ==> fams[x] == default,
        decreases nn - k,
    {
        fams.push(default);
        k = k + 1;
    }
    assert(overrides@.take(0) =~= Seq::<(usize, usize, F)>::empty());
    assert forall|i: int, j: int|
        0 <= i < n && 0 <= j < n implies #[trigger] fams[cell(n as nat, i, j)] == family_at(
        n as nat,
        default,
        overrides@.take(0),
        i,
        j,
    ) by {
        lemma_cell(n as nat, i, j, 0, 0);
    }
    let mut o: usize = 0;
    while o < overrides.len()
        invariant
            nn == n * n,
            o <= overrides.len(),
            fams.len() == nn,
            forall|i: int, j: int|
                0 <= i < n && 0 <= j < n ==> #[trigger] fams[cell(n as nat, i, j)] == family_at(
                    n as nat,
                    default,
                    overrides@.take(o as int),
                    i,
                    j,
                ),
        decreases overrides.len() - o,
    {
        let (from, to, fam) = overrides[o];
        let ghost before = fams@;
        if from < n && to < n {
            proof {
                lemma_cell(n as nat, from as int, to as int, 0, 0);
            }
            fams.set(from * n + to, fam);
        }
        assert(overrides@.take(o + 1).drop_last() == overrides@.take(o as int));
        assert forall|i: int, j: int|
            0 <= i < n && 0 <= j < n implies #[trigger] fams[cell(n as nat, i, j)] == family_at(
            n as nat,
            default,
            overrides@.take(o + 1),
            i,
            j,
        ) by {
            lemma_cell(n as nat, i, j, 0, 0);
            if from < n && to < n {
                lemma_cell(n as nat, i, j, from as int, to as int);
            }
        }
        o = o + 1;
    }
    assert(overrides@.take(overrides.len() as int) == overrides@);
    fams
}

/// The reconfiguration graph: its mean matrix, its per-edge families and
/// its adjacency.
#[derive(Debug, Clone)]
pub struct Topology<W, F> {
    n: usize,
    distribution: F,
    matrix: Vec<W>,
    edge_dist: Vec<F>,
    neighbors: Vec<Vec<usize>>,
}

impl<W, F> Topology<W, F> {
    /// The tables have one entry per edge and one neighbour list per
    /// configuration.
    pub closed spec fn wf(&self) -> bool {
        &&& self.n * self.n <= usize::MAX
        &&& self.matrix.len() == self.n * self.n
        &&& self.edge_dist.len() == self.n * self.n
        &&& self.neighbors.len() == self.n
    }

    /// Number of configurations.
    pub closed spec fn size(&self) -> nat {
        self.n as nat
    }

    /// Global default family.
    pub closed spec fn default_family(&self) -> F {
        self.distribution
    }

    /// Mean switchover time of edge `(i, j)`.
    pub closed spec fn mean(&self, i: int, j: int) -> W {
        self.matrix[cell(self.n as nat, i, j)]
    }

    /// Family of edge `(i, j)`.
    pub closed spec fn family(&self, i: int, j: int) -> F {
        self.edge_dist[cell(self.n as nat, i, j)]
    }

    /// The moves out of `i`.
    pub closed spec fn adjacency(&self, i: int) -> Seq<usize> {
        self.neighbors[i]@
    }

    /// The topology carries the mean matrix `rows` and the edge relation
    /// `edges`: its means are the entries of `rows`, and the moves out of
    /// every `i` are the edges out of `i` in increasing order.
    pub closed spec fn carries(&self, rows: Seq<Seq<W>>, edges: Seq<Seq<bool>>) -> bool {
        &&& self.wf()
        &&& rows.len() == self.n
        &&& edges.len() == self.n
        &&& forall|i: int, j: int|
            0 <= i < self.n && 0 <= j < self.n ==> #[trigger] self.mean(i, j) == rows[i][j]
        &&& forall|i: int|
            0 <= i < self.n ==> #[trigger] self.adjacency(i) == out_edges(
                edges[i],
                i as usize,
                self.n as nat,
            )
    }
}

/// The views of the rows of a table.
pub open spec fn table_view<T>(rows: Seq<Vec<T>>) -> Seq<Seq<T>> {
    rows.map_values(|row: Vec<T>| row@)
}

/// A table of `n` rows, each with at least `n` entries, of which the first
/// `n` are read; its `n * n` cells fit in memory.
pub open spec fn has_n_columns<T>(rows: Seq<Vec<T>>, n: nat) -> bool {
    &&& rows.len() == n
    &&& n * n <= usize::MAX
    &&& forall|i: int| 0 <= i < n ==> #[trigger] rows[i]@.len() >= n
}

impl<W: Copy, F: Copy> Topology<W, F> {
    /// Build a topology from the mean matrix `rows` and its edge relation
    /// `edges` (`edges[i][j]`: the entry `(i, j)` is an edge). Every edge
    /// uses `distribution` except those named in `overrides`, each
    /// `(from, to, family)`; out-of-range override coordinates are ignored.
    /// The graph has one configuration per row; a row may be longer than
    /// that, and only its first `n` entries are read.
    pub fn from_matrix_with_overrides(
        rows: &[Vec<W>],
        edges: &[Vec<bool>],
        distribution: F,
        overrides: &[(usize, usize, F)],
    ) -> (r: Self)
        requires
            has_n_columns(rows@, rows@.len() as nat),
            has_n_columns(edges@, rows@.len() as nat),
        ensures
            r.wf(),
            r.size() == rows@.len(),
            r.default_family() == distribution,
            r.carries(table_view(rows@), table_view(edges@)),
            forall|i: int, j: int|
                0 <= i < r.size() && 0 <= j < r.size() ==> #[trigger] r.mean(i, j) == rows@[i]@[j],
            forall|i: int|
                0 <= i < r.size() ==> #[trigger] r.adjacency(i) == out_edges(
                    edges@[i]@,
                    i as usize,
                    r.size(),
                ),
            forall|i: int, j: int|
                0 <= i < r.size() && 0 <= j < r.size() ==> #[trigger] r.family(i, j) == family_at(
                    r.size(),
                    distribution,
                    overrides@,
                    i,
                    j,
                ),
    {
        let n = rows.len();
        let mut matrix: Vec<W> = Vec::new();
        let mut neighbors: Vec<Vec<usize>> = Vec::new();
        let mut i: usize = 0;
        while i < n
            invariant
                n == rows@.len(),
                has_n_columns(rows@, n as nat),
                has_n_columns(edges@, n as nat),
                i <= n,
                matrix.len() == i * n,
                neighbors.len() == i,
                forall|a: int, b: int|
                    0 <= a < i && 0 <= b < n ==> #[trigger] matrix[cell(n as nat, a, b)]
                        == rows@[a]@[b],
                forall|a: int|
                    0 <= a < i ==> #[trigger] neighbors[a]@ == out_edges(
                        edges@[a]@,
                        a as usize,
                        n as nat,
                    ),
            decreases n - i,
        {
            let mut nbrs: Vec<usize> = Vec::new();
            let mut j: usize = 0;
            proof {
                lemma_cell(n as nat, i as int, 0, 0, 0);
            }
            while j < n
                invariant
                    n == rows@.len(),
                    has_n_columns(rows@, n as nat),
                    has_n_columns(edges@, n as nat),
                    i < n,
                    j <= n,
                    matrix.len() == i * n + j,
                    forall|a: int, b: int|
                        0 <= a < i && 0 <= b < n ==> #[trigger] matrix[cell(n as nat, a, b)]
                            == rows@[a]@[b],
                    forall|b: int| 0 <= b < j ==> #[trigger] matrix[cell(n as nat, i as int, b)]
                        == rows@[i as int]@[b],
                    nbrs@ == out_edges(edges@[i as int]@, i, j as nat),
                decreases n - j,
            {
                proof {
                    lemma_cell(n as nat, i as int, j as int, 0, 0);
                }
                let v: W = rows[i][j];
                matrix.push(v);
                if i != j && edges[i][j] {
                    nbrs.push(j);
                }
                assert forall|a: int, b: int|
                    0 <= a < i && 0 <= b < n implies #[trigger] matrix[cell(n as nat, a, b)]
                    == rows@[a]@[b] by {
                    lemma_cell(n as nat, a, b, i as int, j as int);
                }
                assert forall|b: int|
                    0 <= b < j + 1 implies #[trigger] matrix[cell(n as nat, i as int, b)]
                    == rows@[i as int]@[b] by {
                    lemma_cell(n as nat, i as int, b, i as int, j as int);
                }
                j = j + 1;
            }
            assert((i + 1) * n == i * n + n) by (nonlinear_arith);
            neighbors.push(nbrs);
            i = i + 1;
        }
        assert(n * n == i * n);
        let edge_dist = edge_families(n, distribution, overrides);
        Topology { n, distribution, matrix, edge_dist, neighbors }
    }

    /// Number of configurations.
    pub fn n(&self) -> (r: usize)
        ensures
            r == self.size(),
    {
        self.n
    }

    /// Global default family.
    pub fn distribution(&self) -> (r: F)
        ensures
            r == self.default_family(),
    {
        self.distribution
    }

    /// Mean switchover time from `from` to `to`.
    pub fn time(&self, from: usize, to: usize) -> (r: W)
        requires
            self.wf(),
            from < self.size(),
            to < self.size(),
        ensures
            r == self.mean(from as int, to as int),
    {
        proof {
            lemma_cell(self.n as nat, from as int, to as int, 0, 0);
        }
        self.matrix[from * self.n + to]
    }

    /// Family used on edge `(from, to)`.
    pub fn edge_distribution(&self, from: usize, to: usize) -> (r: F)
        requires
            self.wf(),
            from < self.size(),
            to < self.size(),
        ensures
            r == self.family(from as int, to as int),
    {
        proof {
            lemma_cell(self.n as nat, from as int, to as int, 0, 0);
        }
        self.edge_dist[from * self.n + to]
    }

    /// The legal moves out of `from`, in increasing order.
    pub fn neighbors(&self, from: usize) -> (r: &[usize])
        requires
            self.wf(),
            from < self.size(),
        ensures
            r@ == self.adjacency(from as int),
    {
        self.neighbors[from].as_slice()
    }
}

/// Mean preservation: two topologies built on the same mean matrix and edge
/// relation have the same means and the same moves, whatever families they
/// carry; routing, which reads only these, cannot tell them apart.
pub proof fn lemma_families_leave_routing_alone<W, F>(
    a: Topology<W, F>,
    b: Topology<W, F>,
    rows: Seq<Seq<W>>,
    edges: Seq<Seq<bool>>,
)
    requires
        a.carries(rows, edges),
        b.carries(rows, edges),
    ensures
        a.size() == b.size(),
        forall|i: int, j: int|
            0 <= i < a.size() && 0 <= j < a.size() ==> #[trigger] a.mean(i, j) == b.mean(i, j),
        forall|i: int| 0 <= i < a.size() ==> #[trigger] a.adjacency(i) == b.adjacency(i),
{
    assert forall|i: int, j: int| 0 <= i < a.size() && 0 <= j < a.size() implies #[trigger] a.mean(i, j)
        == b.mean(i, j) by {
        assert(a.mean(i, j) == rows[i][j]);
        assert(b.mean(i, j) == rows[i][j]);
    }
    assert forall|i: int| 0 <= i < a.size() implies #[trigger] a.adjacency(i) == b.adjacency(i) by {
        assert(a.adjacency(i) == out_edges(edges[i], i as usize, a.size()));
        assert(b.adjacency(i) == out_edges(edges[i], i as usize, a.size()));
    }
}

/// The moves out of `i` are exactly its edges to other configurations, in
/// strictly increasing order.
pub proof fn lemma_neighbors_are_out_edges<W, F>(
    t: Topology<W, F>,
    rows: Seq<Seq<W>>,
    edges: Seq<Seq<bool>>,
    i: int,
)
    requires
        t.carries(rows, edges),
        0 <= i < t.size(),
        edges[i].len() >= t.size(),
    ensures
        forall|j: usize|
            #[trigger] t.adjacency(i).contains(j) <==> (j < t.size() && j != i && edges[i][j as int]),
        forall|a: int, b: int|
            0 <= a < b < t.adjacency(i).len() ==> t.adjacency(i)[a] < t.adjacency(i)[b],
{
    assert(t.adjacency(i) == out_edges(edges[i], i as usize, t.size()));
    lemma_out_edges(edges[i], i as usize, t.size());
}

} // verus!
