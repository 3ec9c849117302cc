//! Regime 2 topology rule: processes sorted by activation time are linked
//! by a declared edge wherever two consecutive processes fall within the
//! co-activation window, and the declared edges are chained into an open
//! chain of successors.
use vstd::prelude::*;
use crate::declared_graph::{Edge, chained_successor, is_admissible_topology};

verus! {

/// Indices `i` with `adjacent[i]`, in increasing order.
pub open spec fn adjacent_indices(adjacent: Seq<bool>) -> Seq<usize>
    decreases adjacent.len(),
{
    if adjacent.len() == 0 {
        Seq::empty()
    } else {
        let prefix = adjacent_indices(adjacent.drop_last());
        if adjacent.last() {
            prefix.push((adjacent.len() - 1) as usize)
        } else {
            prefix
        }
    }
}

/// The co-activation edges: one edge `i -> i + 1` for each consecutive pair
/// `i` declared adjacent, chained in order.
pub open spec fn co_activation_edges_spec(adjacent: Seq<bool>) -> Seq<Edge> {
    let idx = adjacent_indices(adjacent);
    Seq::new(
        idx.len(),
        |j: int|
            Edge {
                source: idx[j],
                target: (idx[j] + 1) as usize,
                successor: chained_successor(j, idx.len() as int),
            },
    )
}

/// `adjacent_indices` lists strictly increasing indices below `adjacent.len()`.
pub proof fn lemma_adjacent_indices_sorted(adjacent: Seq<bool>)
    requires
        adjacent.len() <= usize::MAX,
    ensures
        adjacent_indices(adjacent).len() <= adjacent.len(),
        forall|j: int|
            0 <= j < adjacent_indices(adjacent).len() ==> #[trigger] adjacent_indices(adjacent)[j]
                < adjacent.len() && adjacent[adjacent_indices(adjacent)[j] as int],
        forall|j: int, k: int|
            0 <= j < k < adjacent_indices(adjacent).len() ==> #[trigger] adjacent_indices(
                adjacent,
            )[j] < #[trigger] adjacent_indices(adjacent)[k],
    decreases adjacent.len(),
{
    if adjacent.len() > 0 {
        let prefix = adjacent.drop_last();
        lemma_adjacent_indices_sorted(prefix);
        assert forall|j: int| 0 <= j < adjacent_indices(prefix).len() implies adjacent[adjacent_indices(prefix)[j] as int] by {
            assert(prefix[adjacent_indices(prefix)[j] as int]);
        }
    }
}

/// Builds the co-activation edges of `n_nodes = adjacent.len() + 1`
/// processes sorted by start time, where `adjacent[i]` says whether
/// processes `i` and `i + 1` started within the co-activation window.
/// Declared edges are then linked into one open chain of successors.
pub fn co_activation_edges(adjacent: &Vec<bool>) -> (edges: Vec<Edge>)
    ensures
        edges@ == co_activation_edges_spec(adjacent@),
        is_admissible_topology(edges@, (adjacent.len() + 1) as nat),
{
    let mut edges: Vec<Edge> = Vec::new();
    let mut i: usize = 0;
    while i < adjacent.len()
        invariant
            i <= adjacent.len(),
            edges.len() == adjacent_indices(adjacent@.take(i as int)).len(),
            forall|j: int|
                0 <= j < edges.len() ==> #[trigger] edges@[j] == (Edge {
                    source: adjacent_indices(adjacent@.take(i as int))[j],
                    target: (adjacent_indices(adjacent@.take(i as int))[j] + 1) as usize,
                    successor: None,
                }),
        decreases adjacent.len() - i,
    {
        assert(adjacent@.take(i + 1).drop_last() =~= adjacent@.take(i as int));
        if adjacent[i] {
            edges.push(Edge { source: i, target: i + 1, successor: None });
        }
        i = i + 1;
    }
    assert(adjacent@.take(adjacent.len() as int) =~= adjacent@);
    let ghost idx = adjacent_indices(adjacent@);
    let n_edges = edges.len();
    let mut e: usize = 0;
    while e < n_edges
        invariant
            n_edges == edges.len(),
            n_edges == idx.len(),
            e <= n_edges,
            forall|j: int|
                0 <= j < n_edges ==> (#[trigger] edges@[j]).source == idx[j] && edges@[j].target == (
                idx[j] + 1) as usize,
            forall|j: int| 0 <= j < e ==> (#[trigger] edges@[j]).successor == chained_successor(j, n_edges as int),
            forall|j: int| e <= j < n_edges ==> (#[trigger] edges@[j]).successor is None,
        decreases n_edges - e,
    {
        let mut edge = edges[e];
        edge.successor = if e + 1 < n_edges { Some(e + 1) } else { None };
        edges.set(e, edge);
        e = e + 1;
    }
    proof {
        lemma_adjacent_indices_sorted(adjacent@);
    }
    assert(edges@ =~= co_activation_edges_spec(adjacent@));
    edges
}

} // verus!
