//! Declared graph topology: the open-chain DAG (node i -> node i+1, no
//! closing edge) over which the relational operators run.
use vstd::prelude::*;

verus! {

/// Declared node count of the benchmark graph.
pub const N_NODES: usize = 8_192;

/// Declared edge count: each node connects to the next (open chain).
pub const N_EDGES: usize = N_NODES - 1;

/// Declared working set: node field + edge field + successor adjacency,
/// 8 bytes per entry.
pub const WORKING_SET_BYTES: usize = N_NODES * 8 + N_EDGES * 8 + N_EDGES * 8;

/// A declared directed edge.
#[derive(Debug, Clone, Copy, PartialEq, Eq)]
pub struct Edge {
    pub source: usize,
    pub target: usize,
    /// Successor edge index (`None` for the terminal edge: open boundary).
    pub successor: Option<usize>,
}

/// The successor link of edge `i` among `len` edges chained in order.
pub open spec fn chained_successor(i: int, len: int) -> Option<usize> {
    if i + 1 < len {
        Some((i + 1) as usize)
    } else {
        None
    }
}

/// The admissible topology over `n_nodes` nodes: fewer edges than nodes,
/// every edge runs forward (so there is no self-loop and no edge into node 0,
/// hence no ring), all endpoints are nodes, and edges are chained in order
/// with the last one open.
pub open spec fn is_admissible_topology(edges: Seq<Edge>, n_nodes: nat) -> bool {
    &&& edges.len() < n_nodes || (edges.len() == 0 && n_nodes == 0)
    &&& forall|i: int|
        0 <= i < edges.len() ==> #[trigger] edges[i].source < edges[i].target
            && edges[i].target < n_nodes
    &&& forall|i: int|
        0 <= i < edges.len() ==> #[trigger] edges[i].successor == chained_successor(
            i,
            edges.len() as int,
        )
}

/// The open chain over `n_nodes` nodes: edge `i` runs from node `i` to
/// node `i + 1`, and its successor is edge `i + 1` unless it is the last.
pub open spec fn open_chain_spec(n_nodes: nat) -> Seq<Edge> {
    Seq::new(
        (n_nodes - 1) as nat,
        |i: int|
            Edge {
                source: i as usize,
                target: (i + 1) as usize,
                successor: chained_successor(i, n_nodes - 1),
            },
    )
}

/// Declares the open chain over `n_nodes` nodes (node i -> node i+1 for
/// i in 0..n_nodes-1). No closing edge: ring topology is inadmissible.
pub fn declare_open_chain(n_nodes: usize) -> (edges: Vec<Edge>)
    requires
        n_nodes >= 1,
    ensures
        edges@ == open_chain_spec(n_nodes as nat),
        edges.len() == n_nodes - 1,
        is_admissible_topology(edges@, n_nodes as nat),
        n_nodes >= 2 ==> edges@.last().successor is None,
{
    let n_edges = n_nodes - 1;
    let mut edges: Vec<Edge> = Vec::with_capacity(n_edges);
    let mut i: usize = 0;
    while i < n_edges
        invariant
            n_edges == n_nodes - 1,
            i <= n_edges,
            edges@ == open_chain_spec(n_nodes as nat).take(i as int),
        decreases n_edges - i,
    {
        edges.push(
            Edge {
                source: i,
                target: i + 1,
                successor: if i + 1 < n_edges {
                    Some(i + 1)
                } else {
                    None
                },
            },
        );
        i = i + 1;
        assert(edges@ =~= open_chain_spec(n_nodes as nat).take(i as int));
    }
    assert(edges@ =~= open_chain_spec(n_nodes as nat));
    edges
}

/// The predecessor edge of edge `i`: the edge just before it, when that
/// edge ends at edge `i`'s source node.
pub open spec fn predecessor_edge_spec(edges: Seq<Edge>, i: int) -> Option<usize> {
    if i > 0 && edges[i - 1].target == edges[i].source {
        Some((i - 1) as usize)
    } else {
        None
    }
}

/// The predecessor edge whose value the R operator subtracts at edge `i`.
pub fn predecessor_edge(edges: &Vec<Edge>, i: usize) -> (r: Option<usize>)
    requires
        i < edges.len(),
    ensures
        r == predecessor_edge_spec(edges@, i as int),
{
    if i > 0 && edges[i - 1].target == edges[i].source {
        Some(i - 1)
    } else {
        None
    }
}

/// On the open chain every edge but the first has the previous edge as
/// its predecessor.
pub proof fn lemma_open_chain_predecessors(n_nodes: nat, i: int)
    requires
        n_nodes >= 1,
        n_nodes <= usize::MAX,
        0 <= i < n_nodes - 1,
    ensures
        predecessor_edge_spec(open_chain_spec(n_nodes), i) == (if i > 0 {
            Some((i - 1) as usize)
        } else {
            None
        }),
{
}

} // verus!
