//! Regime 1 scaling sizes and the working set of an open-chain graph.
use vstd::prelude::*;

verus! {

/// Declared node counts of the scaling measurement.
pub const SCALING_SIZES: [usize; 5] = [1_024, 2_048, 4_096, 8_192, 16_384];

/// Working set of an open chain over `n_nodes` nodes: node field, edge
/// field and successor adjacency at 8 bytes per entry.
pub open spec fn working_set_spec(n_nodes: nat) -> int {
    n_nodes * 8 + (n_nodes - 1) * 8 + (n_nodes - 1) * 8
}

pub fn scaling_working_set_bytes(n_nodes: usize) -> (r: usize)
    requires
        n_nodes >= 1,
        working_set_spec(n_nodes as nat) <= usize::MAX,
    ensures
        r == working_set_spec(n_nodes as nat),
{
    let n_edges = n_nodes - 1;
    n_nodes * 8 + n_edges * 8 + n_edges * 8
}

} // verus!
