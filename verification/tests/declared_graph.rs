use abr_home_system_benchmark::declared_graph::{declare_open_chain, predecessor_edge, Edge, N_EDGES, N_NODES, WORKING_SET_BYTES};
use abr_home_system_benchmark::process_topology::co_activation_edges;
use abr_home_system_benchmark::scaling::{scaling_working_set_bytes, SCALING_SIZES};

#[test]
fn working_set_within_declared_bound() {
    assert!(WORKING_SET_BYTES <= 1_048_576,
        "Working set must be ≤ 1 MB: got {} bytes", WORKING_SET_BYTES);
}

#[test]
fn all_scaling_working_sets_within_l3() {
    let l3_bytes = 32 * 1024 * 1024;
    for &n in &SCALING_SIZES {
        let ws = n * 8 + (n-1) * 8 + (n-1) * 8;
        assert!(ws < l3_bytes,
            "Working set for n={} exceeds L3: {} bytes", n, ws);
    }
}

// ── Open-chain topology (the edge part of the declared graphs) ────────────

#[test]
fn benchmark_chain_has_declared_edge_count() {
    let edges = declare_open_chain(N_NODES);
    assert_eq!(edges.len(), N_EDGES);
}

#[test]
fn open_chain_has_no_ring_topology() {
    for &n in &SCALING_SIZES {
        let edges = declare_open_chain(n);
        assert_eq!(edges.len(), n - 1);
        for edge in &edges {
            assert_ne!(edge.source, edge.target, "Self-loop detected — inadmissible");
            assert_ne!(edge.target, 0, "Edge targeting node 0 detected — ring inadmissible");
        }
        assert!(edges.last().unwrap().successor.is_none(),
            "Terminal edge must have no successor — open boundary");
    }
}

#[test]
fn open_chain_small_exact() {
    assert_eq!(declare_open_chain(1), Vec::<Edge>::new());
    assert_eq!(declare_open_chain(3), vec![
        Edge { source: 0, target: 1, successor: Some(1) },
        Edge { source: 1, target: 2, successor: None },
    ]);
}

#[test]
fn scaling_working_set_formula() {
    assert_eq!(scaling_working_set_bytes(1_024), 1_024 * 8 + 1_023 * 16);
    assert_eq!(scaling_working_set_bytes(N_NODES), WORKING_SET_BYTES);
    assert_eq!(scaling_working_set_bytes(1), 8);
}

#[test]
fn co_activation_edges_link_declared_pairs() {
    // 6 processes; pairs (0,1), (1,2), (4,5) within the window.
    let adjacent = vec![true, true, false, false, true];
    let edges = co_activation_edges(&adjacent);
    assert_eq!(edges, vec![
        Edge { source: 0, target: 1, successor: Some(1) },
        Edge { source: 1, target: 2, successor: Some(2) },
        Edge { source: 4, target: 5, successor: None },
    ]);
    assert!(edges.len() < adjacent.len() + 1);
}

#[test]
fn co_activation_edges_empty_cases() {
    assert_eq!(co_activation_edges(&vec![]), Vec::<Edge>::new());
    assert_eq!(co_activation_edges(&vec![false, false]), Vec::<Edge>::new());
    let all = co_activation_edges(&vec![true; 4]);
    assert_eq!(all, declare_open_chain(5));
}

#[test]
fn predecessor_edges_on_chain_and_gapped_graph() {
    let chain = declare_open_chain(4);
    assert_eq!(predecessor_edge(&chain, 0), None);
    assert_eq!(predecessor_edge(&chain, 1), Some(0));
    assert_eq!(predecessor_edge(&chain, 2), Some(1));
    let gapped = co_activation_edges(&vec![true, false, true]);
    // edges (0,1) and (2,3): the second does not start where the first ends
    assert_eq!(predecessor_edge(&gapped, 1), None);
}
