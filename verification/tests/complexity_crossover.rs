use abr_home_system_benchmark::cache_latency_model::{CACHE_SWEEP_TIMED, CACHE_SWEEP_WARM};
use abr_home_system_benchmark::binary_baselines::{BinaryAlgo, ALL_ALGOS};
use abr_home_system_benchmark::complexity_crossover::{algorithms_at_tier, Tier, TIERS};
use abr_home_system_benchmark::timing_harness::{N_TIMED, N_WARM};

#[test]
fn tier_node_counts_declared_correctly() {
    assert_eq!(Tier::Small.n_nodes(),       64);
    assert_eq!(Tier::Medium.n_nodes(),    1_024);
    assert_eq!(Tier::Large.n_nodes(),    65_536);
    assert_eq!(Tier::Xlarge.n_nodes(),  262_144);
    assert_eq!(Tier::Xxlarge.n_nodes(), 2_097_152);
}

#[test]
fn small_and_medium_include_all_pairs() {
    assert!(Tier::Small.includes_all_pairs());
    assert!(Tier::Medium.includes_all_pairs());
}

#[test]
fn large_xlarge_xxlarge_exclude_all_pairs() {
    assert!(!Tier::Large.includes_all_pairs());
    assert!(!Tier::Xlarge.includes_all_pairs());
    assert!(!Tier::Xxlarge.includes_all_pairs());
}

#[test]
fn small_medium_large_use_standard_protocol() {
    assert_eq!(Tier::Small.warm_passes(), N_WARM);
    assert_eq!(Tier::Medium.warm_passes(), N_WARM);
    assert_eq!(Tier::Large.warm_passes(), N_WARM);
}

#[test]
fn xlarge_xxlarge_use_light_protocol() {
    assert_eq!(Tier::Xlarge.warm_passes(), CACHE_SWEEP_WARM);
    assert_eq!(Tier::Xxlarge.warm_passes(), CACHE_SWEEP_WARM);
    assert_eq!(Tier::Xlarge.timed_passes(), CACHE_SWEEP_TIMED);
    assert_eq!(Tier::Xxlarge.timed_passes(), CACHE_SWEEP_TIMED);
}

#[test]
fn hardware_context_labels_nonempty_for_all_tiers() {
    for tier in TIERS {
        assert!(!tier.hardware_context().is_empty());
    }
}

// ── Further cases ──────────────────────────────────────────────────────────

#[test]
fn tier_labels_and_contexts_exact() {
    assert_eq!(Tier::Small.label(), "SMALL");
    assert_eq!(Tier::Xxlarge.label(), "XXLARGE");
    assert_eq!(Tier::Large.hardware_context(), "L2-sat 0.70 ns/access");
    assert_eq!(Tier::Xxlarge.hardware_context(), "L3-step  3.38 ns/access");
}

#[test]
fn standard_protocol_timed_passes() {
    assert_eq!(Tier::Small.timed_passes(), N_TIMED);
    assert_eq!(Tier::Large.timed_passes(), 1_000);
    assert_eq!(Tier::Xlarge.warm_passes(), 3);
    assert_eq!(Tier::Xxlarge.timed_passes(), 10);
}

#[test]
fn tier_matrix_algorithm_sets() {
    assert_eq!(algorithms_at_tier(Tier::Small), ALL_ALGOS.to_vec());
    assert_eq!(algorithms_at_tier(Tier::Medium).len(), 7);
    let large = algorithms_at_tier(Tier::Large);
    assert_eq!(large.len(), 6);
    assert!(!large.contains(&BinaryAlgo::AllPairsDiff));
    assert_eq!(large, ALL_ALGOS[1..].to_vec());
    assert_eq!(algorithms_at_tier(Tier::Xxlarge).len(), 6);
}

#[test]
fn light_protocol_flag_by_tier() {
    assert!(!Tier::Small.light_protocol());
    assert!(!Tier::Large.light_protocol());
    assert!(Tier::Xlarge.light_protocol());
    assert!(Tier::Xxlarge.light_protocol());
}
