use abr_home_system_benchmark::cache_latency_model::{cache_level_label, SWEEP_SIZES};

#[test]
fn sweep_sizes_span_declared_range() {
    assert_eq!(*SWEEP_SIZES.first().unwrap() * 8, 4_096);
    assert_eq!(*SWEEP_SIZES.last().unwrap() * 8, 67_108_864);
}

#[test]
fn sweep_sizes_each_double_prior() {
    for w in SWEEP_SIZES.windows(2) {
        assert_eq!(w[1], w[0] * 2, "each declared size must be double the prior");
    }
}

#[test]
fn cache_level_labels_at_boundaries() {
    assert_eq!(cache_level_label(4_096), "<= L1d");
    assert_eq!(cache_level_label(32 * 1024), "<= L1d");
    assert_eq!(cache_level_label(32 * 1024 + 1), "<= L2");
    assert_eq!(cache_level_label(1024 * 1024), "<= L2");
    assert_eq!(cache_level_label(32 * 1024 * 1024), "<= L3");
    assert_eq!(cache_level_label(64 * 1024 * 1024), "> L3 (RAM)");
}
