use abr_home_system_benchmark::transition_gradient::{
    light_protocol, timed_passes, warm_passes, SWEEP_N, TG_TIMED_LIGHT, TG_TIMED_STANDARD, TG_WARM_LIGHT,
    TG_WARM_STANDARD,
};

#[test]
fn sweep_n_has_declared_count() {
    assert_eq!(SWEEP_N.len(), 25);
}

#[test]
fn sweep_n_starts_at_large_tier() {
    assert_eq!(SWEEP_N[0], 65_536, "sweep must begin at V2.0 LARGE tier");
}

#[test]
fn sweep_n_ends_at_declared_upper_bound() {
    assert_eq!(*SWEEP_N.last().unwrap(), 4_194_304);
}

#[test]
fn sweep_n_is_strictly_increasing() {
    for w in SWEEP_N.windows(2) {
        assert!(w[1] > w[0], "N values must be strictly increasing");
    }
}

#[test]
fn sweep_n_contains_v2_anchor_points() {
    assert!(SWEEP_N.contains(&65_536),    "must contain V2.0 LARGE");
    assert!(SWEEP_N.contains(&262_144),   "must contain V2.0 XLARGE");
    assert!(SWEEP_N.contains(&2_097_152), "must contain V2.0 XXLARGE");
}

#[test]
fn protocol_boundary_applied_correctly() {
    assert_eq!(warm_passes(524_288), TG_WARM_STANDARD);
    assert_eq!(warm_passes(524_289), TG_WARM_LIGHT);
    assert_eq!(timed_passes(524_288), TG_TIMED_STANDARD);
    assert_eq!(timed_passes(524_289), TG_TIMED_LIGHT);
}

#[test]
fn protocol_values_at_sweep_extremes() {
    assert_eq!(warm_passes(SWEEP_N[0]), 100);
    assert_eq!(timed_passes(SWEEP_N[0]), 1_000);
    assert_eq!(warm_passes(SWEEP_N[24]), 10);
    assert_eq!(timed_passes(SWEEP_N[24]), 100);
}

#[test]
fn light_protocol_above_boundary() {
    assert!(!light_protocol(65_536));
    assert!(!light_protocol(524_288));
    assert!(light_protocol(655_360));
}
