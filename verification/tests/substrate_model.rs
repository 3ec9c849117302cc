use abr_home_system_benchmark::substrate_model::{cache_tier, tlb_state};

#[test]
fn cache_tier_s0_is_l3() {
    assert_eq!(cache_tier(524288), 2, "S0 should be L3 tier");
}

#[test]
fn cache_tier_s0_chain8_is_l3_not_l2() {
    assert_eq!(cache_tier(524288), 2,
        "V2.0: cache tier uses full WS; S0 is L3, not L2");
}

#[test]
fn cache_tier_s1_is_l3_boundary() {
    let t = cache_tier(4194304);
    assert!(t >= 2, "S1 should be L3 or DRAM tier");
}

#[test]
fn l1_dtlb_saturated_at_s0() {
    let tlb = tlb_state(524288);
    assert!(tlb.l1_dtlb_saturated, "L1 DTLB should be saturated at S0");
    assert_eq!(tlb.pages, 1024);
}

#[test]
fn l2_dtlb_saturated_at_s1() {
    let tlb = tlb_state(4194304);
    assert!(tlb.l2_dtlb_saturated, "L2 DTLB should be saturated at S1");
    assert_eq!(tlb.pages, 8192);
}

#[test]
fn l2_dtlb_not_saturated_at_s0() {
    let tlb = tlb_state(524288);
    assert!(!tlb.l2_dtlb_saturated, "L2 DTLB should not be saturated at S0");
}

// ── Further cases ──────────────────────────────────────────────────────────

#[test]
fn cache_tier_boundaries() {
    assert_eq!(cache_tier(0), 0);
    assert_eq!(cache_tier(4_096), 0);
    assert_eq!(cache_tier(4_097), 1);
    assert_eq!(cache_tier(131_072), 1);
    assert_eq!(cache_tier(131_073), 2);
    assert_eq!(cache_tier(4_194_304), 2);
    assert_eq!(cache_tier(4_194_305), 3);
}

#[test]
fn tlb_pages_round_up() {
    assert_eq!(tlb_state(0).pages, 0);
    assert_eq!(tlb_state(1).pages, 1);
    assert_eq!(tlb_state(512).pages, 1);
    assert_eq!(tlb_state(513).pages, 2);
    let at_l1 = tlb_state(72 * 512);
    assert_eq!(at_l1.pages, 72);
    assert!(!at_l1.l1_dtlb_saturated);
    assert!(tlb_state(72 * 512 + 1).l1_dtlb_saturated);
}
