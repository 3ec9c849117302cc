use abr_home_system_benchmark::binary_baselines::{declared_permutation, SCRAMBLE_SEED};
use abr_home_system_benchmark::probe::{
    build_chains, build_chains_seq, build_segments, chain_count, factorial_label,
    is_declared_algo, parse_k_ch_branchy, parse_k_chained, parse_k_ind, parse_k_seq,
    probe_kernel, probe_protocol, run_chain_only, run_chain_only_stack_spill, str_eq,
    validate_probe_request, ProbeKernel, ProbeProtocol, ProbeRequestError, N_DRAM_CAL,
    N_DRAM_CAL_4X,
};

const TEST_N: usize = 512;

#[test]
fn dram_cal_n_2x_is_two_times_l3() {
    assert_eq!(N_DRAM_CAL * 8, 64 * 1024 * 1024,
        "CAL-2X working set must be 64MB (2× L3)");
}

#[test]
fn dram_cal_n_4x_is_four_times_l3() {
    assert_eq!(N_DRAM_CAL_4X * 8, 128 * 1024 * 1024,
        "CAL-4X working set must be 128MB (4× L3)");
}

#[test]
fn chain_only_produces_finite_result() {
    let perm = declared_permutation(TEST_N, SCRAMBLE_SEED);
    let (chain, _) = build_chains(&perm, 1);
    let result = run_chain_only(&chain);
    assert!(result < TEST_N, "chain-only result must be a valid index");
}

#[test]
fn chain_only_result_differs_from_chained() {
    let perm = declared_permutation(TEST_N, SCRAMBLE_SEED);
    let (chain, _) = build_chains(&perm, 1);
    let chain_only_result = run_chain_only(&chain);
    assert!(chain_only_result < TEST_N);
}

#[test]
fn stack_spill_produces_valid_index() {
    let perm = declared_permutation(TEST_N, SCRAMBLE_SEED);
    let (chain, _) = build_chains(&perm, 1);
    let result = run_chain_only_stack_spill(&chain);
    assert!(result < TEST_N, "stack-spill result must be a valid index");
}

#[test]
fn stack_spill_and_chain_only_traverse_same_chain() {
    let perm = declared_permutation(TEST_N, SCRAMBLE_SEED);
    let (chain, _) = build_chains(&perm, 1);
    let co_result    = run_chain_only(&chain);
    let spill_result = run_chain_only_stack_spill(&chain);
    assert!(co_result    < TEST_N, "chain-only result must be valid index");
    assert!(spill_result < TEST_N, "stack-spill result must be valid index");
}

#[test]
fn dram_cal_back_calculation_formula_finite() {
    let example_cpi = 3.274f64;
    let example_br_pti = 248.4f64;
    let cycles_per_iter = example_cpi * (1000.0 / example_br_pti);
    assert!(cycles_per_iter.is_finite() && cycles_per_iter > 0.0,
        "cycles_per_iter back-calculation must be finite positive");
}

#[test]
fn parse_k_seq_declared_values() {
    assert_eq!(parse_k_seq("chains-8-seq"), Some(8));
    assert_eq!(parse_k_seq("chains-8"),     None);
    assert_eq!(parse_k_seq("scrambled"),     None);
}

#[test]
fn factorial_n_s0_divisible_by_k8() {
    assert_eq!(524_288 % 8, 0);
}

#[test]
fn factorial_n_s1_divisible_by_k8() {
    assert_eq!(4_194_304 % 8, 0);
}

#[test]
fn build_chains_seq_correct_heads() {
    let k = 8;
    let l = TEST_N / k;
    let (_, heads) = build_chains_seq(TEST_N, k);
    assert_eq!(heads.len(), k);
    for i in 0..k {
        assert_eq!(heads[i], i * l, "head[{}] should be {}", i, i * l);
    }
}

#[test]
fn build_chains_seq_links_sequential_within_segment() {
    let k = 4;
    let l = TEST_N / k;
    let (chain, heads) = build_chains_seq(TEST_N, k);
    for i in 0..k {
        let mut cur = heads[i];
        for step in 0..l - 1 {
            let expected_next = heads[i] + step + 1;
            assert_eq!(chain[cur], expected_next,
                "seg {} step {}: chain[{}]={} expected {}", i, step, cur, chain[cur], expected_next);
            cur = chain[cur];
        }
        assert_eq!(chain[cur], heads[i],
            "seg {} wrap: chain[{}]={} expected head {}", i, cur, chain[cur], heads[i]);
    }
}

#[test]
fn build_chains_seq_all_indices_covered_once() {
    let k = 8;
    let l = TEST_N / k;
    let (chain, heads) = build_chains_seq(TEST_N, k);
    let mut visited = vec![false; TEST_N];
    for i in 0..k {
        let mut cur = heads[i];
        for _ in 0..l {
            assert!(!visited[cur], "index {} visited twice", cur);
            visited[cur] = true;
            cur = chain[cur];
        }
    }
    assert!(visited.iter().all(|&v| v));
}

#[test]
fn build_chains_seq_no_cross_segment_links() {
    let k = 4;
    let l = TEST_N / k;
    let (chain, heads) = build_chains_seq(TEST_N, k);
    for i in 0..k {
        let seg_start = heads[i];
        let seg_end   = seg_start + l - 1;
        let mut cur = seg_start;
        for step in 0..l - 1 {
            let next = chain[cur];
            assert!(next >= seg_start && next <= seg_end,
                "seg {} step {}: link {} out of segment [{},{}]",
                i, step, next, seg_start, seg_end);
            cur = next;
        }
    }
}

#[test]
fn parse_k_chained_all_declared_values() {
    assert_eq!(parse_k_chained("chains-8"), Some(8));
    assert_eq!(parse_k_chained("scrambled"), None);
}

#[test]
fn declared_n_s0_s1_divisible_by_all_k() {
    for k in [1usize, 2, 4, 8, 16, 32, 64] {
        assert_eq!(524_288 % k, 0);
        assert_eq!(4_194_304 % k, 0);
    }
}

#[test]
fn build_chains_scrambled_all_indices_covered() {
    let perm = declared_permutation(TEST_N, SCRAMBLE_SEED);
    let k = 8;
    let l = TEST_N / k;
    let (chain, heads) = build_chains(&perm, k);
    let mut visited = vec![false; TEST_N];
    for i in 0..k {
        let mut cur = heads[i];
        for _ in 0..l {
            assert!(!visited[cur]);
            visited[cur] = true;
            cur = chain[cur];
        }
    }
    assert!(visited.iter().all(|&v| v));
}

#[test]
fn oc_rp3_n_s1_divisible_by_all_sweep_k() {
    let n = 4_194_304usize;
    for k in [1usize, 2, 4, 8, 16, 32, 64, 128, 256, 512] {
        assert_eq!(n % k, 0,
            "N={} not divisible by k={}", n, k);
    }
}

#[test]
fn oc_rp3_per_chain_working_set_bytes() {
    let n = 4_194_304usize;
    let l2_elements = 131_072usize;
    let expected = [
        (1usize,   4_194_304usize, false),
        (2,        2_097_152, false),
        (4,        1_048_576, false),
        (8,          524_288, false),
        (16,         262_144, false),
        (32,         131_072, true),
        (64,          65_536, true),
        (128,         32_768, true),
        (256,         16_384, true),
        (512,          8_192, true),
    ];
    for (k, expected_l, expected_within_l2) in expected {
        let l = n / k;
        assert_eq!(l, expected_l, "k={}: L={} expected {}", k, l, expected_l);
        let within_l2 = l <= l2_elements;
        assert_eq!(within_l2, expected_within_l2,
            "k={}: within_l2={} expected {}", k, within_l2, expected_within_l2);
    }
}

#[test]
fn parse_k_chained_extended_values() {
    assert_eq!(parse_k_chained("chains-128"), Some(128));
    assert_eq!(parse_k_chained("chains-256"), Some(256));
    assert_eq!(parse_k_chained("chains-512"), Some(512));
}

#[test]
fn build_chains_k512_correct_at_small_n() {
    let perm = declared_permutation(TEST_N, SCRAMBLE_SEED);
    let k = 512;
    assert_eq!(TEST_N % k, 0);
    let (chain, heads) = build_chains(&perm, k);
    assert_eq!(heads.len(), k);
    for i in 0..k {
        assert_eq!(chain[heads[i]], heads[i],
            "k=512 chain {}: single element should wrap to self", i);
    }
}

#[test]
fn chains_8_branchy_scr_heads_not_empty() {
    assert_eq!(parse_k_ch_branchy("chains-8-branchy"), Some(8));
    assert_eq!(parse_k_ch_branchy("chains-8-seq-branchy"), None);
    let perm = declared_permutation(TEST_N, SCRAMBLE_SEED);
    let k = 8;
    let (_, heads) = build_chains(&perm, k);
    assert_eq!(heads.len(), k,
        "chains-8-branchy: scr_heads must have k={} entries, got {}", k, heads.len());
}

// ── Further cases ──────────────────────────────────────────────────────────

#[test]
fn str_eq_compares_characters() {
    assert!(str_eq("chains-8", "chains-8"));
    assert!(!str_eq("chains-8", "chains-80"));
    assert!(!str_eq("chains-8", "chains-9"));
    assert!(str_eq("", ""));
    assert!(str_eq("Δx", "Δx"));
    assert!(!str_eq("Δx", "Δy"));
}

#[test]
fn parse_k_ind_and_seq_values() {
    assert_eq!(parse_k_ind("chains-1-ind"), Some(1));
    assert_eq!(parse_k_ind("chains-64-ind"), Some(64));
    assert_eq!(parse_k_ind("chains-128-ind"), None);
    assert_eq!(parse_k_seq("chains-8-seq-branchy"), Some(8));
    assert_eq!(parse_k_chained("chains-1"), None);
}

#[test]
fn chain_count_prefers_declared_families() {
    assert_eq!(chain_count("chains-32"), Some(32));
    assert_eq!(chain_count("chains-16-ind"), Some(16));
    assert_eq!(chain_count("chains-8-seq"), Some(8));
    assert_eq!(chain_count("chains-8-branchy"), Some(8));
    assert_eq!(chain_count("linear"), None);
}

#[test]
fn probe_request_validation_errors() {
    assert_eq!(validate_probe_request("linear", 1), Err(ProbeRequestError::TooSmall));
    assert_eq!(validate_probe_request("bogus", 1024), Err(ProbeRequestError::UnknownAlgorithm));
    assert_eq!(validate_probe_request("chains-8", 1020),
        Err(ProbeRequestError::NotDivisible { n: 1020, k: 8 }));
    assert_eq!(validate_probe_request("chains-8", 1024), Ok(()));
    assert_eq!(validate_probe_request("chain-only-stack-spill", 3), Ok(()));
    assert!(is_declared_algo("chains-64-ind"));
    assert!(!is_declared_algo("chains-128-ind"));
}

#[test]
fn probe_protocol_selection() {
    assert_eq!(probe_protocol("scrambled-dram-cal", N_DRAM_CAL), ProbeProtocol::DramCal);
    assert_eq!(probe_protocol("chain-only", 512), ProbeProtocol::ChainOnly);
    assert_eq!(probe_protocol("chain-only-stack-spill", 512), ProbeProtocol::StackSpill);
    assert_eq!(probe_protocol("linear", 524_288), ProbeProtocol::Standard);
    assert_eq!(probe_protocol("linear", 524_289), ProbeProtocol::Light);
    assert_eq!(ProbeProtocol::DramCal.warm_passes(), 3);
    assert_eq!(ProbeProtocol::DramCal.timed_passes(), 20);
    assert_eq!(ProbeProtocol::Standard.timed_passes(), 1_000);
    assert_eq!(ProbeProtocol::Light.warm_passes(), 10);
    assert_eq!(ProbeProtocol::StackSpill.label(), "light (10w/100t) ΔR_stack");
}

#[test]
fn factorial_labels_of_declared_nodes() {
    assert_eq!(factorial_label("linear", 524_288), "G0000 A=seq D=ind B=none S0");
    assert_eq!(factorial_label("chains-8", 4_194_304), "G1110 A=scr D=ch8 B=none S1");
    assert_eq!(factorial_label("chains-8-seq-branchy", 4_194_304), "G1011 A=seq D=ch8 B=br S1");
    assert_eq!(factorial_label("scrambled-branchy", 524_288), "G0101 A=scr D=ind B=br S0");
    assert_eq!(factorial_label("chain-only", N_DRAM_CAL), "CAL-CHAIN-ONLY-2X WS=64MB  OC-DRAM-1a");
    assert_eq!(factorial_label("scrambled-dram-cal", N_DRAM_CAL_4X),
        "CAL-4X  A=scr D=ind B=none WS=128MB OC-DRAM-1");
    assert_eq!(factorial_label("branchy", 512), "non-factorial");
}

#[test]
fn factorial_label_custom_sizes_match_float_formatting() {
    let sizes: [usize; 12] = [
        0, 2, 65_535, 65_536, 196_608, 327_680, 1_000_000, 4_194_304,
        (1usize << 53) + 1, (1usize << 60) + 12_345, usize::MAX - 1, usize::MAX,
    ];
    for n in sizes {
        let mb = n as f64 * 8.0 / 1048576.0;
        assert_eq!(factorial_label("chain-only", n),
            format!("CAL-CHAIN-ONLY WS={:.0}MB OC-DRAM-1a", mb), "n={}", n);
        assert_eq!(factorial_label("scrambled-dram-cal", n),
            format!("CAL-custom A=scr D=ind B=none WS={:.0}MB OC-DRAM-1", mb), "n={}", n);
    }
}

#[test]
fn build_chains_seq_small_exact() {
    let (chain, heads) = build_chains_seq(7, 3);
    // L = 2: segments [0,1], [2,3], [4,5]; index 6 untouched.
    assert_eq!(chain, vec![1, 0, 3, 2, 5, 4, 0]);
    assert_eq!(heads, vec![0, 2, 4]);
}

#[test]
fn build_chains_scrambled_small_exact() {
    let perm = vec![3, 0, 2, 1];
    let (chain, heads) = build_chains(&perm, 2);
    // segments [3,0] and [2,1]
    assert_eq!(chain, vec![3, 2, 1, 0]);
    assert_eq!(heads, vec![3, 2]);
}

#[test]
fn build_segments_splits_in_order() {
    let perm = vec![5, 4, 3, 2, 1, 0, 9];
    let segs = build_segments(&perm, 3);
    assert_eq!(segs, vec![vec![5, 4], vec![3, 2], vec![1, 0]]);
    let empty = build_segments(&perm, 8);
    assert_eq!(empty.len(), 8);
    assert!(empty.iter().all(|s| s.is_empty()));
}

#[test]
fn chain_kernels_exact_positions() {
    // chain: 0 -> 2 -> 4 -> 1 -> 3 -> 0
    let chain = vec![2, 3, 4, 0, 1];
    // chain-only: 5 steps from 0 -> back to 0
    assert_eq!(run_chain_only(&chain), 0);
    // stack spill: (5 + 1) / 2 = 3 steps from 0 -> 1
    assert_eq!(run_chain_only_stack_spill(&chain), 1);
    let chain6 = vec![2, 3, 4, 5, 1, 0];
    // 0 -> 2 -> 4 -> 1 -> 3 -> 5 -> 0: six steps -> 0; stack spill 3 steps -> 1
    assert_eq!(run_chain_only(&chain6), 0);
    assert_eq!(run_chain_only_stack_spill(&chain6), 1);
    assert_eq!(run_chain_only(&[0]), 0);
    assert_eq!(run_chain_only_stack_spill(&[0]), 0);
}

#[test]
fn probe_kernel_selection() {
    assert_eq!(probe_kernel("linear"), Some(ProbeKernel::Linear));
    assert_eq!(probe_kernel("scrambled-dram-cal"), Some(ProbeKernel::Scrambled));
    assert_eq!(probe_kernel("chain-only"), Some(ProbeKernel::ChainOnly));
    assert_eq!(probe_kernel("chain-only-stack-spill"), Some(ProbeKernel::ChainOnlyStackSpill));
    assert_eq!(probe_kernel("chains-8-seq-branchy"), Some(ProbeKernel::ChainsSeqBranchy));
    assert_eq!(probe_kernel("chains-4-ind"), Some(ProbeKernel::ChainsInd));
    assert_eq!(probe_kernel("chains-256"), Some(ProbeKernel::Chains));
    assert_eq!(probe_kernel("chains-8"), Some(ProbeKernel::Chains));
    assert_eq!(probe_kernel("unknown"), None);
}
