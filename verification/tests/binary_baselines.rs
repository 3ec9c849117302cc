use abr_home_system_benchmark::binary_baselines::{
    declared_branch_bits, declared_permutation, xorshift64_next, BinaryAlgo, ALL_ALGOS,
    BRANCH_SEED, SCRAMBLE_SEED, WINDOW_K,
};

#[test]
fn op_counts_ordered_by_declared_complexity_at_large_n() {
    let n = 8_192;
    let linear = BinaryAlgo::LinearScanDiff.declared_op_count(n);
    let sort_scan = BinaryAlgo::SortThenScan.declared_op_count(n);
    let windowed = BinaryAlgo::WindowedDiff.declared_op_count(n);
    let all_pairs = BinaryAlgo::AllPairsDiff.declared_op_count(n);
    assert!(linear < windowed);
    assert!(linear < sort_scan);
    assert!(windowed < all_pairs);
    assert!(sort_scan < all_pairs);
}

#[test]
fn scrambled_and_branchy_op_counts_match_linear_scan() {
    let n = 8_192;
    let linear = BinaryAlgo::LinearScanDiff.declared_op_count(n);
    assert_eq!(BinaryAlgo::ScrambledAccess.declared_op_count(n), linear);
    assert_eq!(BinaryAlgo::BranchyDataDependent.declared_op_count(n), linear);
}

#[test]
fn windowed_op_count_matches_formula() {
    assert_eq!(
        BinaryAlgo::WindowedDiff.declared_op_count(100),
        99 * WINDOW_K as u64
    );
}

#[test]
fn all_pairs_op_count_matches_formula() {
    assert_eq!(BinaryAlgo::AllPairsDiff.declared_op_count(64), 64 * 63);
}

#[test]
fn label_and_complexity_class_nonempty_for_all_algos() {
    for algo in ALL_ALGOS {
        assert!(!algo.label().is_empty());
        assert!(!algo.complexity_class().is_empty());
    }
}

#[test]
fn declared_permutation_is_a_valid_permutation() {
    let n = 256;
    let perm = declared_permutation(n, SCRAMBLE_SEED);
    assert_eq!(perm.len(), n);
    let mut sorted = perm.clone();
    sorted.sort();
    let expected: Vec<usize> = (0..n).collect();
    assert_eq!(sorted, expected, "permutation must be a bijection on 0..n");
}

#[test]
fn declared_permutation_deterministic_for_same_seed() {
    let a = declared_permutation(128, SCRAMBLE_SEED);
    let b = declared_permutation(128, SCRAMBLE_SEED);
    assert_eq!(a, b);
}

#[test]
fn declared_permutation_not_identity() {
    let n = 256;
    let perm = declared_permutation(n, SCRAMBLE_SEED);
    let identity: Vec<usize> = (0..n).collect();
    assert_ne!(perm, identity, "permutation should not equal identity order");
}

#[test]
fn declared_branch_bits_deterministic_and_correct_length() {
    let a = declared_branch_bits(256, BRANCH_SEED);
    let b = declared_branch_bits(256, BRANCH_SEED);
    assert_eq!(a.len(), 256);
    assert_eq!(a, b);
}

#[test]
fn declared_branch_bits_roughly_balanced() {
    let bits = declared_branch_bits(1_000, BRANCH_SEED);
    let true_count = bits.iter().filter(|&&b| b).count();
    assert!(true_count > 300 && true_count < 700,
        "branch bit sequence should be roughly balanced, got {} true of 1000", true_count);
}

// ── Further cases ──────────────────────────────────────────────────────────

#[test]
fn labels_and_classes_exact() {
    assert_eq!(BinaryAlgo::AllPairsDiff.label(), "ALL_PAIRS");
    assert_eq!(BinaryAlgo::SortThenScan.label(), "SORT_SCAN");
    assert_eq!(BinaryAlgo::BranchyDataDependent.label(), "BRANCHY");
    assert_eq!(BinaryAlgo::WindowedDiff.complexity_class(), "O(N*K)");
    assert_eq!(BinaryAlgo::ScrambledAccess.complexity_class(), "O(N) cache-unfriendly");
}

#[test]
fn sort_scan_op_count_uses_ceil_log2() {
    // 8192 * 13 + 8191
    assert_eq!(BinaryAlgo::SortThenScan.declared_op_count(8_192), 8_192 * 13 + 8_191);
    // n = 5: ceil(log2 5) = 3 -> 5*3 + 4
    assert_eq!(BinaryAlgo::SortThenScan.declared_op_count(5), 19);
    assert_eq!(BinaryAlgo::SortThenScan.declared_op_count(1), 0);
    assert_eq!(BinaryAlgo::SortThenScan.declared_op_count(0), 0);
    assert_eq!(BinaryAlgo::SortThenScan.declared_op_count(2), 3);
}

#[test]
fn op_counts_at_zero_and_one() {
    for algo in ALL_ALGOS {
        assert_eq!(algo.declared_op_count(0), 0);
    }
    assert_eq!(BinaryAlgo::PrefixSum.declared_op_count(1), 1);
    assert_eq!(BinaryAlgo::AllPairsDiff.declared_op_count(1), 0);
}

#[test]
fn all_pairs_op_count_saturates() {
    assert_eq!(BinaryAlgo::AllPairsDiff.declared_op_count(usize::MAX), u64::MAX);
    assert_eq!(BinaryAlgo::WindowedDiff.declared_op_count(usize::MAX), u64::MAX);
    assert_eq!(BinaryAlgo::SortThenScan.declared_op_count(usize::MAX), u64::MAX);
    assert_eq!(BinaryAlgo::PrefixSum.declared_op_count(usize::MAX), usize::MAX as u64);
}

#[test]
fn xorshift_step_matches_reference() {
    let mut s: u64 = 1;
    let r = xorshift64_next(&mut s);
    // 1 ^ (1 << 13) = 0x2001; ^ (0x2001 >> 7) = 0x2041; ^ (0x2041 << 17) = 0x40822041
    assert_eq!(r, 0x4082_2041);
    assert_eq!(s, r);
}

#[test]
fn zero_seed_behaves_as_seed_one() {
    assert_eq!(declared_permutation(64, 0), declared_permutation(64, 1));
    assert_eq!(declared_branch_bits(64, 0), declared_branch_bits(64, 1));
}

#[test]
fn declared_permutation_small_sizes() {
    assert_eq!(declared_permutation(0, SCRAMBLE_SEED), Vec::<usize>::new());
    assert_eq!(declared_permutation(1, SCRAMBLE_SEED), vec![0]);
    let p2 = declared_permutation(2, 1);
    // state 1 -> 0x40822041, odd: position 1 stays put
    assert_eq!(p2, vec![0, 1]);
    let mut s: u64 = 7;
    let r = xorshift64_next(&mut s);
    let p2b = declared_permutation(2, 7);
    assert_eq!(p2b, if r % 2 == 0 { vec![1, 0] } else { vec![0, 1] });
}

#[test]
fn branch_bits_follow_generator_low_bit() {
    let bits = declared_branch_bits(3, 1);
    let mut s: u64 = 1;
    for b in bits {
        assert_eq!(b, xorshift64_next(&mut s) & 1 == 1);
    }
}
