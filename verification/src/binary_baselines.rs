//! Declared binary/conventional baseline algorithms: their labels, their
//! declared elementary-operation counts, and the fixed-seed auxiliary data
//! (index permutation, branch-bit sequence) that the mechanism-isolating
//! baselines walk.
use vstd::prelude::*;
use vstd::arithmetic::power2::{
    pow2,
    lemma_pow2_unfold,
    lemma2_to64,
    lemma_pow2_strictly_increases,
    lemma_pow2_pos,
};
use vstd::std_specs::bits::{u64_leading_zeros, axiom_u64_leading_zeros};
use vstd::bits::lemma_u64_shr_is_div;

verus! {

/// Declared window size for the windowed-difference baseline.
pub const WINDOW_K: usize = 8;

/// Declared fixed seed for the scrambled-access index permutation.
pub const SCRAMBLE_SEED: u64 = 0x9E3779B97F4A7C15;

/// Declared fixed seed for the data-dependent branch-bit sequence.
pub const BRANCH_SEED: u64 = 0xD1B54A32D192ED03;

/// The declared baseline algorithms.
#[derive(Debug, Clone, Copy, PartialEq, Eq, Structural)]
pub enum BinaryAlgo {
    AllPairsDiff,
    LinearScanDiff,
    WindowedDiff,
    PrefixSum,
    SortThenScan,
    ScrambledAccess,
    BranchyDataDependent,
}

/// Every declared baseline, in reporting order.
pub const ALL_ALGOS: [BinaryAlgo; 7] = [
    BinaryAlgo::AllPairsDiff,
    BinaryAlgo::LinearScanDiff,
    BinaryAlgo::WindowedDiff,
    BinaryAlgo::PrefixSum,
    BinaryAlgo::SortThenScan,
    BinaryAlgo::ScrambledAccess,
    BinaryAlgo::BranchyDataDependent,
];

/// Clamps a mathematical count into `u64` the way chained saturating
/// arithmetic on non-negative operands does.
pub open spec fn saturate(x: int) -> u64 {
    if x >= u64::MAX {
        u64::MAX
    } else if x <= 0 {
        0
    } else {
        x as u64
    }
}

/// Number of binary digits of `x` (0 for 0).
pub open spec fn bit_length(x: nat) -> nat
    decreases x,
{
    if x == 0 {
        0
    } else {
        1 + bit_length(x / 2)
    }
}

/// `ceil(log2(n))` for `n >= 1`, and 0 for `n <= 1`.
pub open spec fn ceil_log2(n: nat) -> nat {
    if n <= 1 {
        0
    } else {
        bit_length((n - 1) as nat)
    }
}

/// `n - 1` floored at zero.
pub open spec fn pred_floor(n: nat) -> nat {
    if n == 0 {
        0
    } else {
        (n - 1) as nat
    }
}

impl BinaryAlgo {
    /// The report label of each algorithm.
    pub open spec fn label_spec(self) -> Seq<char> {
        match self {
            BinaryAlgo::AllPairsDiff => "ALL_PAIRS"@,
            BinaryAlgo::LinearScanDiff => "LINEAR_SCAN"@,
            BinaryAlgo::WindowedDiff => "WINDOWED"@,
            BinaryAlgo::PrefixSum => "PREFIX_SUM"@,
            BinaryAlgo::SortThenScan => "SORT_SCAN"@,
            BinaryAlgo::ScrambledAccess => "SCRAMBLED"@,
            BinaryAlgo::BranchyDataDependent => "BRANCHY"@,
        }
    }

    /// The declared complexity class of each algorithm.
    pub open spec fn complexity_class_spec(self) -> Seq<char> {
        match self {
            BinaryAlgo::AllPairsDiff => "O(N^2)"@,
            BinaryAlgo::LinearScanDiff => "O(N)"@,
            BinaryAlgo::WindowedDiff => "O(N*K)"@,
            BinaryAlgo::PrefixSum => "O(N)"@,
            BinaryAlgo::SortThenScan => "O(N log N)"@,
            BinaryAlgo::ScrambledAccess => "O(N) cache-unfriendly"@,
            BinaryAlgo::BranchyDataDependent => "O(N) branch-heavy"@,
        }
    }

    /// The unclamped declared elementary-operation count at size `n`.
    pub open spec fn exact_op_count(self, n: nat) -> int {
        match self {
            BinaryAlgo::AllPairsDiff => (n * pred_floor(n)) as int,
            BinaryAlgo::LinearScanDiff => pred_floor(n) as int,
            BinaryAlgo::WindowedDiff => pred_floor(n) * WINDOW_K,
            BinaryAlgo::PrefixSum => n as int,
            BinaryAlgo::SortThenScan => (n * ceil_log2(n) + pred_floor(n)) as int,
            BinaryAlgo::ScrambledAccess => pred_floor(n) as int,
            BinaryAlgo::BranchyDataDependent => pred_floor(n) as int,
        }
    }

    /// The declared operation count as reported: clamped to `u64`.
    pub open spec fn op_count_spec(self, n: nat) -> u64 {
        saturate(self.exact_op_count(n))
    }

    pub fn label(self) -> (r: &'static str)
        ensures
            r@ == self.label_spec(),
    {
        match self {
            BinaryAlgo::AllPairsDiff => "ALL_PAIRS",
            BinaryAlgo::LinearScanDiff => "LINEAR_SCAN",
            BinaryAlgo::WindowedDiff => "WINDOWED",
            BinaryAlgo::PrefixSum => "PREFIX_SUM",
            BinaryAlgo::SortThenScan => "SORT_SCAN",
            BinaryAlgo::ScrambledAccess => "SCRAMBLED",
            BinaryAlgo::BranchyDataDependent => "BRANCHY",
        }
    }

    pub fn complexity_class(self) -> (r: &'static str)
        ensures
            r@ == self.complexity_class_spec(),
    {
        match self {
            BinaryAlgo::AllPairsDiff => "O(N^2)",
            BinaryAlgo::LinearScanDiff => "O(N)",
            BinaryAlgo::WindowedDiff => "O(N*K)",
            BinaryAlgo::PrefixSum => "O(N)",
            BinaryAlgo::SortThenScan => "O(N log N)",
            BinaryAlgo::ScrambledAccess => "O(N) cache-unfriendly",
            BinaryAlgo::BranchyDataDependent => "O(N) branch-heavy",
        }
    }

    /// Declared elementary-operation count for this algorithm at size `n`,
    /// saturating at `u64::MAX`. Used for reporting only.
    pub fn declared_op_count(self, n: usize) -> (r: u64)
        ensures
            r == self.op_count_spec(n as nat),
    {
        let n64 = n as u64;
        let pred = n64.saturating_sub(1);
        match self {
            BinaryAlgo::AllPairsDiff => saturating_product(n64, pred),
            BinaryAlgo::LinearScanDiff => pred,
            BinaryAlgo::WindowedDiff => saturating_product(pred, WINDOW_K as u64),
            BinaryAlgo::PrefixSum => n64,
            BinaryAlgo::SortThenScan => {
                let log2n = ceil_log2_u64(n64);
                saturating_product(n64, log2n).saturating_add(pred)
            },
            BinaryAlgo::ScrambledAccess => pred,
            BinaryAlgo::BranchyDataDependent => pred,
        }
    }
}

/// `a * b`, clamped at `u64::MAX`.
fn saturating_product(a: u64, b: u64) -> (r: u64)
    ensures
        r == saturate(a * b),
{
    assert(a * b >= 0) by (nonlinear_arith);
    match a.checked_mul(b) {
        Some(v) => v,
        None => u64::MAX,
    }
}

pub(crate) proof fn lemma_bit_length_bound(x: nat, k: nat)
    requires
        x < pow2(k),
    ensures
        bit_length(x) <= k,
    decreases k,
{
    if k == 0 {
        assert(pow2(0) == 1) by {
            lemma2_to64();
        }
    } else {
        lemma_pow2_unfold(k);
        if x > 0 {
            lemma_bit_length_bound(x / 2, (k - 1) as nat);
        }
    }
}

/// `64 - leading_zeros(x)` is the number of binary digits of `x`.
proof fn lemma_leading_zeros_bit_length(x: u64)
    ensures
        bit_length(x as nat) == 64 - u64_leading_zeros(x),
{
    axiom_u64_leading_zeros(x);
    let lz = u64_leading_zeros(x);
    lemma2_to64();
    if x == 0 {
    } else {
        let hi = (64 - lz) as nat;
        let lo = (63 - lz) as nat;
        if lz > 0 {
            lemma_u64_shr_is_div(x, hi as u64);
            vstd::arithmetic::power2::lemma_pow2_pos(hi);
            vstd::arithmetic::div_mod::lemma_fundamental_div_mod(x as int, pow2(hi) as int);
            assert(x < pow2(hi));
        }
        lemma_bit_length_bound(x as nat, hi);
        let y = x >> (lo as u64);
        assert(y & 1u64 != 0u64 ==> y != 0u64) by (bit_vector);
        lemma_u64_shr_is_div(x, lo as u64);
        vstd::arithmetic::power2::lemma_pow2_pos(lo);
        vstd::arithmetic::div_mod::lemma_fundamental_div_mod(x as int, pow2(lo) as int);
        let q = x as int / pow2(lo) as int;
        let d = pow2(lo) as int;
        assert(x >= d) by (nonlinear_arith)
            requires
                x == d * q + (x as int) % d,
                q >= 1,
                (x as int) % d >= 0,
        ;
        lemma_bit_length_lower(x as nat, lo);
    }
}

/// The number of binary digits of `x`.
pub(crate) fn bit_length_u64(x: u64) -> (r: u64)
    ensures
        r == bit_length(x as nat),
        r <= 64,
{
    let lz = x.leading_zeros();
    proof {
        lemma_leading_zeros_bit_length(x);
    }
    64 - lz as u64
}

/// `ceil(log2(n))`: the bit length of `n - 1`, and 0 for `n <= 1`.
fn ceil_log2_u64(n: u64) -> (r: u64)
    ensures
        r == ceil_log2(n as nat),
{
    if n <= 1 {
        0
    } else {
        bit_length_u64(n - 1)
    }
}

/// The seed actually used: xorshift requires a nonzero state.
pub open spec fn nonzero_seed(seed: u64) -> u64 {
    if seed == 0 {
        1
    } else {
        seed
    }
}

/// One xorshift64 step.
pub open spec fn xorshift64_step(x: u64) -> u64 {
    let a = x ^ (x << 13u64);
    let b = a ^ (a >> 7u64);
    b ^ (b << 17u64)
}

/// The state after `k` xorshift64 steps from `state`.
pub open spec fn xorshift_iter(state: u64, k: nat) -> u64
    decreases k,
{
    if k == 0 {
        state
    } else {
        xorshift64_step(xorshift_iter(state, (k - 1) as nat))
    }
}

/// xorshift64 PRNG: advances `state` one step and returns the new state.
pub fn xorshift64_next(state: &mut u64) -> (r: u64)
    ensures
        *final(state) == xorshift64_step(*old(state)),
        r == *final(state),
{
    let mut x = *state;
    x = x ^ (x << 13u64);
    x = x ^ (x >> 7u64);
    x = x ^ (x << 17u64);
    *state = x;
    x
}

/// `0, 1, ..., n - 1`.
pub open spec fn identity_seq(n: nat) -> Seq<usize> {
    Seq::new(n, |i: int| i as usize)
}

/// `s` with positions `i` and `j` exchanged.
pub open spec fn swap_seq(s: Seq<usize>, i: int, j: int) -> Seq<usize> {
    s.update(i, s[j]).update(j, s[i])
}

/// Fisher-Yates from position `i` downward: at each position `i >= 1` the
/// generator advances once and position `i` is exchanged with position
/// `state % (i + 1)`.
pub open spec fn shuffle_from(s: Seq<usize>, state: u64, i: nat) -> Seq<usize>
    decreases i,
{
    if i == 0 {
        s
    } else {
        let next = xorshift64_step(state);
        let r = (next as int) % ((i + 1) as int);
        shuffle_from(swap_seq(s, i as int, r), next, (i - 1) as nat)
    }
}

/// The declared permutation of `0..n` for `seed`.
pub open spec fn fisher_yates(n: nat, seed: u64) -> Seq<usize> {
    if n == 0 {
        Seq::empty()
    } else {
        shuffle_from(identity_seq(n), nonzero_seed(seed), (n - 1) as nat)
    }
}

/// `s` is a bijection on `0..n`: length `n`, every entry below `n`, no entry twice.
pub open spec fn is_permutation(s: Seq<usize>, n: nat) -> bool {
    &&& s.len() == n
    &&& forall|i: int| 0 <= i < n ==> #[trigger] s[i] < n
    &&& forall|i: int, j: int| 0 <= i < n && 0 <= j < n && i != j ==> s[i] != s[j]
}

proof fn lemma_swap_keeps_permutation(s: Seq<usize>, n: nat, i: int, j: int)
    requires
        is_permutation(s, n),
        0 <= i < n,
        0 <= j < n,
    ensures
        is_permutation(swap_seq(s, i, j), n),
{
    let t = swap_seq(s, i, j);
    assert forall|a: int, b: int| 0 <= a < n && 0 <= b < n && a != b implies t[a] != t[b] by {
        let sa = if a == j { i } else if a == i { j } else { a };
        let sb = if b == j { i } else if b == i { j } else { b };
        assert(t[a] == s[sa]);
        assert(t[b] == s[sb]);
    }
}

proof fn lemma_shuffle_keeps_permutation(s: Seq<usize>, n: nat, state: u64, i: nat)
    requires
        is_permutation(s, n),
        i < n,
    ensures
        is_permutation(shuffle_from(s, state, i), n),
    decreases i,
{
    if i > 0 {
        let next = xorshift64_step(state);
        let r = (next as int) % ((i + 1) as int);
        lemma_swap_keeps_permutation(s, n, i as int, r);
        lemma_shuffle_keeps_permutation(swap_seq(s, i as int, r), n, next, (i - 1) as nat);
    }
}

/// The declared permutation is a bijection on `0..n`, for every `n` and seed.
pub proof fn lemma_fisher_yates_is_permutation(n: nat, seed: u64)
    requires
        n <= usize::MAX,
    ensures
        is_permutation(fisher_yates(n, seed), n),
{
    if n > 0 {
        let id = identity_seq(n);
        assert forall|i: int, j: int| 0 <= i < n && 0 <= j < n && i != j implies id[i] != id[j] by {
            assert(id[i] == i as usize && id[j] == j as usize);
        }
        lemma_shuffle_keeps_permutation(identity_seq(n), n, nonzero_seed(seed), (n - 1) as nat);
    }
}

/// Builds a fixed pseudo-random permutation of `0..n` via Fisher-Yates,
/// seeded deterministically by `seed` (0 is replaced by 1).
pub fn declared_permutation(n: usize, seed: u64) -> (perm: Vec<usize>)
    ensures
        perm@ == fisher_yates(n as nat, seed),
        is_permutation(perm@, n as nat),
{
    proof {
        lemma_fisher_yates_is_permutation(n as nat, seed);
    }
    let mut perm: Vec<usize> = Vec::new();
    let mut k: usize = 0;
    while k < n
        invariant
            k <= n,
            perm@ == identity_seq(k as nat),
        decreases n - k,
    {
        perm.push(k);
        k = k + 1;
    }
    if n == 0 {
        return perm;
    }
    let mut s: u64 = if seed == 0 { 1 } else { seed };
    let mut i: usize = n - 1;
    while i >= 1
        invariant
            i < n,
            perm.len() == n,
            shuffle_from(perm@, s, i as nat) == fisher_yates(n as nat, seed),
        decreases i,
    {
        let ghost before = perm@;
        let next = xorshift64_next(&mut s);
        let r = (next % (i as u64 + 1)) as usize;
        let a = perm[i];
        let b = perm[r];
        perm.set(i, b);
        perm.set(r, a);
        assert(perm@ =~= swap_seq(before, i as int, r as int));
        i = i - 1;
    }
    perm
}

/// The declared branch-bit sequence: bit `j` is the low bit of the state
/// after `j + 1` generator steps from the nonzero seed.
pub open spec fn branch_bits_spec(n: nat, seed: u64) -> Seq<bool> {
    Seq::new(n, |j: int| xorshift_iter(nonzero_seed(seed), (j + 1) as nat) & 1 == 1)
}

/// Builds a fixed pseudo-random boolean sequence of length `n`, seeded
/// deterministically by `seed` (0 is replaced by 1).
pub fn declared_branch_bits(n: usize, seed: u64) -> (bits: Vec<bool>)
    ensures
        bits@ == branch_bits_spec(n as nat, seed),
{
    let mut s: u64 = if seed == 0 { 1 } else { seed };
    let mut bits: Vec<bool> = Vec::new();
    let mut j: usize = 0;
    while j < n
        invariant
            j <= n,
            s == xorshift_iter(nonzero_seed(seed), j as nat),
            bits@ == branch_bits_spec(j as nat, seed),
        decreases n - j,
    {
        let x = xorshift64_next(&mut s);
        bits.push(x & 1 == 1);
        j = j + 1;
        assert(bits@ =~= branch_bits_spec(j as nat, seed));
    }
    bits
}

proof fn lemma_bit_length_lower(x: nat, k: nat)
    requires
        x >= pow2(k),
    ensures
        bit_length(x) >= k + 1,
    decreases k,
{
    vstd::arithmetic::power2::lemma_pow2_pos(k);
    if k > 0 {
        lemma_pow2_unfold(k);
        lemma_bit_length_lower(x / 2, (k - 1) as nat);
    }
}

proof fn lemma_bit_length_below(x: nat)
    requires
        x >= 3,
    ensures
        bit_length(x) < x,
    decreases x,
{
    if x / 2 >= 3 {
        lemma_bit_length_below(x / 2);
    } else {
        assert(bit_length(x / 2) == x / 2) by {
            reveal_with_fuel(bit_length, 3);
        }
    }
}

/// The mechanism-isolating baselines hold the operation count of the
/// linear scan at every size: only access pattern or branch
/// predictability differs.
pub proof fn lemma_mechanism_variants_match_linear_scan(n: nat)
    ensures
        BinaryAlgo::ScrambledAccess.op_count_spec(n) == BinaryAlgo::LinearScanDiff.op_count_spec(n),
        BinaryAlgo::BranchyDataDependent.op_count_spec(n) == BinaryAlgo::LinearScanDiff.op_count_spec(
            n,
        ),
{
}

/// At large N the declared operation counts order by complexity class:
/// O(N) below O(N*K) and O(N log N), both below O(N^2). Holds from
/// N = 9 for as long as the O(N log N) count does not saturate.
pub proof fn lemma_op_counts_ordered_by_complexity(n: nat)
    requires
        9 <= n,
        BinaryAlgo::SortThenScan.exact_op_count(n) < u64::MAX,
    ensures
        BinaryAlgo::LinearScanDiff.op_count_spec(n) < BinaryAlgo::WindowedDiff.op_count_spec(n),
        BinaryAlgo::LinearScanDiff.op_count_spec(n) < BinaryAlgo::SortThenScan.op_count_spec(n),
        BinaryAlgo::WindowedDiff.op_count_spec(n) < BinaryAlgo::AllPairsDiff.op_count_spec(n),
        BinaryAlgo::SortThenScan.op_count_spec(n) < BinaryAlgo::AllPairsDiff.op_count_spec(n),
{
    let x = (n - 1) as nat;
    let c = ceil_log2(n);
    lemma_bit_length_below(x);
    lemma2_to64();
    lemma_bit_length_lower(x, 0);
    let sort = n * c + x;
    assert(c >= 1);
    assert(c + 2 <= n);
    assert(n * c + x < n * x) by (nonlinear_arith)
        requires
            c + 2 <= n,
            x == n - 1,
            n >= 9,
    ;
    assert(8 * x < n * x) by (nonlinear_arith)
        requires
            x == n - 1,
            n >= 9,
    ;
    assert(n * c >= n) by (nonlinear_arith)
        requires
            c >= 1,
    ;
    if n >= 65 {
        lemma_bit_length_lower(x, 6);
        assert(n * c >= 7 * n) by (nonlinear_arith)
            requires
                c >= 7,
        ;
    }
    assert(x * 8 < u64::MAX);
}

/// Every algorithm has a non-empty label and complexity class.
pub proof fn lemma_labels_nonempty(algo: BinaryAlgo)
    ensures
        algo.label_spec().len() > 0,
        algo.complexity_class_spec().len() > 0,
{
    reveal_strlit("ALL_PAIRS");
    reveal_strlit("LINEAR_SCAN");
    reveal_strlit("WINDOWED");
    reveal_strlit("PREFIX_SUM");
    reveal_strlit("SORT_SCAN");
    reveal_strlit("SCRAMBLED");
    reveal_strlit("BRANCHY");
    reveal_strlit("O(N^2)");
    reveal_strlit("O(N)");
    reveal_strlit("O(N*K)");
    reveal_strlit("O(N log N)");
    reveal_strlit("O(N) cache-unfriendly");
    reveal_strlit("O(N) branch-heavy");
}

/// A nonzero generator state stays nonzero, so the generator seeded with
/// `nonzero_seed` never collapses to the all-zero fixed point.
pub proof fn lemma_xorshift_keeps_nonzero(x: u64)
    requires
        x != 0,
    ensures
        xorshift64_step(x) != 0,
{
    let a = x ^ (x << 13u64);
    let b = a ^ (a >> 7u64);
    assert(x != 0 ==> x ^ (x << 13u64) != 0) by (bit_vector);
    assert(a != 0 ==> a ^ (a >> 7u64) != 0) by (bit_vector);
    assert(b != 0 ==> b ^ (b << 17u64) != 0) by (bit_vector);
}

/// Every state the seeded generator reaches is nonzero.
pub proof fn lemma_generator_states_nonzero(seed: u64, k: nat)
    ensures
        xorshift_iter(nonzero_seed(seed), k) != 0,
    decreases k,
{
    if k > 0 {
        lemma_generator_states_nonzero(seed, (k - 1) as nat);
        lemma_xorshift_keeps_nonzero(xorshift_iter(nonzero_seed(seed), (k - 1) as nat));
    }
}

proof fn lemma_bit_length_covers(x: nat)
    ensures
        x < pow2(bit_length(x)),
        x >= 1 ==> pow2((bit_length(x) - 1) as nat) <= x,
    decreases x,
{
    lemma2_to64();
    if x > 0 {
        lemma_bit_length_covers(x / 2);
        lemma_pow2_unfold(bit_length(x));
        if x / 2 >= 1 {
            lemma_pow2_unfold(bit_length(x / 2));
        } else {
            assert(bit_length(x / 2) == 0);
        }
    }
}

/// `ceil_log2(n)` is the least exponent whose power of two reaches `n`.
pub proof fn lemma_ceil_log2_least_covering_power(n: nat)
    requires
        n >= 1,
    ensures
        n <= pow2(ceil_log2(n)),
        ceil_log2(n) > 0 ==> pow2((ceil_log2(n) - 1) as nat) < n,
{
    lemma2_to64();
    if n > 1 {
        lemma_bit_length_covers((n - 1) as nat);
    }
}

/// The declared operation counts, in terms of `n` alone: the prefix sum and
/// every O(N) pass take `n` resp. `n - 1` steps, the window `8 (n - 1)`, all
/// pairs `n (n - 1)`, and sort-then-scan `n c + n - 1` where `c` is the least
/// exponent with `2^c >= n`; each clamped at `u64::MAX`.
pub proof fn lemma_declared_op_count_values(n: nat, c: nat)
    requires
        n >= 1 ==> n <= pow2(c) && (c == 0 || pow2((c - 1) as nat) < n),
    ensures
        BinaryAlgo::PrefixSum.op_count_spec(n) == (if n < u64::MAX { n as int } else { u64::MAX as int }),
        n == 0 ==> BinaryAlgo::LinearScanDiff.op_count_spec(n) == 0
            && BinaryAlgo::ScrambledAccess.op_count_spec(n) == 0
            && BinaryAlgo::BranchyDataDependent.op_count_spec(n) == 0
            && BinaryAlgo::WindowedDiff.op_count_spec(n) == 0
            && BinaryAlgo::AllPairsDiff.op_count_spec(n) == 0
            && BinaryAlgo::SortThenScan.op_count_spec(n) == 0,
        1 <= n <= u64::MAX ==> BinaryAlgo::LinearScanDiff.op_count_spec(n) == n - 1
            && BinaryAlgo::ScrambledAccess.op_count_spec(n) == n - 1
            && BinaryAlgo::BranchyDataDependent.op_count_spec(n) == n - 1,
        n >= 1 ==> BinaryAlgo::WindowedDiff.op_count_spec(n) == (if 8 * (n - 1) < u64::MAX {
            8 * (n - 1)
        } else {
            u64::MAX as int
        }),
        n >= 1 ==> BinaryAlgo::AllPairsDiff.op_count_spec(n) == (if n * (n - 1) < u64::MAX {
            n * (n - 1)
        } else {
            u64::MAX as int
        }),
        n >= 1 ==> BinaryAlgo::SortThenScan.op_count_spec(n) == (if n * c + n - 1 < u64::MAX {
            n * c + n - 1
        } else {
            u64::MAX as int
        }),
{
    if n >= 1 {
        lemma_ceil_log2_least_covering_power(n);
        let d = ceil_log2(n);
        lemma_pow2_pos(c);
        lemma_pow2_pos(d);
        if d < c {
            if d < (c - 1) as nat {
                lemma_pow2_strictly_increases(d, (c - 1) as nat);
            }
        } else if c < d {
            if c < (d - 1) as nat {
                lemma_pow2_strictly_increases(c, (d - 1) as nat);
            }
        }
        assert(d == c);
        assert(n * (n - 1) >= 0) by (nonlinear_arith)
            requires
                n >= 1,
        ;
        assert(n * c >= 0) by (nonlinear_arith);
    }
}

/// The generator is linear over bit vectors: stepping `x ^ y` gives the
/// exclusive or of the steps of `x` and `y`, and zero is its fixed point.
pub proof fn lemma_xorshift_linear(x: u64, y: u64)
    ensures
        xorshift64_step(x ^ y) == xorshift64_step(x) ^ xorshift64_step(y),
        xorshift64_step(0) == 0,
{
    assert(((x ^ y) ^ ((x ^ y) << 13u64)) == (x ^ (x << 13u64)) ^ (y ^ (y << 13u64))) by (bit_vector);
    let a = x ^ (x << 13u64);
    let b = y ^ (y << 13u64);
    assert(((a ^ b) ^ ((a ^ b) >> 7u64)) == (a ^ (a >> 7u64)) ^ (b ^ (b >> 7u64))) by (bit_vector);
    let c = a ^ (a >> 7u64);
    let d = b ^ (b >> 7u64);
    assert(((c ^ d) ^ ((c ^ d) << 17u64)) == (c ^ (c << 17u64)) ^ (d ^ (d << 17u64))) by (bit_vector);
    assert(0u64 ^ (0u64 << 13u64) == 0u64) by (bit_vector);
    assert(0u64 ^ (0u64 >> 7u64) == 0u64) by (bit_vector);
    assert(0u64 ^ (0u64 << 17u64) == 0u64) by (bit_vector);
}

proof fn lemma_xorshift_iter_shift(s: u64, k: nat)
    ensures
        xorshift_iter(xorshift64_step(s), k) == xorshift_iter(s, k + 1),
    decreases k,
{
    assert(xorshift_iter(s, k + 1) == xorshift64_step(xorshift_iter(s, k)));
    if k > 0 {
        lemma_xorshift_iter_shift(s, (k - 1) as nat);
    } else {
        assert(xorshift_iter(s, 0) == s);
    }
}

/// One generator step per branch bit: the first bit for `seed` is the low
/// bit of the generator's first output `x` from the nonzero seed, and the
/// remaining bits are exactly the branch bits for seed `x`.
pub proof fn lemma_branch_bits_one_step_per_bit(n: nat, seed: u64)
    ensures
        branch_bits_spec(0, seed).len() == 0,
        ({
            let s0: u64 = if seed == 0 { 1 } else { seed };
            let x = xorshift64_step(s0);
            let b = branch_bits_spec(n + 1, seed);
            &&& b.len() == n + 1
            &&& b[0] == (x & 1 == 1)
            &&& b.subrange(1, n + 1 as int) == branch_bits_spec(n, x)
        }),
{
    let s0: u64 = if seed == 0 { 1 } else { seed };
    let x = xorshift64_step(s0);
    lemma_xorshift_keeps_nonzero(s0);
    assert(nonzero_seed(x) == x);
    assert(xorshift_iter(s0, 1) == x) by {
        reveal_with_fuel(xorshift_iter, 2);
    }
    let b = branch_bits_spec(n + 1, seed);
    assert forall|j: int| 0 <= j < n implies #[trigger] b.subrange(1, n + 1 as int)[j]
        == branch_bits_spec(n, x)[j] by {
        lemma_xorshift_iter_shift(s0, (j + 1) as nat);
    }
    assert(b.subrange(1, n + 1 as int) =~= branch_bits_spec(n, x));
}

proof fn lemma_swap_take(s: Seq<usize>, i: int, j: int, m: int)
    requires
        0 <= i < m,
        0 <= j < m,
        m <= s.len(),
    ensures
        swap_seq(s, i, j).take(m) == swap_seq(s.take(m), i, j),
{
    assert(swap_seq(s, i, j).take(m) =~= swap_seq(s.take(m), i, j));
}

/// The shuffle from position `i` down touches positions `0..=i` only.
proof fn lemma_shuffle_prefix(s: Seq<usize>, state: u64, i: nat, m: int)
    requires
        i < m <= s.len(),
    ensures
        shuffle_from(s, state, i).len() == s.len(),
        shuffle_from(s, state, i).take(m) == shuffle_from(s.take(m), state, i),
        forall|k: int| i < k < s.len() ==> #[trigger] shuffle_from(s, state, i)[k] == s[k],
    decreases i,
{
    if i > 0 {
        let next = xorshift64_step(state);
        let r = (next as int) % ((i + 1) as int);
        lemma_swap_take(s, i as int, r, m);
        lemma_shuffle_prefix(swap_seq(s, i as int, r), next, (i - 1) as nat, m);
    }
}

/// Relabelling the entries commutes with the shuffle.
proof fn lemma_shuffle_relabel(s: Seq<usize>, f: spec_fn(usize) -> usize, state: u64, i: nat)
    requires
        i < s.len(),
    ensures
        shuffle_from(s.map_values(f), state, i) == shuffle_from(s, state, i).map_values(f),
    decreases i,
{
    if i > 0 {
        let next = xorshift64_step(state);
        let r = (next as int) % ((i + 1) as int);
        assert(swap_seq(s.map_values(f), i as int, r) =~= swap_seq(s, i as int, r).map_values(f));
        lemma_shuffle_relabel(swap_seq(s, i as int, r), f, next, (i - 1) as nat);
    }
}

/// How the permutation for `n` relates to the one for `n - 1`: its first
/// Fisher-Yates step draws the generator's first output `x` and puts
/// `r = x % n` at the last position; the rest is the permutation of
/// `0..n-1` for seed `x`, with the value `r` replaced by `n - 1`. With the
/// single-element permutation `[0]` this fixes the permutation for every `n`.
pub proof fn lemma_fisher_yates_step(n: nat, seed: u64)
    requires
        2 <= n <= usize::MAX,
    ensures
        fisher_yates(1, seed) == seq![0usize],
        ({
            let s0: u64 = if seed == 0 { 1 } else { seed };
            let x = xorshift64_step(s0);
            let r = (x as int) % (n as int);
            let p = fisher_yates(n, seed);
            let q = fisher_yates((n - 1) as nat, x);
            &&& p.len() == n
            &&& q.len() == n - 1
            &&& p[n - 1] == r
            &&& forall|j: int|
                0 <= j < n - 1 ==> #[trigger] p[j] == (if q[j] == r {
                    (n - 1) as usize
                } else {
                    q[j]
                })
        }),
{
    assert(fisher_yates(1, seed) =~= seq![0usize]);
    let s0: u64 = if seed == 0 { 1 } else { seed };
    let x = xorshift64_step(s0);
    lemma_xorshift_keeps_nonzero(s0);
    assert(nonzero_seed(x) == x);
    let r = (x as int) % (n as int);
    let id = identity_seq(n);
    let b = swap_seq(id, (n - 1) as int, r);
    let p = fisher_yates(n, seed);
    assert(p == shuffle_from(b, x, (n - 2) as nat));
    let f = |v: usize| if v == r as usize { (n - 1) as usize } else { v };
    let id1 = identity_seq((n - 1) as nat);
    assert(b.take(n - 1) =~= id1.map_values(f));
    lemma_shuffle_prefix(b, x, (n - 2) as nat, n - 1);
    lemma_shuffle_relabel(id1, f, x, (n - 2) as nat);
    lemma_shuffle_prefix(id1, x, (n - 2) as nat, n - 1);
    let q = fisher_yates((n - 1) as nat, x);
    assert(q == shuffle_from(id1, x, (n - 2) as nat));
    assert forall|j: int| 0 <= j < n - 1 implies #[trigger] p[j] == (if q[j] == r {
        (n - 1) as usize
    } else {
        q[j]
    }) by {
        assert(p.take(n - 1)[j] == p[j]);
    }
}

} // verus!
