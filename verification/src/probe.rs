//! Single-algorithm measurement probe: declared protocol constants, the
//! algorithm-name grammar, the pointer-chain builders, and the integer-only
//! pointer-chase kernels.
use vstd::prelude::*;
use vstd::utf8::{encode_utf8, encode_utf8_decode_utf8};
use vstd::arithmetic::div_mod::lemma_fundamental_div_mod_converse;
use crate::decimal_format::{decimal, ws_megabytes, append_decimal, ws_megabytes_u64};

verus! {

/// Largest N measured under the standard protocol.
pub const STANDARD_MAX_N: usize = 524_288;

pub const WARM_STANDARD: usize = 100;

pub const TIMED_STANDARD: usize = 1_000;

pub const WARM_LIGHT: usize = 10;

pub const TIMED_LIGHT: usize = 100;

/// Calibration size: 64 MB working set, twice the nominal L3.
pub const N_DRAM_CAL: usize = 8_388_608;

/// Calibration size: 128 MB working set, four times the nominal L3.
pub const N_DRAM_CAL_4X: usize = 16_777_216;

pub const WARM_DRAM_CAL: usize = 3;

pub const TIMED_DRAM_CAL: usize = 20;

/// `std::hint::black_box`: documented as an identity function that the
/// optimiser must treat as opaque. Claimed: it returns its argument.
pub assume_specification<T>[ std::hint::black_box::<T> ](dummy: T) -> (r: T)
    ensures
        r == dummy,
;

/// Byte-wise string equality, proved to coincide with equality of the
/// character sequences.
pub fn str_eq(a: &str, b: &str) -> (r: bool)
    ensures
        r == (a@ == b@),
{
    let x = a.as_bytes();
    let y = b.as_bytes();
    proof {
        encode_utf8_decode_utf8(a@);
        encode_utf8_decode_utf8(b@);
    }
    if x.len() != y.len() {
        return false;
    }
    let mut i: usize = 0;
    while i < x.len()
        invariant
            x@ == encode_utf8(a@),
            y@ == encode_utf8(b@),
            x.len() == y.len(),
            i <= x.len(),
            forall|j: int| 0 <= j < i ==> x@[j] == y@[j],
        decreases x.len() - i,
    {
        if x[i] != y[i] {
            assert(x@ != y@);
            return false;
        }
        i = i + 1;
    }
    assert(x@ =~= y@);
    true
}

/// Chain count of the scrambled `chains-K` algorithms.
pub open spec fn k_chained_spec(algo: Seq<char>) -> Option<usize> {
    if algo == "chains-2"@ {
        Some(2)
    } else if algo == "chains-4"@ {
        Some(4)
    } else if algo == "chains-8"@ {
        Some(8)
    } else if algo == "chains-16"@ {
        Some(16)
    } else if algo == "chains-32"@ {
        Some(32)
    } else if algo == "chains-64"@ {
        Some(64)
    } else if algo == "chains-128"@ {
        Some(128)
    } else if algo == "chains-256"@ {
        Some(256)
    } else if algo == "chains-512"@ {
        Some(512)
    } else {
        None
    }
}

/// Segment count of the independent `chains-K-ind` algorithms.
pub open spec fn k_ind_spec(algo: Seq<char>) -> Option<usize> {
    if algo == "chains-1-ind"@ {
        Some(1)
    } else if algo == "chains-2-ind"@ {
        Some(2)
    } else if algo == "chains-4-ind"@ {
        Some(4)
    } else if algo == "chains-8-ind"@ {
        Some(8)
    } else if algo == "chains-16-ind"@ {
        Some(16)
    } else if algo == "chains-32-ind"@ {
        Some(32)
    } else if algo == "chains-64-ind"@ {
        Some(64)
    } else {
        None
    }
}

/// Chain count of the sequential-partition algorithms.
pub open spec fn k_seq_spec(algo: Seq<char>) -> Option<usize> {
    if algo == "chains-8-seq"@ || algo == "chains-8-seq-branchy"@ {
        Some(8)
    } else {
        None
    }
}

/// Chain count of the scrambled branchy chain algorithm.
pub open spec fn k_ch_branchy_spec(algo: Seq<char>) -> Option<usize> {
    if algo == "chains-8-branchy"@ {
        Some(8)
    } else {
        None
    }
}

pub fn parse_k_chained(algo: &str) -> (r: Option<usize>)
    ensures
        r == k_chained_spec(algo@),
{
    if str_eq(algo, "chains-2") {
        Some(2)
    } else if str_eq(algo, "chains-4") {
        Some(4)
    } else if str_eq(algo, "chains-8") {
        Some(8)
    } else if str_eq(algo, "chains-16") {
        Some(16)
    } else if str_eq(algo, "chains-32") {
        Some(32)
    } else if str_eq(algo, "chains-64") {
        Some(64)
    } else if str_eq(algo, "chains-128") {
        Some(128)
    } else if str_eq(algo, "chains-256") {
        Some(256)
    } else if str_eq(algo, "chains-512") {
        Some(512)
    } else {
        None
    }
}

pub fn parse_k_ind(algo: &str) -> (r: Option<usize>)
    ensures
        r == k_ind_spec(algo@),
{
    if str_eq(algo, "chains-1-ind") {
        Some(1)
    } else if str_eq(algo, "chains-2-ind") {
        Some(2)
    } else if str_eq(algo, "chains-4-ind") {
        Some(4)
    } else if str_eq(algo, "chains-8-ind") {
        Some(8)
    } else if str_eq(algo, "chains-16-ind") {
        Some(16)
    } else if str_eq(algo, "chains-32-ind") {
        Some(32)
    } else if str_eq(algo, "chains-64-ind") {
        Some(64)
    } else {
        None
    }
}

pub fn parse_k_seq(algo: &str) -> (r: Option<usize>)
    ensures
        r == k_seq_spec(algo@),
{
    if str_eq(algo, "chains-8-seq") || str_eq(algo, "chains-8-seq-branchy") {
        Some(8)
    } else {
        None
    }
}

pub fn parse_k_ch_branchy(algo: &str) -> (r: Option<usize>)
    ensures
        r == k_ch_branchy_spec(algo@),
{
    if str_eq(algo, "chains-8-branchy") {
        Some(8)
    } else {
        None
    }
}

/// The index reached after `steps` pointer-chase steps from `start`.
pub open spec fn chase(chain: Seq<usize>, start: usize, steps: nat) -> usize
    decreases steps,
{
    if steps == 0 {
        start
    } else {
        chain[chase(chain, start, (steps - 1) as nat) as int]
    }
}

/// Every index visited by the first `steps` steps of the chase from 0 is
/// a valid position of `chain`.
pub open spec fn chase_in_bounds(chain: Seq<usize>, steps: nat) -> bool {
    forall|m: nat| m < steps ==> #[trigger] chase(chain, 0, m) < chain.len()
}

/// Every link of `chain` points back into `chain`.
pub open spec fn is_closed_chain(chain: Seq<usize>) -> bool {
    forall|j: int| 0 <= j < chain.len() ==> #[trigger] chain[j] < chain.len()
}

/// On a closed chain every chase position is a valid index.
pub proof fn lemma_closed_chain_chase_in_bounds(chain: Seq<usize>, m: nat)
    requires
        is_closed_chain(chain),
        chain.len() > 0,
    ensures
        chase(chain, 0, m) < chain.len(),
    decreases m,
{
    if m > 0 {
        lemma_closed_chain_chase_in_bounds(chain, (m - 1) as nat);
    }
}

/// Chain-only pointer chase: `n - 1` serialized steps from `chain[0]`,
/// no value accumulation. Returns the final index, `n` steps from 0.
pub fn run_chain_only(chain: &[usize]) -> (r: usize)
    requires
        chain.len() >= 1,
        chase_in_bounds(chain@, chain.len() as nat),
    ensures
        r == chase(chain@, 0, chain.len() as nat),
{
    let n = chain.len();
    proof {
        assert(chase(chain@, 0, 0) == 0);
    }
    let mut current = chain[0];
    let mut t: usize = 1;
    while t < n
        invariant
            n == chain.len(),
            1 <= t <= n,
            chase_in_bounds(chain@, n as nat),
            current == chase(chain@, 0, t as nat),
        decreases n - t,
    {
        assert(chase(chain@, 0, t as nat) < chain.len());
        let next = chain[current];
        current = std::hint::black_box(next);
        t = t + 1;
    }
    std::hint::black_box(current)
}

/// Chain-only chase with the stack store/load relation changed: each step
/// stores the current index into one of two stack slots and chases from
/// the value in the other slot. The chase therefore lags one step behind
/// every second iteration and ends `(n + 1) / 2` steps from 0.
pub fn run_chain_only_stack_spill(chain: &[usize]) -> (r: usize)
    requires
        chain.len() >= 1,
        chase_in_bounds(chain@, ((chain.len() + 1) / 2) as nat),
    ensures
        r == chase(chain@, 0, ((chain.len() + 1) / 2) as nat),
{
    let n = chain.len();
    proof {
        assert(chase(chain@, 0, 0) == 0);
    }
    let mut current = chain[0];
    let mut buf = [0usize; 2];
    let mut toggle: usize = 0;
    let mut t: usize = 0;
    while t + 1 < n
        invariant
            n == chain.len(),
            t + 1 <= n,
            chase_in_bounds(chain@, ((n + 1) / 2) as nat),
            toggle == t % 2,
            current == chase(chain@, 0, ((t + 2) / 2) as nat),
            buf@[1 - toggle] == chase(chain@, 0, ((t + 1) / 2) as nat),
        decreases n - t,
    {
        buf[toggle] = current;
        std::hint::black_box(&mut buf);
        let prev = buf[1 - toggle];
        assert(chase(chain@, 0, ((t + 1) / 2) as nat) < chain.len());
        let next = chain[std::hint::black_box(prev)];
        current = std::hint::black_box(next);
        toggle = std::hint::black_box(1 - toggle);
        t = t + 1;
    }
    std::hint::black_box(current)
}


/// With `1 <= k <= n`, the `k` segments of length `n / k` are non-empty and
/// fit inside `0..n`.
proof fn lemma_segments_fit(n: nat, k: nat)
    requires
        1 <= k <= n,
    ensures
        n / k >= 1,
        k * (n / k) <= n,
{
    vstd::arithmetic::div_mod::lemma_fundamental_div_mod(n as int, k as int);
    let l = n / k;
    let r = n % k;
    assert(0 <= r < k);
    assert(l >= 1) by (nonlinear_arith)
        requires
            n == k * l + r,
            r < k,
            k <= n,
            l >= 0,
    ;
}

/// Segment `i < k` of length `l` ends no later than `k * l`.
proof fn lemma_segment_end(i: int, k: int, l: int)
    requires
        0 <= i < k,
        l >= 1,
    ensures
        i * l + l <= k * l,
        0 <= i * l,
{
    assert(i * l + l <= k * l) by (nonlinear_arith)
        requires
            0 <= i < k,
            l >= 1,
    ;
    assert(0 <= i * l) by (nonlinear_arith)
        requires
            0 <= i,
            l >= 1,
    ;
}

/// Position `o` of segment `i` (length `l`) is index `i * l + o`.
proof fn lemma_segment_position(i: int, o: int, l: int)
    requires
        i >= 0,
        l >= 1,
        0 <= o < l,
    ensures
        (i * l + o) / l == i,
        (i * l + o) % l == o,
{
    lemma_fundamental_div_mod_converse(i * l + o, l, i, o);
}

/// Link of index `j` in the sequential partition: the next index of its
/// segment, wrapping from the segment's last index to its first; indices
/// past the `k` segments keep link 0.
pub open spec fn seq_link(n: nat, k: nat, j: int) -> usize {
    let l = (n / k) as int;
    if j < k * l {
        if j % l == l - 1 {
            (j - (l - 1)) as usize
        } else {
            (j + 1) as usize
        }
    } else {
        0
    }
}

/// The sequential-partition chain array of length `n` for `k` chains.
pub open spec fn seq_chain_spec(n: nat, k: nat) -> Seq<usize> {
    Seq::new(n, |j: int| seq_link(n, k, j))
}

/// Heads of the `k` chains: the first index of each segment.
pub open spec fn seq_heads_spec(n: nat, k: nat) -> Seq<usize> {
    Seq::new(k, |i: int| (i * (n / k)) as usize)
}

/// Builds `k` sequential chains over `0..n`: segment `i` is the index range
/// `[i * L, (i + 1) * L)` with `L = n / k`, each index links to the next,
/// and the last index of a segment links back to its first.
pub fn build_chains_seq(n: usize, k: usize) -> (res: (Vec<usize>, Vec<usize>))
    requires
        1 <= k <= n,
    ensures
        res.0@ == seq_chain_spec(n as nat, k as nat),
        res.1@ == seq_heads_spec(n as nat, k as nat),
{
    let l = n / k;
    proof {
        lemma_segments_fit(n as nat, k as nat);
    }
    let mut chain = vec![0usize; n];
    let mut heads: Vec<usize> = Vec::with_capacity(k);
    let mut i: usize = 0;
    while i < k
        invariant
            l == n / k,
            l >= 1,
            k * l <= n,
            i <= k,
            chain.len() == n,
            heads@ == seq_heads_spec(n as nat, k as nat).take(i as int),
            forall|j: int| 0 <= j < i * l ==> #[trigger] chain@[j] == seq_link(n as nat, k as nat, j),
            forall|j: int| i * l <= j < n ==> #[trigger] chain@[j] == 0,
        decreases k - i,
    {
        proof {
            lemma_segment_end(i as int, k as int, l as int);
        }
        let start = i * l;
        heads.push(start);
        let mut j = start;
        while j < start + l - 1
            invariant
                l == n / k,
                l >= 1,
                start == i * l,
                start + l <= k * l,
                k * l <= n,
                i < k,
                start <= j <= start + l - 1,
                chain.len() == n,
                forall|x: int| 0 <= x < start ==> #[trigger] chain@[x] == seq_link(n as nat, k as nat, x),
                forall|x: int| start <= x < j ==> #[trigger] chain@[x] == x + 1,
                forall|x: int| j <= x < n ==> #[trigger] chain@[x] == 0,
            decreases start + l - 1 - j,
        {
            chain.set(j, j + 1);
            j = j + 1;
        }
        chain.set(start + l - 1, start);
        assert((i + 1) * l == start + l) by (nonlinear_arith)
            requires
                start == i * l,
        ;
        assert forall|x: int| 0 <= x < (i + 1) * l implies #[trigger] chain@[x] == seq_link(
            n as nat,
            k as nat,
            x,
        ) by {
            if x >= start {
                lemma_segment_position(i as int, x - start, l as int);
            }
        }
        assert(heads@ =~= seq_heads_spec(n as nat, k as nat).take(i + 1));
        i = i + 1;
    }
    assert(chain@ =~= seq_chain_spec(n as nat, k as nat));
    assert(heads@ =~= seq_heads_spec(n as nat, k as nat));
    (chain, heads)
}

/// Stepping once along segment `i` of length `l`: offset `m % l` advances to
/// `(m + 1) % l`, which is `m % l + 1` unless `m % l` is the last offset.
proof fn lemma_offset_step(m: nat, l: nat)
    requires
        l >= 1,
    ensures
        (m % l == l - 1) ==> (m + 1) % l == 0,
        (m % l != l - 1) ==> (m + 1) % l == m % l + 1,
{
    vstd::arithmetic::div_mod::lemma_fundamental_div_mod(m as int, l as int);
    let q = m as int / l as int;
    let r = m as int % l as int;
    assert((q + 1) * l == q * l + l) by (nonlinear_arith);
    assert(q * l == l * q) by (nonlinear_arith);
    if r == l - 1 {
        lemma_fundamental_div_mod_converse(m + 1 as int, l as int, q + 1, 0);
    } else {
        lemma_fundamental_div_mod_converse(m + 1 as int, l as int, q, r + 1);
    }
}

/// Each sequential chain cycles through its own segment in index order:
/// `m` steps from head `i * L` reach `i * L + m % L`.
pub proof fn lemma_seq_chain_cycles(n: nat, k: nat, i: nat, m: nat)
    requires
        1 <= k <= n,
        i < k,
        n <= usize::MAX,
    ensures
        chase(seq_chain_spec(n, k), (i * (n / k)) as usize, m) == i * (n / k) + m % (n / k),
    decreases m,
{
    let l = n / k;
    lemma_segments_fit(n, k);
    lemma_segment_end(i as int, k as int, l as int);
    if m == 0 {
        assert(0nat % l == 0);
    } else {
        lemma_seq_chain_cycles(n, k, i, (m - 1) as nat);
        let o = (m - 1) as nat % l;
        let x = i * l + o;
        lemma_segment_position(i as int, o as int, l as int);
        lemma_offset_step((m - 1) as nat, l);
        assert(x < k * l);
        assert(seq_chain_spec(n, k)[x as int] == seq_link(n, k, x as int));
    }
}

/// The value written at step `t` of the scrambled chain build: the next
/// element of `t`'s segment of `perm`, wrapping to the segment's first.
pub open spec fn scr_write_value(perm: Seq<usize>, k: nat, t: int) -> usize {
    let l = (perm.len() / k) as int;
    if t % l == l - 1 {
        perm[t - (l - 1)]
    } else {
        perm[t + 1]
    }
}

/// The chain array after the first `count` writes
/// `chain[perm[t]] = scr_write_value(perm, k, t)`, starting from zeros.
pub open spec fn scr_chain_after(perm: Seq<usize>, k: nat, count: nat) -> Seq<usize>
    decreases count,
{
    if count == 0 {
        Seq::new(perm.len(), |x: int| 0usize)
    } else {
        scr_chain_after(perm, k, (count - 1) as nat).update(
            perm[count - 1] as int,
            scr_write_value(perm, k, count - 1),
        )
    }
}

/// The scrambled chain array: all `k * (n / k)` writes applied in order.
pub open spec fn scr_chain_spec(perm: Seq<usize>, k: nat) -> Seq<usize> {
    scr_chain_after(perm, k, k * (perm.len() / k))
}

/// Heads of the `k` scrambled chains: the first element of each segment of `perm`.
pub open spec fn scr_heads_spec(perm: Seq<usize>, k: nat) -> Seq<usize> {
    Seq::new(k, |i: int| perm[i * (perm.len() / k) as int])
}

/// Builds `k` scrambled chains from `perm`: segment `i` of `perm` (length
/// `L = n / k`) becomes one cycle, each element linking to the next element
/// of the segment and the last back to the first.
pub fn build_chains(perm: &[usize], k: usize) -> (res: (Vec<usize>, Vec<usize>))
    requires
        1 <= k <= perm.len(),
        forall|t: int| 0 <= t < k * (perm.len() / k) ==> #[trigger] perm@[t] < perm.len(),
    ensures
        res.0@ == scr_chain_spec(perm@, k as nat),
        res.1@ == scr_heads_spec(perm@, k as nat),
{
    let n = perm.len();
    let l = n / k;
    proof {
        lemma_segments_fit(n as nat, k as nat);
    }
    let mut chain = vec![0usize; n];
    let mut heads: Vec<usize> = Vec::with_capacity(k);
    assert(chain@ =~= scr_chain_after(perm@, k as nat, 0));
    let mut i: usize = 0;
    while i < k
        invariant
            n == perm.len(),
            l == n / k,
            l >= 1,
            k * l <= n,
            i <= k,
            forall|t: int| 0 <= t < k * l ==> #[trigger] perm@[t] < n,
            heads@ == scr_heads_spec(perm@, k as nat).take(i as int),
            chain.len() == n,
            chain@ == scr_chain_after(perm@, k as nat, (i * l) as nat),
        decreases k - i,
    {
        proof {
            lemma_segment_end(i as int, k as int, l as int);
        }
        let start = i * l;
        heads.push(perm[start]);
        let mut j: usize = 0;
        while j < l - 1
            invariant
                n == perm.len(),
                l == n / k,
                l >= 1,
                start == i * l,
                start + l <= k * l,
                k * l <= n,
                j <= l - 1,
                forall|t: int| 0 <= t < k * l ==> #[trigger] perm@[t] < n,
                chain.len() == n,
                chain@ == scr_chain_after(perm@, k as nat, (start + j) as nat),
            decreases l - 1 - j,
        {
            proof {
                lemma_segment_position(i as int, j as int, l as int);
            }
            chain.set(perm[start + j], perm[start + j + 1]);
            j = j + 1;
        }
        proof {
            lemma_segment_position(i as int, (l - 1) as int, l as int);
        }
        chain.set(perm[start + l - 1], perm[start]);
        assert((i + 1) * l == start + l) by (nonlinear_arith)
            requires
                start == i * l,
        ;
        assert(heads@ =~= scr_heads_spec(perm@, k as nat).take(i + 1));
        i = i + 1;
    }
    assert(heads@ =~= scr_heads_spec(perm@, k as nat));
    (chain, heads)
}

proof fn lemma_scr_chain_after_len(perm: Seq<usize>, k: nat, count: nat)
    requires
        count <= perm.len(),
        forall|t: int| 0 <= t < count ==> #[trigger] perm[t] < perm.len(),
    ensures
        scr_chain_after(perm, k, count).len() == perm.len(),
    decreases count,
{
    if count > 0 {
        lemma_scr_chain_after_len(perm, k, (count - 1) as nat);
    }
}

/// With distinct entries, the last write to position `perm[t]` is write `t`:
/// after `count` writes, `perm[t]` links to its segment successor for every
/// `t < count`.
proof fn lemma_scr_chain_after_links(perm: Seq<usize>, k: nat, count: nat, t: int)
    requires
        0 <= t < count <= perm.len(),
        forall|a: int, b: int|
            0 <= a < perm.len() && 0 <= b < perm.len() && a != b ==> perm[a] != perm[b],
        forall|a: int| 0 <= a < perm.len() ==> #[trigger] perm[a] < perm.len(),
    ensures
        scr_chain_after(perm, k, count)[perm[t] as int] == scr_write_value(perm, k, t),
    decreases count,
{
    lemma_scr_chain_after_len(perm, k, (count - 1) as nat);
    if t < count - 1 {
        lemma_scr_chain_after_links(perm, k, (count - 1) as nat, t);
        assert(perm[count - 1] != perm[t]);
    }
}

/// For a permutation, each scrambled chain cycles through its segment of
/// `perm` in order: `m` steps from head `perm[i * L]` reach
/// `perm[i * L + m % L]`.
pub proof fn lemma_scr_chain_cycles(perm: Seq<usize>, k: nat, i: nat, m: nat)
    requires
        crate::binary_baselines::is_permutation(perm, perm.len()),
        1 <= k <= perm.len(),
        i < k,
    ensures
        chase(scr_chain_spec(perm, k), perm[i * (perm.len() / k) as int], m) == perm[(i * (
        perm.len() / k) + m % (perm.len() / k)) as int],
    decreases m,
{
    let n = perm.len();
    let l = n / k;
    lemma_segments_fit(n, k);
    lemma_segment_end(i as int, k as int, l as int);
    if m == 0 {
        assert(0nat % l == 0);
    } else {
        lemma_scr_chain_cycles(perm, k, i, (m - 1) as nat);
        let o = (m - 1) as nat % l;
        let t = i * l + o;
        lemma_segment_position(i as int, o as int, l as int);
        lemma_offset_step((m - 1) as nat, l);
        lemma_scr_chain_after_links(perm, k, k * l, t as int);
    }
}

/// Segment `i` of `perm`: the elements at positions `[i * L, (i + 1) * L)`.
pub open spec fn segments_spec(perm: Seq<usize>, k: nat) -> Seq<Seq<usize>> {
    Seq::new(
        k,
        |i: int| perm.subrange(i * (perm.len() / k) as int, (i + 1) * (perm.len() / k) as int),
    )
}

/// Splits `perm` into `k` consecutive segments of length `n / k`.
pub fn build_segments(perm: &[usize], k: usize) -> (segs: Vec<Vec<usize>>)
    requires
        k >= 1,
    ensures
        segs.len() == k,
        forall|i: int| 0 <= i < k ==> #[trigger] segs@[i]@ == segments_spec(perm@, k as nat)[i],
{
    let n = perm.len();
    let l = n / k;
    proof {
        vstd::arithmetic::div_mod::lemma_fundamental_div_mod(n as int, k as int);
        assert(k * l <= n) by (nonlinear_arith)
            requires
                n == k * l + n % k,
                n % k >= 0,
        ;
    }
    let mut segs: Vec<Vec<usize>> = Vec::with_capacity(k);
    let mut i: usize = 0;
    while i < k
        invariant
            n == perm.len(),
            l == n / k,
            k * l <= n,
            i <= k,
            segs.len() == i,
            forall|a: int| 0 <= a < i ==> #[trigger] segs@[a]@ == segments_spec(perm@, k as nat)[a],
        decreases k - i,
    {
        assert(i * l + l <= k * l) by (nonlinear_arith)
            requires
                i < k,
                l >= 0,
        ;
        let start = i * l;
        let mut seg: Vec<usize> = Vec::with_capacity(l);
        let mut j: usize = 0;
        while j < l
            invariant
                n == perm.len(),
                start + l <= n,
                j <= l,
                seg@ == perm@.subrange(start as int, (start + j) as int),
            decreases l - j,
        {
            seg.push(perm[start + j]);
            j = j + 1;
            assert(seg@ =~= perm@.subrange(start as int, (start + j) as int));
        }
        assert((i + 1) * l == start + l) by (nonlinear_arith)
            requires
                start == i * l,
        ;
        segs.push(seg);
        i = i + 1;
    }
    segs
}

/// Size class of `n` in the factorial block: S0 through the standard
/// protocol limit, S1 above it.
pub open spec fn size_class_spec(n: nat) -> Seq<char> {
    if n <= STANDARD_MAX_N {
        "S0"@
    } else {
        "S1"@
    }
}

/// The S bit of a factorial node name.
pub open spec fn size_bit_spec(n: nat) -> Seq<char> {
    if n > STANDARD_MAX_N {
        "1"@
    } else {
        "0"@
    }
}

/// A factorial node label: `G`, the S bit, the remaining A/D/B code and
/// factor description, then the size class.
pub open spec fn node_label_spec(n: nat, code: Seq<char>) -> Seq<char> {
    "G"@ + size_bit_spec(n) + code + size_class_spec(n)
}

/// The label of algorithm `algo` at size `n` in the declared factorial
/// block, or of the calibration record it belongs to.
pub open spec fn factorial_label_spec(algo: Seq<char>, n: nat) -> Seq<char> {
    if algo == "linear"@ {
        node_label_spec(n, "000 A=seq D=ind B=none "@)
    } else if algo == "scrambled"@ {
        node_label_spec(n, "100 A=scr D=ind B=none "@)
    } else if algo == "chains-8-seq"@ {
        node_label_spec(n, "010 A=seq D=ch8 B=none "@)
    } else if algo == "chains-8"@ {
        node_label_spec(n, "110 A=scr D=ch8 B=none "@)
    } else if algo == "linear-branchy"@ {
        node_label_spec(n, "001 A=seq D=ind B=br "@)
    } else if algo == "scrambled-branchy"@ {
        node_label_spec(n, "101 A=scr D=ind B=br "@)
    } else if algo == "chains-8-seq-branchy"@ {
        node_label_spec(n, "011 A=seq D=ch8 B=br "@)
    } else if algo == "chains-8-branchy"@ {
        node_label_spec(n, "111 A=scr D=ch8 B=br "@)
    } else if algo == "chain-only"@ {
        if n == N_DRAM_CAL {
            "CAL-CHAIN-ONLY-2X WS=64MB  OC-DRAM-1a"@
        } else if n == N_DRAM_CAL_4X {
            "CAL-CHAIN-ONLY-4X WS=128MB OC-DRAM-1a"@
        } else {
            "CAL-CHAIN-ONLY WS="@ + decimal(ws_megabytes(n)) + "MB OC-DRAM-1a"@
        }
    } else if algo == "scrambled-dram-cal"@ {
        if n == N_DRAM_CAL {
            "CAL-2X  A=scr D=ind B=none WS=64MB  OC-DRAM-1"@
        } else if n == N_DRAM_CAL_4X {
            "CAL-4X  A=scr D=ind B=none WS=128MB OC-DRAM-1"@
        } else {
            "CAL-custom A=scr D=ind B=none WS="@ + decimal(ws_megabytes(n)) + "MB OC-DRAM-1"@
        }
    } else {
        "non-factorial"@
    }
}

fn owned(t: &str) -> (r: String)
    ensures
        r@ == t@,
{
    let mut r = String::new();
    r.append(t);
    assert(r@ =~= t@);
    r
}

fn node_label(n: usize, code: &str) -> (r: String)
    ensures
        r@ == node_label_spec(n as nat, code@),
{
    let mut r = owned("G");
    if n > STANDARD_MAX_N {
        r.append("1");
    } else {
        r.append("0");
    }
    r.append(code);
    if n <= STANDARD_MAX_N {
        r.append("S0");
    } else {
        r.append("S1");
    }
    r
}

fn sized_label(prefix: &str, n: usize, suffix: &str) -> (r: String)
    ensures
        r@ == prefix@ + decimal(ws_megabytes(n as nat)) + suffix@,
{
    let mut r = owned(prefix);
    append_decimal(&mut r, ws_megabytes_u64(n as u64));
    r.append(suffix);
    r
}

/// Names the factorial node (or calibration record) that `algo` at size
/// `n` measures; "non-factorial" for any other algorithm.
pub fn factorial_label(algo: &str, n: usize) -> (r: String)
    ensures
        r@ == factorial_label_spec(algo@, n as nat),
{
    if str_eq(algo, "linear") {
        node_label(n, "000 A=seq D=ind B=none ")
    } else if str_eq(algo, "scrambled") {
        node_label(n, "100 A=scr D=ind B=none ")
    } else if str_eq(algo, "chains-8-seq") {
        node_label(n, "010 A=seq D=ch8 B=none ")
    } else if str_eq(algo, "chains-8") {
        node_label(n, "110 A=scr D=ch8 B=none ")
    } else if str_eq(algo, "linear-branchy") {
        node_label(n, "001 A=seq D=ind B=br ")
    } else if str_eq(algo, "scrambled-branchy") {
        node_label(n, "101 A=scr D=ind B=br ")
    } else if str_eq(algo, "chains-8-seq-branchy") {
        node_label(n, "011 A=seq D=ch8 B=br ")
    } else if str_eq(algo, "chains-8-branchy") {
        node_label(n, "111 A=scr D=ch8 B=br ")
    } else if str_eq(algo, "chain-only") {
        if n == N_DRAM_CAL {
            owned("CAL-CHAIN-ONLY-2X WS=64MB  OC-DRAM-1a")
        } else if n == N_DRAM_CAL_4X {
            owned("CAL-CHAIN-ONLY-4X WS=128MB OC-DRAM-1a")
        } else {
            sized_label("CAL-CHAIN-ONLY WS=", n, "MB OC-DRAM-1a")
        }
    } else if str_eq(algo, "scrambled-dram-cal") {
        if n == N_DRAM_CAL {
            owned("CAL-2X  A=scr D=ind B=none WS=64MB  OC-DRAM-1")
        } else if n == N_DRAM_CAL_4X {
            owned("CAL-4X  A=scr D=ind B=none WS=128MB OC-DRAM-1")
        } else {
            sized_label("CAL-custom A=scr D=ind B=none WS=", n, "MB OC-DRAM-1")
        }
    } else {
        owned("non-factorial")
    }
}

/// The algorithm names the probe accepts.
pub open spec fn is_declared_algo_spec(algo: Seq<char>) -> bool {
    algo == "linear"@
    || algo == "scrambled"@
    || algo == "branchy"@
    || algo == "chained"@
    || algo == "chains-2"@
    || algo == "chains-4"@
    || algo == "chains-8"@
    || algo == "chains-16"@
    || algo == "chains-32"@
    || algo == "chains-64"@
    || algo == "chains-128"@
    || algo == "chains-256"@
    || algo == "chains-512"@
    || algo == "chains-1-ind"@
    || algo == "chains-2-ind"@
    || algo == "chains-4-ind"@
    || algo == "chains-8-ind"@
    || algo == "chains-16-ind"@
    || algo == "chains-32-ind"@
    || algo == "chains-64-ind"@
    || algo == "chains-8-seq"@
    || algo == "linear-branchy"@
    || algo == "scrambled-branchy"@
    || algo == "chains-8-branchy"@
    || algo == "chains-8-seq-branchy"@
    || algo == "scrambled-dram-cal"@
    || algo == "chain-only"@
    || algo == "chain-only-stack-spill"@
}

/// Whether the probe accepts `algo`.
pub fn is_declared_algo(algo: &str) -> (r: bool)
    ensures
        r == is_declared_algo_spec(algo@),
{
    str_eq(algo, "linear")
        || str_eq(algo, "scrambled")
        || str_eq(algo, "branchy")
        || str_eq(algo, "chained")
        || str_eq(algo, "chains-2")
        || str_eq(algo, "chains-4")
        || str_eq(algo, "chains-8")
        || str_eq(algo, "chains-16")
        || str_eq(algo, "chains-32")
        || str_eq(algo, "chains-64")
        || str_eq(algo, "chains-128")
        || str_eq(algo, "chains-256")
        || str_eq(algo, "chains-512")
        || str_eq(algo, "chains-1-ind")
        || str_eq(algo, "chains-2-ind")
        || str_eq(algo, "chains-4-ind")
        || str_eq(algo, "chains-8-ind")
        || str_eq(algo, "chains-16-ind")
        || str_eq(algo, "chains-32-ind")
        || str_eq(algo, "chains-64-ind")
        || str_eq(algo, "chains-8-seq")
        || str_eq(algo, "linear-branchy")
        || str_eq(algo, "scrambled-branchy")
        || str_eq(algo, "chains-8-branchy")
        || str_eq(algo, "chains-8-seq-branchy")
        || str_eq(algo, "scrambled-dram-cal")
        || str_eq(algo, "chain-only")
        || str_eq(algo, "chain-only-stack-spill")
}

/// Number of chains or segments that `algo` partitions `0..N` into, if any.
pub open spec fn chain_count_spec(algo: Seq<char>) -> Option<usize> {
    if k_chained_spec(algo) is Some {
        k_chained_spec(algo)
    } else if k_ind_spec(algo) is Some {
        k_ind_spec(algo)
    } else if k_seq_spec(algo) is Some {
        k_seq_spec(algo)
    } else {
        k_ch_branchy_spec(algo)
    }
}

pub fn chain_count(algo: &str) -> (r: Option<usize>)
    ensures
        r == chain_count_spec(algo@),
        r matches Some(k) ==> k >= 1,
{
    let chained = parse_k_chained(algo);
    if chained.is_some() {
        return chained;
    }
    let ind = parse_k_ind(algo);
    if ind.is_some() {
        return ind;
    }
    let sequential = parse_k_seq(algo);
    if sequential.is_some() {
        return sequential;
    }
    parse_k_ch_branchy(algo)
}

/// Why a probe request is refused.
#[derive(Debug, Clone, Copy, PartialEq, Eq)]
pub enum ProbeRequestError {
    /// N must be at least 2.
    TooSmall,
    /// The algorithm name is not one the probe declares.
    UnknownAlgorithm,
    /// N does not split evenly into the algorithm's `k` chains.
    NotDivisible { n: usize, k: usize },
}

/// Checks a probe request in the probe's order: size first, then the
/// algorithm name, then divisibility of N by the chain count.
pub fn validate_probe_request(algo: &str, n: usize) -> (r: Result<(), ProbeRequestError>)
    ensures
        n < 2 ==> r == Err::<(), ProbeRequestError>(ProbeRequestError::TooSmall),
        n >= 2 && !is_declared_algo_spec(algo@) ==> r == Err::<(), ProbeRequestError>(
            ProbeRequestError::UnknownAlgorithm,
        ),
        n >= 2 && is_declared_algo_spec(algo@) ==> match chain_count_spec(algo@) {
            Some(k) => if n % k != 0 {
                r == Err::<(), ProbeRequestError>(ProbeRequestError::NotDivisible { n, k })
            } else {
                r is Ok
            },
            None => r is Ok,
        },
{
    if n < 2 {
        return Err(ProbeRequestError::TooSmall);
    }
    if !is_declared_algo(algo) {
        return Err(ProbeRequestError::UnknownAlgorithm);
    }
    match chain_count(algo) {
        Some(k) => if n % k != 0 {
            Err(ProbeRequestError::NotDivisible { n, k })
        } else {
            Ok(())
        },
        None => Ok(()),
    }
}

/// The probe's warm/timed protocols.
#[derive(Debug, Clone, Copy, PartialEq, Eq)]
pub enum ProbeProtocol {
    /// DRAM calibration: 3 warm / 20 timed.
    DramCal,
    /// Chain-only intervention: 10 warm / 100 timed.
    ChainOnly,
    /// Stack-spill intervention: 10 warm / 100 timed.
    StackSpill,
    /// Standard: 100 warm / 1000 timed.
    Standard,
    /// Light, above the standard size limit: 10 warm / 100 timed.
    Light,
}

pub open spec fn probe_protocol_spec(algo: Seq<char>, n: nat) -> ProbeProtocol {
    if algo == "scrambled-dram-cal"@ {
        ProbeProtocol::DramCal
    } else if algo == "chain-only"@ {
        ProbeProtocol::ChainOnly
    } else if algo == "chain-only-stack-spill"@ {
        ProbeProtocol::StackSpill
    } else if n <= STANDARD_MAX_N {
        ProbeProtocol::Standard
    } else {
        ProbeProtocol::Light
    }
}

/// The timing protocol the probe uses for `algo` at size `n`.
pub fn probe_protocol(algo: &str, n: usize) -> (r: ProbeProtocol)
    ensures
        r == probe_protocol_spec(algo@, n as nat),
{
    if str_eq(algo, "scrambled-dram-cal") {
        ProbeProtocol::DramCal
    } else if str_eq(algo, "chain-only") {
        ProbeProtocol::ChainOnly
    } else if str_eq(algo, "chain-only-stack-spill") {
        ProbeProtocol::StackSpill
    } else if n <= STANDARD_MAX_N {
        ProbeProtocol::Standard
    } else {
        ProbeProtocol::Light
    }
}

impl ProbeProtocol {
    pub open spec fn warm_spec(self) -> usize {
        match self {
            ProbeProtocol::DramCal => WARM_DRAM_CAL,
            ProbeProtocol::Standard => WARM_STANDARD,
            _ => WARM_LIGHT,
        }
    }

    pub open spec fn timed_spec(self) -> usize {
        match self {
            ProbeProtocol::DramCal => TIMED_DRAM_CAL,
            ProbeProtocol::Standard => TIMED_STANDARD,
            _ => TIMED_LIGHT,
        }
    }

    pub open spec fn label_spec(self) -> Seq<char> {
        match self {
            ProbeProtocol::DramCal => "dram-cal (3w/20t) OC-DRAM-1"@,
            ProbeProtocol::ChainOnly => "light (10w/100t) OC-DRAM-1a"@,
            ProbeProtocol::StackSpill => "light (10w/100t) \u{394}R_stack"@,
            ProbeProtocol::Standard => "standard (100w/1000t)"@,
            ProbeProtocol::Light => "light (10w/100t) OC-TG-2"@,
        }
    }

    pub fn warm_passes(self) -> (r: usize)
        ensures
            r == self.warm_spec(),
    {
        match self {
            ProbeProtocol::DramCal => WARM_DRAM_CAL,
            ProbeProtocol::Standard => WARM_STANDARD,
            _ => WARM_LIGHT,
        }
    }

    pub fn timed_passes(self) -> (r: usize)
        ensures
            r == self.timed_spec(),
    {
        match self {
            ProbeProtocol::DramCal => TIMED_DRAM_CAL,
            ProbeProtocol::Standard => TIMED_STANDARD,
            _ => TIMED_LIGHT,
        }
    }

    pub fn label(self) -> (r: &'static str)
        ensures
            r@ == self.label_spec(),
    {
        match self {
            ProbeProtocol::DramCal => "dram-cal (3w/20t) OC-DRAM-1",
            ProbeProtocol::ChainOnly => "light (10w/100t) OC-DRAM-1a",
            ProbeProtocol::StackSpill => "light (10w/100t) \u{394}R_stack",
            ProbeProtocol::Standard => "standard (100w/1000t)",
            ProbeProtocol::Light => "light (10w/100t) OC-TG-2",
        }
    }
}

/// On a closed chain of length `n >= 1` both chase kernels can run, and
/// both return a valid index of the chain: they follow the same pointer
/// chase from 0, for `n` and `(n + 1) / 2` steps respectively.
pub proof fn lemma_chain_kernels_on_closed_chain(chain: Seq<usize>)
    requires
        is_closed_chain(chain),
        chain.len() >= 1,
    ensures
        chase_in_bounds(chain, chain.len()),
        chase_in_bounds(chain, ((chain.len() + 1) / 2) as nat),
        chase(chain, 0, chain.len()) < chain.len(),
        chase(chain, 0, ((chain.len() + 1) / 2) as nat) < chain.len(),
{
    assert forall|m: nat| m < chain.len() implies #[trigger] chase(chain, 0, m) < chain.len() by {
        lemma_closed_chain_chase_in_bounds(chain, m);
    }
    assert forall|m: nat| m < ((chain.len() + 1) / 2) as nat implies #[trigger] chase(chain, 0, m)
        < chain.len() by {
        lemma_closed_chain_chase_in_bounds(chain, m);
    }
    lemma_closed_chain_chase_in_bounds(chain, chain.len());
    lemma_closed_chain_chase_in_bounds(chain, ((chain.len() + 1) / 2) as nat);
}

/// Every link of the sequential chain array stays inside `0..n`.
pub proof fn lemma_seq_chain_closed(n: nat, k: nat)
    requires
        1 <= k <= n,
        n <= usize::MAX,
    ensures
        is_closed_chain(seq_chain_spec(n, k)),
{
    lemma_segments_fit(n, k);
    let l = n / k;
    assert forall|j: int| 0 <= j < n implies #[trigger] seq_chain_spec(n, k)[j] < n by {
        if j < k * l {
            vstd::arithmetic::div_mod::lemma_fundamental_div_mod(j, l as int);
            if j % (l as int) == l - 1 {
                assert(j - (l - 1) >= 0);
            } else {
                let q = j / (l as int);
                let r = j % (l as int);
                assert(q < k) by (nonlinear_arith)
                    requires
                        j == l * q + r,
                        0 <= r,
                        j < k * l,
                        l >= 1,
                ;
                assert(j + 1 < k * l) by (nonlinear_arith)
                    requires
                        j == l * q + r,
                        r + 1 < l,
                        q + 1 <= k,
                        l >= 1,
                ;
            }
        }
    }
}

proof fn lemma_scr_chain_after_closed(perm: Seq<usize>, k: nat, count: nat)
    requires
        1 <= k <= perm.len(),
        count <= k * (perm.len() / k),
        forall|t: int| 0 <= t < k * (perm.len() / k) ==> #[trigger] perm[t] < perm.len(),
    ensures
        is_closed_chain(scr_chain_after(perm, k, count)),
        scr_chain_after(perm, k, count).len() == perm.len(),
    decreases count,
{
    lemma_segments_fit(perm.len(), k);
    if count > 0 {
        lemma_scr_chain_after_closed(perm, k, (count - 1) as nat);
        let l = perm.len() / k;
        let t = count - 1;
        vstd::arithmetic::div_mod::lemma_fundamental_div_mod(t, l as int);
        let q = t / (l as int);
        let r = t % (l as int);
        if r == l - 1 {
            assert(perm[t - (l - 1)] < perm.len());
        } else {
            assert(t + 1 < k * l) by (nonlinear_arith)
                requires
                    t == l * q + r,
                    0 <= r,
                    r + 1 < l,
                    t < k * l,
                    l >= 1,
            ;
        }
    }
}

/// Every link of the scrambled chain array stays inside `0..n`.
pub proof fn lemma_scr_chain_closed(perm: Seq<usize>, k: nat)
    requires
        1 <= k <= perm.len(),
        forall|t: int| 0 <= t < k * (perm.len() / k) ==> #[trigger] perm[t] < perm.len(),
    ensures
        is_closed_chain(scr_chain_spec(perm, k)),
{
    lemma_segments_fit(perm.len(), k);
    lemma_scr_chain_after_closed(perm, k, k * (perm.len() / k));
}

/// The measurement kernel an accepted algorithm name selects.
#[derive(Debug, Clone, Copy, PartialEq, Eq)]
pub enum ProbeKernel {
    /// Sequential adjacent differences.
    Linear,
    /// Adjacent differences walked through the scrambling permutation.
    Scrambled,
    /// Adjacent differences with a data-dependent sign.
    Branchy,
    /// One serialized pointer chase with value accumulation.
    Chained,
    /// One serialized pointer chase, no value accumulation.
    ChainOnly,
    /// Chain-only chase through two alternating stack slots.
    ChainOnlyStackSpill,
    /// `k` interleaved chains over the sequential partition.
    ChainsSeq,
    /// `k` interleaved chains over the scrambled partition.
    Chains,
    /// `k` independent scrambled segments.
    ChainsInd,
    /// Sequential differences with data-dependent sign.
    LinearBranchy,
    /// Scrambled differences with data-dependent sign.
    ScrambledBranchy,
    /// Sequential-partition chains with data-dependent sign.
    ChainsSeqBranchy,
    /// Scrambled-partition chains with data-dependent sign.
    ChainsBranchy,
}

pub open spec fn probe_kernel_spec(algo: Seq<char>) -> Option<ProbeKernel> {
    if !is_declared_algo_spec(algo) {
        None
    } else if algo == "linear"@ {
        Some(ProbeKernel::Linear)
    } else if algo == "scrambled"@ || algo == "scrambled-dram-cal"@ {
        Some(ProbeKernel::Scrambled)
    } else if algo == "chain-only"@ {
        Some(ProbeKernel::ChainOnly)
    } else if algo == "chain-only-stack-spill"@ {
        Some(ProbeKernel::ChainOnlyStackSpill)
    } else if algo == "branchy"@ {
        Some(ProbeKernel::Branchy)
    } else if algo == "chained"@ {
        Some(ProbeKernel::Chained)
    } else if algo == "chains-8-seq"@ {
        Some(ProbeKernel::ChainsSeq)
    } else if algo == "linear-branchy"@ {
        Some(ProbeKernel::LinearBranchy)
    } else if algo == "scrambled-branchy"@ {
        Some(ProbeKernel::ScrambledBranchy)
    } else if algo == "chains-8-seq-branchy"@ {
        Some(ProbeKernel::ChainsSeqBranchy)
    } else if algo == "chains-8-branchy"@ {
        Some(ProbeKernel::ChainsBranchy)
    } else if k_ind_spec(algo) is Some {
        Some(ProbeKernel::ChainsInd)
    } else {
        Some(ProbeKernel::Chains)
    }
}

/// The kernel that an accepted algorithm name runs; `None` for names the
/// probe does not accept.
pub fn probe_kernel(algo: &str) -> (r: Option<ProbeKernel>)
    ensures
        r == probe_kernel_spec(algo@),
{
    if !is_declared_algo(algo) {
        None
    } else if str_eq(algo, "linear") {
        Some(ProbeKernel::Linear)
    } else if str_eq(algo, "scrambled") || str_eq(algo, "scrambled-dram-cal") {
        Some(ProbeKernel::Scrambled)
    } else if str_eq(algo, "chain-only") {
        Some(ProbeKernel::ChainOnly)
    } else if str_eq(algo, "chain-only-stack-spill") {
        Some(ProbeKernel::ChainOnlyStackSpill)
    } else if str_eq(algo, "branchy") {
        Some(ProbeKernel::Branchy)
    } else if str_eq(algo, "chained") {
        Some(ProbeKernel::Chained)
    } else if str_eq(algo, "chains-8-seq") {
        Some(ProbeKernel::ChainsSeq)
    } else if str_eq(algo, "linear-branchy") {
        Some(ProbeKernel::LinearBranchy)
    } else if str_eq(algo, "scrambled-branchy") {
        Some(ProbeKernel::ScrambledBranchy)
    } else if str_eq(algo, "chains-8-seq-branchy") {
        Some(ProbeKernel::ChainsSeqBranchy)
    } else if str_eq(algo, "chains-8-branchy") {
        Some(ProbeKernel::ChainsBranchy)
    } else if parse_k_ind(algo).is_some() {
        Some(ProbeKernel::ChainsInd)
    } else {
        Some(ProbeKernel::Chains)
    }
}

/// Every accepted name that selects a chain or segment kernel also names
/// its chain count, so the kernel's chain structure can always be built.
pub proof fn lemma_chain_kernels_have_chain_count(algo: Seq<char>)
    requires
        probe_kernel_spec(algo) matches Some(kernel) && (kernel is Chains || kernel is ChainsInd
            || kernel is ChainsSeq || kernel is ChainsSeqBranchy || kernel is ChainsBranchy),
    ensures
        chain_count_spec(algo) is Some,
{
}

/// The chain counts of the scrambled `chains-K` algorithms.
pub open spec fn is_chain_width(k: usize) -> bool {
    k == 2 || k == 4 || k == 8 || k == 16 || k == 32 || k == 64 || k == 128 || k == 256 || k == 512
}

/// The segment counts of the independent `chains-K-ind` algorithms.
pub open spec fn is_segment_width(k: usize) -> bool {
    k == 1 || k == 2 || k == 4 || k == 8 || k == 16 || k == 32 || k == 64
}

proof fn lemma_small_decimals()
    ensures
        decimal(1) == "1"@,
        decimal(2) == "2"@,
        decimal(4) == "4"@,
        decimal(8) == "8"@,
        decimal(16) == "16"@,
        decimal(32) == "32"@,
        decimal(64) == "64"@,
        decimal(128) == "128"@,
        decimal(256) == "256"@,
        decimal(512) == "512"@,
{
    reveal_strlit("1");
    reveal_strlit("2");
    reveal_strlit("4");
    reveal_strlit("8");
    reveal_strlit("16");
    reveal_strlit("32");
    reveal_strlit("64");
    reveal_strlit("128");
    reveal_strlit("256");
    reveal_strlit("512");
    reveal_with_fuel(decimal, 3);
    assert(decimal(16) =~= "16"@);
    assert(decimal(32) =~= "32"@);
    assert(decimal(64) =~= "64"@);
    assert(decimal(128) =~= "128"@);
    assert(decimal(256) =~= "256"@);
    assert(decimal(512) =~= "512"@);
}

/// Lengths and eighth characters of the chain algorithm names, which tell
/// them apart.
proof fn lemma_chain_name_shapes()
    ensures
        "chains-2"@.len() == 8 && "chains-2"@[7] == '2',
        "chains-4"@.len() == 8 && "chains-4"@[7] == '4',
        "chains-8"@.len() == 8 && "chains-8"@[7] == '8',
        "chains-16"@.len() == 9 && "chains-16"@[7] == '1',
        "chains-32"@.len() == 9 && "chains-32"@[7] == '3',
        "chains-64"@.len() == 9 && "chains-64"@[7] == '6',
        "chains-128"@.len() == 10 && "chains-128"@[7] == '1',
        "chains-256"@.len() == 10 && "chains-256"@[7] == '2',
        "chains-512"@.len() == 10 && "chains-512"@[7] == '5',
        "chains-1-ind"@.len() == 12 && "chains-1-ind"@[7] == '1',
        "chains-2-ind"@.len() == 12 && "chains-2-ind"@[7] == '2',
        "chains-4-ind"@.len() == 12 && "chains-4-ind"@[7] == '4',
        "chains-8-ind"@.len() == 12 && "chains-8-ind"@[7] == '8',
        "chains-16-ind"@.len() == 13 && "chains-16-ind"@[7] == '1',
        "chains-32-ind"@.len() == 13 && "chains-32-ind"@[7] == '3',
        "chains-64-ind"@.len() == 13 && "chains-64-ind"@[7] == '6',
{
    reveal_strlit("chains-2");
    reveal_strlit("chains-4");
    reveal_strlit("chains-8");
    reveal_strlit("chains-16");
    reveal_strlit("chains-32");
    reveal_strlit("chains-64");
    reveal_strlit("chains-128");
    reveal_strlit("chains-256");
    reveal_strlit("chains-512");
    reveal_strlit("chains-1-ind");
    reveal_strlit("chains-2-ind");
    reveal_strlit("chains-4-ind");
    reveal_strlit("chains-8-ind");
    reveal_strlit("chains-16-ind");
    reveal_strlit("chains-32-ind");
    reveal_strlit("chains-64-ind");
}

/// A scrambled chains algorithm is named `chains-K` with `K` written in
/// decimal, and its parsed chain count is exactly that `K`.
pub proof fn lemma_chain_count_is_named_width(algo: Seq<char>, k: usize)
    ensures
        k_chained_spec(algo) == Some(k) <==> (is_chain_width(k) && algo == "chains-"@ + decimal(
            k as nat,
        )),
{
    lemma_small_decimals();
    lemma_chain_name_shapes();
    assert("chains-"@ + "2"@ =~= "chains-2"@) by {
        reveal_strlit("chains-");
        reveal_strlit("2");
        reveal_strlit("chains-2");
    }
    assert("chains-"@ + "4"@ =~= "chains-4"@) by {
        reveal_strlit("chains-");
        reveal_strlit("4");
        reveal_strlit("chains-4");
    }
    assert("chains-"@ + "8"@ =~= "chains-8"@) by {
        reveal_strlit("chains-");
        reveal_strlit("8");
        reveal_strlit("chains-8");
    }
    assert("chains-"@ + "16"@ =~= "chains-16"@) by {
        reveal_strlit("chains-");
        reveal_strlit("16");
        reveal_strlit("chains-16");
    }
    assert("chains-"@ + "32"@ =~= "chains-32"@) by {
        reveal_strlit("chains-");
        reveal_strlit("32");
        reveal_strlit("chains-32");
    }
    assert("chains-"@ + "64"@ =~= "chains-64"@) by {
        reveal_strlit("chains-");
        reveal_strlit("64");
        reveal_strlit("chains-64");
    }
    assert("chains-"@ + "128"@ =~= "chains-128"@) by {
        reveal_strlit("chains-");
        reveal_strlit("128");
        reveal_strlit("chains-128");
    }
    assert("chains-"@ + "256"@ =~= "chains-256"@) by {
        reveal_strlit("chains-");
        reveal_strlit("256");
        reveal_strlit("chains-256");
    }
    assert("chains-"@ + "512"@ =~= "chains-512"@) by {
        reveal_strlit("chains-");
        reveal_strlit("512");
        reveal_strlit("chains-512");
    }
}

/// An independent-segment algorithm is named `chains-K-ind` with `K` in
/// decimal, and its parsed segment count is exactly that `K`.
pub proof fn lemma_segment_count_is_named_width(algo: Seq<char>, k: usize)
    ensures
        k_ind_spec(algo) == Some(k) <==> (is_segment_width(k) && algo == "chains-"@ + decimal(
            k as nat,
        ) + "-ind"@),
{
    lemma_small_decimals();
    lemma_chain_name_shapes();
    assert("chains-"@ + "1"@ + "-ind"@ =~= "chains-1-ind"@) by {
        reveal_strlit("chains-");
        reveal_strlit("1");
        reveal_strlit("-ind");
        reveal_strlit("chains-1-ind");
    }
    assert("chains-"@ + "2"@ + "-ind"@ =~= "chains-2-ind"@) by {
        reveal_strlit("chains-");
        reveal_strlit("2");
        reveal_strlit("-ind");
        reveal_strlit("chains-2-ind");
    }
    assert("chains-"@ + "4"@ + "-ind"@ =~= "chains-4-ind"@) by {
        reveal_strlit("chains-");
        reveal_strlit("4");
        reveal_strlit("-ind");
        reveal_strlit("chains-4-ind");
    }
    assert("chains-"@ + "8"@ + "-ind"@ =~= "chains-8-ind"@) by {
        reveal_strlit("chains-");
        reveal_strlit("8");
        reveal_strlit("-ind");
        reveal_strlit("chains-8-ind");
    }
    assert("chains-"@ + "16"@ + "-ind"@ =~= "chains-16-ind"@) by {
        reveal_strlit("chains-");
        reveal_strlit("16");
        reveal_strlit("-ind");
        reveal_strlit("chains-16-ind");
    }
    assert("chains-"@ + "32"@ + "-ind"@ =~= "chains-32-ind"@) by {
        reveal_strlit("chains-");
        reveal_strlit("32");
        reveal_strlit("-ind");
        reveal_strlit("chains-32-ind");
    }
    assert("chains-"@ + "64"@ + "-ind"@ =~= "chains-64-ind"@) by {
        reveal_strlit("chains-");
        reveal_strlit("64");
        reveal_strlit("-ind");
        reveal_strlit("chains-64-ind");
    }
}

/// The sequential-partition and branchy chain algorithms are named
/// `chains-K-seq`, `chains-K-seq-branchy` and `chains-K-branchy`, and each
/// parses to the `K` in its name.
pub proof fn lemma_seq_and_branchy_counts_are_named_width(algo: Seq<char>, k: usize)
    ensures
        k_seq_spec(algo) == Some(k) <==> (k == 8 && (algo == "chains-"@ + decimal(k as nat)
            + "-seq"@ || algo == "chains-"@ + decimal(k as nat) + "-seq-branchy"@)),
        k_ch_branchy_spec(algo) == Some(k) <==> (k == 8 && algo == "chains-"@ + decimal(k as nat)
            + "-branchy"@),
{
    lemma_small_decimals();
    assert("chains-"@ + "8"@ + "-seq"@ =~= "chains-8-seq"@) by {
        reveal_strlit("chains-");
        reveal_strlit("8");
        reveal_strlit("-seq");
        reveal_strlit("chains-8-seq");
    }
    assert("chains-"@ + "8"@ + "-seq-branchy"@ =~= "chains-8-seq-branchy"@) by {
        reveal_strlit("chains-");
        reveal_strlit("8");
        reveal_strlit("-seq-branchy");
        reveal_strlit("chains-8-seq-branchy");
    }
    assert("chains-"@ + "8"@ + "-branchy"@ =~= "chains-8-branchy"@) by {
        reveal_strlit("chains-");
        reveal_strlit("8");
        reveal_strlit("-branchy");
        reveal_strlit("chains-8-branchy");
    }
}

/// The eight algorithms of the declared factorial block.
pub open spec fn is_factorial_algo(algo: Seq<char>) -> bool {
    algo == "linear"@ || algo == "scrambled"@ || algo == "chains-8-seq"@ || algo == "chains-8"@
        || algo == "linear-branchy"@ || algo == "scrambled-branchy"@
        || algo == "chains-8-seq-branchy"@ || algo == "chains-8-branchy"@
}

/// Factor B of a name: data-dependent branching, named by a `branchy` suffix.
pub open spec fn names_branchy(algo: Seq<char>) -> bool {
    algo.len() >= 7 && algo.subrange(algo.len() - 7, algo.len() as int) == "branchy"@
}

/// Factor D of a name: eight dependent chains, named by a `chains-8` prefix.
pub open spec fn names_chained(algo: Seq<char>) -> bool {
    algo.len() >= 8 && algo.take(8) == "chains-8"@
}

/// Factor A of a name: scrambled access. Named by a `scrambled` prefix, or
/// by a `chains-8` prefix not followed by `-seq` (the sequential partition).
pub open spec fn names_scrambled(algo: Seq<char>) -> bool {
    (algo.len() >= 9 && algo.take(9) == "scrambled"@) || (names_chained(algo) && !(algo.len() >= 12
        && algo.take(12) == "chains-8-seq"@))
}

/// One bit of a node code.
pub open spec fn bit_char(bit: bool) -> Seq<char> {
    if bit {
        "1"@
    } else {
        "0"@
    }
}

proof fn lemma_bit_char(bit: bool)
    ensures
        bit_char(bit).len() == 1,
        (bit_char(bit)[0] == '1') == bit,
{
    reveal_strlit("1");
    reveal_strlit("0");
}

/// The A, D, B bits of a node followed by the description of its factors.
pub open spec fn factor_description(a: bool, d: bool, b: bool) -> Seq<char> {
    bit_char(a) + bit_char(d) + bit_char(b) + " A="@ + (if a {
        "scr"@
    } else {
        "seq"@
    }) + " D="@ + (if d {
        "ch8"@
    } else {
        "ind"@
    }) + " B="@ + (if b {
        "br"@
    } else {
        "none"@
    }) + " "@
}

proof fn lemma_factor_description_bits(a: bool, d: bool, b: bool)
    ensures
        factor_description(a, d, b).len() >= 3,
        factor_description(a, d, b)[0] == bit_char(a)[0],
        factor_description(a, d, b)[1] == bit_char(d)[0],
        factor_description(a, d, b)[2] == bit_char(b)[0],
{
    lemma_bit_char(a);
    lemma_bit_char(d);
    lemma_bit_char(b);
    let x = bit_char(a) + bit_char(d) + bit_char(b);
    assert(x[0] == bit_char(a)[0] && x[1] == bit_char(d)[0] && x[2] == bit_char(b)[0]);
    let y = factor_description(a, d, b);
    assert(y.len() >= x.len());
    assert(forall|i: int| 0 <= i < 3 ==> #[trigger] y[i] == x[i]) by {
        assert(y.take(3) =~= x);
    }
    assert(y[0] == x[0] && y[1] == x[1] && y[2] == x[2]);
}

proof fn lemma_factors_of_linear()
    ensures
        names_scrambled("linear"@) == false,
        names_chained("linear"@) == false,
        names_branchy("linear"@) == false,
{
    let algo = "linear"@;
    reveal_strlit("linear");
    reveal_strlit("branchy");
    reveal_strlit("chains-8");
    reveal_strlit("scrambled");
    reveal_strlit("chains-8-seq");
}

proof fn lemma_factors_of_scrambled()
    ensures
        names_scrambled("scrambled"@) == true,
        names_chained("scrambled"@) == false,
        names_branchy("scrambled"@) == false,
{
    let algo = "scrambled"@;
    reveal_strlit("scrambled");
    reveal_strlit("branchy");
    reveal_strlit("chains-8");
    reveal_strlit("scrambled");
    reveal_strlit("chains-8-seq");
    assert(algo.subrange(2, 9)[0] != "branchy"@[0]);
    assert(algo.take(8)[0] != "chains-8"@[0]);
    assert(algo.take(9) =~= "scrambled"@);
}

proof fn lemma_factors_of_chains_8_seq()
    ensures
        names_scrambled("chains-8-seq"@) == false,
        names_chained("chains-8-seq"@) == true,
        names_branchy("chains-8-seq"@) == false,
{
    let algo = "chains-8-seq"@;
    reveal_strlit("chains-8-seq");
    reveal_strlit("branchy");
    reveal_strlit("chains-8");
    reveal_strlit("scrambled");
    reveal_strlit("chains-8-seq");
    assert(algo.subrange(5, 12)[0] != "branchy"@[0]);
    assert(algo.take(8) =~= "chains-8"@);
    assert(algo.take(9)[0] != "scrambled"@[0]);
    assert(algo.take(12) =~= "chains-8-seq"@);
}

proof fn lemma_factors_of_chains_8()
    ensures
        names_scrambled("chains-8"@) == true,
        names_chained("chains-8"@) == true,
        names_branchy("chains-8"@) == false,
{
    let algo = "chains-8"@;
    reveal_strlit("chains-8");
    reveal_strlit("branchy");
    reveal_strlit("chains-8");
    reveal_strlit("scrambled");
    reveal_strlit("chains-8-seq");
    assert(algo.subrange(1, 8)[0] != "branchy"@[0]);
    assert(algo.take(8) =~= "chains-8"@);
}

proof fn lemma_factors_of_linear_branchy()
    ensures
        names_scrambled("linear-branchy"@) == false,
        names_chained("linear-branchy"@) == false,
        names_branchy("linear-branchy"@) == true,
{
    let algo = "linear-branchy"@;
    reveal_strlit("linear-branchy");
    reveal_strlit("branchy");
    reveal_strlit("chains-8");
    reveal_strlit("scrambled");
    reveal_strlit("chains-8-seq");
    assert(algo.subrange(7, 14) =~= "branchy"@);
    assert(algo.take(8)[0] != "chains-8"@[0]);
    assert(algo.take(9)[0] != "scrambled"@[0]);
    assert(algo.take(12)[0] != "chains-8-seq"@[0]);
}

proof fn lemma_factors_of_scrambled_branchy()
    ensures
        names_scrambled("scrambled-branchy"@) == true,
        names_chained("scrambled-branchy"@) == false,
        names_branchy("scrambled-branchy"@) == true,
{
    let algo = "scrambled-branchy"@;
    reveal_strlit("scrambled-branchy");
    reveal_strlit("branchy");
    reveal_strlit("chains-8");
    reveal_strlit("scrambled");
    reveal_strlit("chains-8-seq");
    assert(algo.subrange(10, 17) =~= "branchy"@);
    assert(algo.take(8)[0] != "chains-8"@[0]);
    assert(algo.take(9) =~= "scrambled"@);
    assert(algo.take(12)[0] != "chains-8-seq"@[0]);
}

proof fn lemma_factors_of_chains_8_seq_branchy()
    ensures
        names_scrambled("chains-8-seq-branchy"@) == false,
        names_chained("chains-8-seq-branchy"@) == true,
        names_branchy("chains-8-seq-branchy"@) == true,
{
    let algo = "chains-8-seq-branchy"@;
    reveal_strlit("chains-8-seq-branchy");
    reveal_strlit("branchy");
    reveal_strlit("chains-8");
    reveal_strlit("scrambled");
    reveal_strlit("chains-8-seq");
    assert(algo.subrange(13, 20) =~= "branchy"@);
    assert(algo.take(8) =~= "chains-8"@);
    assert(algo.take(9)[0] != "scrambled"@[0]);
    assert(algo.take(12) =~= "chains-8-seq"@);
}

proof fn lemma_factors_of_chains_8_branchy()
    ensures
        names_scrambled("chains-8-branchy"@) == true,
        names_chained("chains-8-branchy"@) == true,
        names_branchy("chains-8-branchy"@) == true,
{
    let algo = "chains-8-branchy"@;
    reveal_strlit("chains-8-branchy");
    reveal_strlit("branchy");
    reveal_strlit("chains-8");
    reveal_strlit("scrambled");
    reveal_strlit("chains-8-seq");
    assert(algo.subrange(9, 16) =~= "branchy"@);
    assert(algo.take(8) =~= "chains-8"@);
    assert(algo.take(9)[0] != "scrambled"@[0]);
    assert(algo.take(12)[9] != "chains-8-seq"@[9]);
}

/// The factors that each factorial name carries.
proof fn lemma_factorial_factors()
    ensures
        names_scrambled("linear"@) == false && names_chained("linear"@) == false && names_branchy("linear"@) == false,
        names_scrambled("scrambled"@) == true && names_chained("scrambled"@) == false && names_branchy("scrambled"@) == false,
        names_scrambled("chains-8-seq"@) == false && names_chained("chains-8-seq"@) == true && names_branchy("chains-8-seq"@) == false,
        names_scrambled("chains-8"@) == true && names_chained("chains-8"@) == true && names_branchy("chains-8"@) == false,
        names_scrambled("linear-branchy"@) == false && names_chained("linear-branchy"@) == false && names_branchy("linear-branchy"@) == true,
        names_scrambled("scrambled-branchy"@) == true && names_chained("scrambled-branchy"@) == false && names_branchy("scrambled-branchy"@) == true,
        names_scrambled("chains-8-seq-branchy"@) == false && names_chained("chains-8-seq-branchy"@) == true && names_branchy("chains-8-seq-branchy"@) == true,
        names_scrambled("chains-8-branchy"@) == true && names_chained("chains-8-branchy"@) == true && names_branchy("chains-8-branchy"@) == true,
{
    lemma_factors_of_linear();
    lemma_factors_of_scrambled();
    lemma_factors_of_chains_8_seq();
    lemma_factors_of_chains_8();
    lemma_factors_of_linear_branchy();
    lemma_factors_of_scrambled_branchy();
    lemma_factors_of_chains_8_seq_branchy();
    lemma_factors_of_chains_8_branchy();
}

/// A factorial label spells out its node: `G`, then the S bit, then the A,
/// D, B bits with the description of those factors, then the size class.
/// Each bit is 1 exactly when its factor is present: S when `n` exceeds the
/// standard protocol limit, A when the name says scrambled access, D when it
/// names the eight dependent chains, B when it names data-dependent branching.
pub proof fn lemma_factorial_label_matches_factors(algo: Seq<char>, n: nat)
    requires
        is_factorial_algo(algo),
    ensures
        factorial_label_spec(algo, n) == "G"@ + bit_char(n > STANDARD_MAX_N) + factor_description(
            names_scrambled(algo),
            names_chained(algo),
            names_branchy(algo),
        ) + (if n > STANDARD_MAX_N {
            "S1"@
        } else {
            "S0"@
        }),
{
    lemma_factorial_factors();
    let s = n > STANDARD_MAX_N;
    assert(size_bit_spec(n) == bit_char(s));
    assert(size_class_spec(n) == (if s {
        "S1"@
    } else {
        "S0"@
    }));
    if algo == "linear"@ {
        assert("000 A=seq D=ind B=none "@ =~= factor_description(false, false, false)) by {
            reveal_strlit("1");
            reveal_strlit("0");
            reveal_strlit(" A=");
            reveal_strlit("seq");
            reveal_strlit(" D=");
            reveal_strlit("ind");
            reveal_strlit(" B=");
            reveal_strlit("none");
            reveal_strlit(" ");
            reveal_strlit("000 A=seq D=ind B=none ");
        }
    } else if algo == "scrambled"@ {
        assert("100 A=scr D=ind B=none "@ =~= factor_description(true, false, false)) by {
            reveal_strlit("1");
            reveal_strlit("0");
            reveal_strlit(" A=");
            reveal_strlit("scr");
            reveal_strlit(" D=");
            reveal_strlit("ind");
            reveal_strlit(" B=");
            reveal_strlit("none");
            reveal_strlit(" ");
            reveal_strlit("100 A=scr D=ind B=none ");
        }
    } else if algo == "chains-8-seq"@ {
        assert("010 A=seq D=ch8 B=none "@ =~= factor_description(false, true, false)) by {
            reveal_strlit("1");
            reveal_strlit("0");
            reveal_strlit(" A=");
            reveal_strlit("seq");
            reveal_strlit(" D=");
            reveal_strlit("ch8");
            reveal_strlit(" B=");
            reveal_strlit("none");
            reveal_strlit(" ");
            reveal_strlit("010 A=seq D=ch8 B=none ");
        }
    } else if algo == "chains-8"@ {
        assert("110 A=scr D=ch8 B=none "@ =~= factor_description(true, true, false)) by {
            reveal_strlit("1");
            reveal_strlit("0");
            reveal_strlit(" A=");
            reveal_strlit("scr");
            reveal_strlit(" D=");
            reveal_strlit("ch8");
            reveal_strlit(" B=");
            reveal_strlit("none");
            reveal_strlit(" ");
            reveal_strlit("110 A=scr D=ch8 B=none ");
        }
    } else if algo == "linear-branchy"@ {
        assert("001 A=seq D=ind B=br "@ =~= factor_description(false, false, true)) by {
            reveal_strlit("1");
            reveal_strlit("0");
            reveal_strlit(" A=");
            reveal_strlit("seq");
            reveal_strlit(" D=");
            reveal_strlit("ind");
            reveal_strlit(" B=");
            reveal_strlit("br");
            reveal_strlit(" ");
            reveal_strlit("001 A=seq D=ind B=br ");
        }
    } else if algo == "scrambled-branchy"@ {
        assert("101 A=scr D=ind B=br "@ =~= factor_description(true, false, true)) by {
            reveal_strlit("1");
            reveal_strlit("0");
            reveal_strlit(" A=");
            reveal_strlit("scr");
            reveal_strlit(" D=");
            reveal_strlit("ind");
            reveal_strlit(" B=");
            reveal_strlit("br");
            reveal_strlit(" ");
            reveal_strlit("101 A=scr D=ind B=br ");
        }
    } else if algo == "chains-8-seq-branchy"@ {
        assert("011 A=seq D=ch8 B=br "@ =~= factor_description(false, true, true)) by {
            reveal_strlit("1");
            reveal_strlit("0");
            reveal_strlit(" A=");
            reveal_strlit("seq");
            reveal_strlit(" D=");
            reveal_strlit("ch8");
            reveal_strlit(" B=");
            reveal_strlit("br");
            reveal_strlit(" ");
            reveal_strlit("011 A=seq D=ch8 B=br ");
        }
    } else if algo == "chains-8-branchy"@ {
        assert("111 A=scr D=ch8 B=br "@ =~= factor_description(true, true, true)) by {
            reveal_strlit("1");
            reveal_strlit("0");
            reveal_strlit(" A=");
            reveal_strlit("scr");
            reveal_strlit(" D=");
            reveal_strlit("ch8");
            reveal_strlit(" B=");
            reveal_strlit("br");
            reveal_strlit(" ");
            reveal_strlit("111 A=scr D=ch8 B=br ");
        }
    }
}

proof fn lemma_factorial_code_bits(algo: Seq<char>, n: nat)
    requires
        is_factorial_algo(algo),
    ensures
        factorial_label_spec(algo, n).len() >= 5,
        factorial_label_spec(algo, n)[1] == bit_char(n > STANDARD_MAX_N)[0],
        factorial_label_spec(algo, n)[2] == bit_char(names_scrambled(algo))[0],
        factorial_label_spec(algo, n)[3] == bit_char(names_chained(algo))[0],
        factorial_label_spec(algo, n)[4] == bit_char(names_branchy(algo))[0],
{
    lemma_factorial_label_matches_factors(algo, n);
    let a = names_scrambled(algo);
    let d = names_chained(algo);
    let b = names_branchy(algo);
    let s = n > STANDARD_MAX_N;
    lemma_factor_description_bits(a, d, b);
    lemma_bit_char(s);
    reveal_strlit("G");
    let head = "G"@ + bit_char(s) + factor_description(a, d, b);
    let l = factorial_label_spec(algo, n);
    assert(l.take(head.len() as int) =~= head);
    assert(head[1] == bit_char(s)[0]);
    assert(head[2] == factor_description(a, d, b)[0]);
    assert(head[3] == factor_description(a, d, b)[1]);
    assert(head[4] == factor_description(a, d, b)[2]);
    assert(l.take(head.len() as int)[1] == l[1]);
    assert(l.take(head.len() as int)[2] == l[2]);
    assert(l.take(head.len() as int)[3] == l[3]);
    assert(l.take(head.len() as int)[4] == l[4]);
}

/// The node code (the first five characters) of a factorial label tells the
/// sixteen (algorithm, size class) pairs apart: equal codes mean the same
/// algorithm in the same size class.
pub proof fn lemma_factorial_codes_distinct(a1: Seq<char>, n1: nat, a2: Seq<char>, n2: nat)
    requires
        is_factorial_algo(a1),
        is_factorial_algo(a2),
        factorial_label_spec(a1, n1).take(5) == factorial_label_spec(a2, n2).take(5),
    ensures
        a1 == a2,
        (n1 > STANDARD_MAX_N) == (n2 > STANDARD_MAX_N),
{
    lemma_factorial_code_bits(a1, n1);
    lemma_factorial_code_bits(a2, n2);
    lemma_factorial_factors();
    let l1 = factorial_label_spec(a1, n1);
    let l2 = factorial_label_spec(a2, n2);
    lemma_bit_char(n1 > STANDARD_MAX_N);
    lemma_bit_char(n2 > STANDARD_MAX_N);
    lemma_bit_char(names_scrambled(a1));
    lemma_bit_char(names_scrambled(a2));
    lemma_bit_char(names_chained(a1));
    lemma_bit_char(names_chained(a2));
    lemma_bit_char(names_branchy(a1));
    lemma_bit_char(names_branchy(a2));
    assert(l1.take(5)[1] == l2.take(5)[1]);
    assert(l1.take(5)[2] == l2.take(5)[2]);
    assert(l1.take(5)[3] == l2.take(5)[3]);
    assert(l1.take(5)[4] == l2.take(5)[4]);
}

/// Outside the calibration and intervention runs, the probe times `n` with
/// the same warm and timed pass counts as the transition-gradient sweep
/// does at that `n`.
pub proof fn lemma_probe_protocol_follows_sweep_boundary(algo: Seq<char>, n: usize)
    requires
        algo != "scrambled-dram-cal"@,
        algo != "chain-only"@,
        algo != "chain-only-stack-spill"@,
    ensures
        probe_protocol_spec(algo, n as nat).warm_spec() == (if crate::transition_gradient::is_light_protocol(n) {
            crate::transition_gradient::TG_WARM_LIGHT
        } else {
            crate::transition_gradient::TG_WARM_STANDARD
        }),
        probe_protocol_spec(algo, n as nat).timed_spec() == (if crate::transition_gradient::is_light_protocol(n) {
            crate::transition_gradient::TG_TIMED_LIGHT
        } else {
            crate::transition_gradient::TG_TIMED_STANDARD
        }),
{
}

} // verus!
