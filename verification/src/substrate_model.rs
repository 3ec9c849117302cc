//! Integer parts of the substrate model: the cache tier a working set
//! falls in and the TLB pressure it produces, from the declared Zen 4
//! architectural constants.
use vstd::prelude::*;

verus! {

/// Array element size of the declared domain (bytes).
pub const ELEMENT_SIZE_BYTES: usize = 8;

/// Page size (bytes).
pub const PAGE_SIZE_BYTES: usize = 4096;

/// Fully-associative L1 DTLB entries.
pub const L1_DTLB_ENTRIES: usize = 72;

/// L2 DTLB entries.
pub const L2_DTLB_ENTRIES: usize = 3072;

/// Declared S0 size.
pub const N_S0: usize = 524_288;

/// Declared S1 size.
pub const N_S1: usize = 4_194_304;

/// Cache tier of a full working set of `n` 8-byte elements:
/// 0 = L1 (<= 32 KB), 1 = L2 (<= 1 MB), 2 = L3 (<= 32 MB), 3 = DRAM.
pub open spec fn cache_tier_spec(n: nat) -> usize {
    let ws = n * 8;
    if ws <= 32_768 {
        0
    } else if ws <= 1_048_576 {
        1
    } else if ws <= 33_554_432 {
        2
    } else {
        3
    }
}

/// The cache tier of `n` elements, by the full working set regardless of
/// how many chains interleave over it.
pub fn cache_tier(n: usize) -> (r: usize)
    requires
        n * 8 <= usize::MAX,
    ensures
        r == cache_tier_spec(n as nat),
{
    let ws = n * ELEMENT_SIZE_BYTES;
    if ws <= 32_768 {
        0
    } else if ws <= 1_048_576 {
        1
    } else if ws <= 33_554_432 {
        2
    } else {
        3
    }
}

/// A larger working set never lands in a closer cache tier.
pub proof fn lemma_cache_tier_monotone(a: nat, b: nat)
    requires
        a <= b,
    ensures
        cache_tier_spec(a) <= cache_tier_spec(b),
{
}

/// Integer TLB pressure of a declared node.
#[derive(Debug, Clone, Copy, PartialEq, Eq)]
pub struct TlbState {
    pub l1_dtlb_saturated: bool,
    pub l2_dtlb_saturated: bool,
    pub pages: usize,
}

/// Pages touched by `n` 8-byte elements: `ceil(8 n / 4096)`.
pub open spec fn pages_spec(n: nat) -> nat {
    (n * 8 + 4095) / 4096
}

/// TLB pressure of `n` elements: pages touched, and whether that exceeds
/// the L1 DTLB (72 entries) and the L2 DTLB (3072 entries).
pub fn tlb_state(n: usize) -> (r: TlbState)
    requires
        n * 8 + 4096 <= usize::MAX,
    ensures
        r.pages == pages_spec(n as nat),
        r.l1_dtlb_saturated == (r.pages > L1_DTLB_ENTRIES),
        r.l2_dtlb_saturated == (r.pages > L2_DTLB_ENTRIES),
{
    let pages = (n * ELEMENT_SIZE_BYTES + PAGE_SIZE_BYTES - 1) / PAGE_SIZE_BYTES;
    TlbState {
        l1_dtlb_saturated: pages > L1_DTLB_ENTRIES,
        l2_dtlb_saturated: pages > L2_DTLB_ENTRIES,
        pages,
    }
}

} // verus!
