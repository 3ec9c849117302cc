//! Declared constants of the scrambled-access cache-latency sweep and the
//! cache-hierarchy tier that labels each point of the curve.
use vstd::prelude::*;

verus! {

/// Warm passes of the lighter cache-sweep protocol.
pub const CACHE_SWEEP_WARM: usize = 3;

/// Timed passes of the lighter cache-sweep protocol.
pub const CACHE_SWEEP_TIMED: usize = 10;

/// Declared sweep sizes (elements of 8 bytes): 15 doublings from 4 KB to 64 MB.
pub const SWEEP_SIZES: [usize; 15] = [
    512, 1_024, 2_048, 4_096, 8_192, 16_384, 32_768, 65_536,
    131_072, 262_144, 524_288, 1_048_576, 2_097_152, 4_194_304, 8_388_608,
];

/// Declared L1 data-cache size of the declared hardware.
pub const L1D_BYTES: usize = 32_768;

/// Declared per-core L2 size of the declared hardware.
pub const L2_BYTES: usize = 1_048_576;

/// Declared shared L3 size of the declared hardware.
pub const L3_BYTES: usize = 33_554_432;

/// The report label of the cache level that holds a working set.
pub open spec fn cache_level_label_spec(working_set_bytes: usize) -> Seq<char> {
    if working_set_bytes <= L1D_BYTES {
        "<= L1d"@
    } else if working_set_bytes <= L2_BYTES {
        "<= L2"@
    } else if working_set_bytes <= L3_BYTES {
        "<= L3"@
    } else {
        "> L3 (RAM)"@
    }
}

/// Names the smallest declared cache level that holds `working_set_bytes`,
/// as printed beside each point of the cache-latency curve.
pub fn cache_level_label(working_set_bytes: usize) -> (r: &'static str)
    ensures
        r@ == cache_level_label_spec(working_set_bytes),
{
    if working_set_bytes <= L1D_BYTES {
        "<= L1d"
    } else if working_set_bytes <= L2_BYTES {
        "<= L2"
    } else if working_set_bytes <= L3_BYTES {
        "<= L3"
    } else {
        "> L3 (RAM)"
    }
}

} // verus!
