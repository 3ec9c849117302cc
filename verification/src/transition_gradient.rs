//! Regime 4 declared sweep: the N values of the transition-gradient sweep
//! and the timing protocol chosen at each N.
use vstd::prelude::*;

verus! {

/// 25 declared N values from 65,536 (524 KB) through 4,194,304 (32 MB).
pub const SWEEP_N: [usize; 25] = [
    65_536, 90_000, 122_880, 163_840, 196_608, 229_376, 262_144, 327_680, 393_216, 458_752,
    524_288, 655_360, 786_432, 917_504, 1_048_576, 1_245_184, 1_441_792, 1_638_400, 1_835_008,
    2_097_152, 2_359_296, 2_752_512, 3_145_728, 3_670_016, 4_194_304,
];

/// Protocol boundary: N values above this use the lighter protocol.
pub const STANDARD_PROTOCOL_MAX_N: usize = 524_288;

pub const TG_WARM_STANDARD: usize = 100;

pub const TG_TIMED_STANDARD: usize = 1_000;

pub const TG_WARM_LIGHT: usize = 10;

pub const TG_TIMED_LIGHT: usize = 100;

/// Whether the lighter protocol applies at `n`.
pub open spec fn is_light_protocol(n: usize) -> bool {
    n > STANDARD_PROTOCOL_MAX_N
}

/// Whether the lighter protocol applies at `n`.
pub fn light_protocol(n: usize) -> (r: bool)
    ensures
        r == is_light_protocol(n),
{
    n > STANDARD_PROTOCOL_MAX_N
}

/// Warm passes at `n`: standard through the boundary, light above it.
pub fn warm_passes(n: usize) -> (r: usize)
    ensures
        r == (if is_light_protocol(n) { TG_WARM_LIGHT } else { TG_WARM_STANDARD }),
{
    if n <= STANDARD_PROTOCOL_MAX_N {
        TG_WARM_STANDARD
    } else {
        TG_WARM_LIGHT
    }
}

/// Timed passes at `n`: standard through the boundary, light above it.
pub fn timed_passes(n: usize) -> (r: usize)
    ensures
        r == (if is_light_protocol(n) { TG_TIMED_LIGHT } else { TG_TIMED_STANDARD }),
{
    if n <= STANDARD_PROTOCOL_MAX_N {
        TG_TIMED_STANDARD
    } else {
        TG_TIMED_LIGHT
    }
}

} // verus!
