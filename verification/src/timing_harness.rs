use vstd::prelude::*;

verus! {

/// Warm-up passes discarded before timing (standard protocol).
pub const N_WARM: usize = 100;

/// Timed passes averaged by the standard protocol.
pub const N_TIMED: usize = 1_000;

} // verus!
