//! Stateless splitmix64-derived hashing shared by every sampler.

use vstd::prelude::*;

verus! {

/// Golden-ratio increment used by splitmix64 and by the round-seed mixer.
pub const GOLDEN: u64 = 0x9E37_79B9_7F4A_7C15;

/// Odd multiplier that spreads an index across the 64-bit space.
pub const INDEX_MIX: u64 = 0xD6E8_FD50_89A4_7A4D;

/// The splitmix64 finalizer applied to `value + GOLDEN`.
pub open spec fn spec_mixed_hash(value: u64) -> u64 {
    let a = value.wrapping_add(GOLDEN);
    let b = (a ^ (a >> 30u64)).wrapping_mul(0xBF58_476D_1CE4_E5B9u64);
    let c = (b ^ (b >> 27u64)).wrapping_mul(0x94D0_49BB_1331_11EBu64);
    c ^ (c >> 31u64)
}

/// Deterministic 64-bit mixing hash (splitmix64 output function).
pub fn mixed_hash(value: u64) -> (r: u64)
    ensures
        r == spec_mixed_hash(value),
{
    let a = value.wrapping_add(GOLDEN);
    let b = (a ^ (a >> 30u64)).wrapping_mul(0xBF58_476D_1CE4_E5B9u64);
    let c = (b ^ (b >> 27u64)).wrapping_mul(0x94D0_49BB_1331_11EBu64);
    c ^ (c >> 31u64)
}


/// One step of the SplitMix64 generator: advances `state` by the golden
/// increment and returns the mixed new state.
pub fn splitmix_next(state: &mut u64) -> (r: u64)
    ensures
        *final(state) == old(state).wrapping_add(GOLDEN),
        r == spec_mixed_hash(*old(state)),
{
    *state = state.wrapping_add(GOLDEN);
    let z = *state;
    let b = (z ^ (z >> 30u64)).wrapping_mul(0xBF58_476D_1CE4_E5B9u64);
    let c = (b ^ (b >> 27u64)).wrapping_mul(0x94D0_49BB_1331_11EBu64);
    c ^ (c >> 31u64)
}

} // verus!
