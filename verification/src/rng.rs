//! Seedable randomness for weight initialization.
//!
//! The generator itself comes from the rand crate; the library only draws
//! raw 64-bit values from it and does all further shaping in verified code,
//! so nothing about the drawn values is assumed.

use vstd::prelude::*;

use rand::RngCore;
use rand::SeedableRng;

verus! {

#[verifier::external_type_specification]
#[verifier::external_body]
pub struct ExStdRng(rand::rngs::StdRng);

/// Relies on rand's `StdRng::seed_from_u64`: a pseudorandom generator built
/// from the given seed (the same seed always yields the same generator).
#[verifier::external_body]
pub(crate) fn rng_from_seed(seed: u64) -> rand::rngs::StdRng {
    rand::rngs::StdRng::seed_from_u64(seed)
}

/// Relies on rand's `RngCore::next_u64` on `StdRng`; nothing is promised of
/// a random draw.
#[verifier::external_body]
pub(crate) fn rng_next(rng: &mut rand::rngs::StdRng) -> u64 {
    rng.next_u64()
}

} // verus!
