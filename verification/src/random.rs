//! Random draws, from turborand's generator.

use vstd::prelude::*;
use turborand::rng::Rng;
use turborand::TurboRand;

verus! {

#[verifier::external_type_specification]
#[verifier::external_body]
pub struct ExRng(Rng);

/// `TurboRand::u32` on the inclusive range `low..=high`: some number of that
/// range, drawn at random (each call may give another one).
#[verifier::external_body]
pub(crate) fn roll_u32(rng: &Rng, low: u32, high: u32) -> (r: u32)
    requires
        low <= high,
    ensures
        low <= r <= high,
{
    rng.u32(low..=high)
}

} // verus!
