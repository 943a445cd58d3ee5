use vstd::prelude::*;
use rand::Rng;
use crate::color::HUE_STEPS;

verus! {

/// The thread-local random number generator of the rand crate, declared opaque
/// so the batch driver can construct one source and advance it once per item.
#[verifier::external_type_specification]
#[verifier::external_body]
pub struct ExThreadRng(rand::rngs::ThreadRng);

/// Relies on rand's Rng::gen_range over the half-open range [0, HUE_STEPS):
/// one uniform draw, which models a hue sampled uniformly from [0, 360)
/// degrees in thousandths of a degree. Nothing more than the range can be
/// promised of a random draw.
#[verifier::external_body]
pub(crate) fn sample_hue(rng: &mut rand::rngs::ThreadRng) -> (h: u32)
    ensures
        h < HUE_STEPS,
{
    rng.gen_range(0..HUE_STEPS)
}

} // verus!
