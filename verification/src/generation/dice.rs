//! Coin tosses from the thread's random number generator.
//!
//! What a toss gives is not known to Verus: the passes that toss are proved for
//! either outcome.

use rand::rngs::ThreadRng;
use rand::Rng;
use vstd::prelude::*;

verus! {

#[verifier::external_type_specification]
#[verifier::external_body]
pub struct ExThreadRng(ThreadRng);

/// `Rng::gen_ratio`: true with a chance of `numerator` in `denominator`. The
/// call panics unless `0 < denominator` and `numerator <= denominator`. It is
/// documented to give true when the two are equal and false when the
/// numerator is zero; of any other toss nothing is claimed.
#[verifier::external_body]
pub(crate) fn roll(rng: &mut ThreadRng, numerator: u32, denominator: u32) -> (hit: bool)
    requires
        0 < denominator,
        numerator <= denominator,
    ensures
        numerator == denominator ==> hit,
        numerator == 0 ==> !hit,
{
    rng.gen_ratio(numerator, denominator)
}

/// `Rng::gen` at type `bool`: a fair coin. Nothing is claimed of the outcome.
#[verifier::external_body]
pub(crate) fn flip(rng: &mut ThreadRng) -> (side: bool) {
    rng.gen::<bool>()
}

} // verus!
