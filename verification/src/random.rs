//! The random draws that the engine makes, taken from a `SmallRng`.

use rand::rngs::SmallRng;
use rand::Rng;
use vstd::prelude::*;

verus! {

/// `rand::rngs::SmallRng`, a random number generator. Nothing is known of
/// what it holds.
#[verifier::external_type_specification]
#[verifier::external_body]
pub struct ExSmallRng(SmallRng);

/// Draws an index below `bound` with `Rng::gen_range(0, bound)`, which hands
/// back a value of the half-open range and panics on an empty one.
#[verifier::external_body]
pub(crate) fn draw_below(rng: &mut SmallRng, bound: usize) -> (drawn: usize)
    requires
        bound > 0,
    ensures
        drawn < bound,
{
    rng.gen_range(0, bound)
}

} // verus!
