//! Trusted surface over the `rand` crate: the thread-local generator and
//! one bounded draw, all the randomness the permutation shuffle needs.

use vstd::prelude::*;
use rand::Rng;

verus! {

/// Declares rand::rngs::ThreadRng so the generator can appear in the
/// wrappers' signatures; the library sees nothing inside it.
#[verifier::external_type_specification]
#[verifier::external_body]
pub struct ExThreadRng(rand::rngs::ThreadRng);

/// Relies on rand::thread_rng: a handle to the thread-local generator.
#[verifier::external_body]
pub(crate) fn new_rng() -> rand::rngs::ThreadRng {
    rand::thread_rng()
}

/// Relies on rand::Rng::gen_range over `0..bound`: the draw lies in that
/// half-open range; only an empty range panics. Nothing is promised about
/// which value comes back.
#[verifier::external_body]
pub(crate) fn rand_below(rng: &mut rand::rngs::ThreadRng, bound: usize) -> (r: usize)
    requires
        bound >= 1,
    ensures
        r < bound,
{
    rng.gen_range(0..bound)
}

} // verus!
