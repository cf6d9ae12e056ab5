//! Random draws for the genetic operators.
//!
//! Every probabilistic decision in the engine is made from uniform integer
//! draws out of a seedable generator, so whole runs are reproducible from
//! one seed. The generator itself comes from the `rand` crate; the two
//! functions that touch it are the only trusted code in this crate.

use vstd::prelude::*;
use rand::Rng;
use rand::SeedableRng;

verus! {

/// Declares `rand::rngs::StdRng`, the seedable generator every operator
/// draws from; the crate holds it only as an opaque value.
#[verifier::external_type_specification]
#[verifier::external_body]
pub struct ExStdRng(rand::rngs::StdRng);

/// Relies on `rand::rngs::StdRng::seed_from_u64`: builds a generator from a
/// seed; never panics.
#[verifier::external_body]
pub fn rng_from_seed(seed: u64) -> rand::rngs::StdRng {
    rand::rngs::StdRng::seed_from_u64(seed)
}

/// Relies on `rand::Rng::gen_range`: returns a uniform value in
/// `0..bound` and panics only on an empty range, which the precondition
/// rules out.
#[verifier::external_body]
pub fn rng_below(rng: &mut rand::rngs::StdRng, bound: u64) -> (r: u64)
    requires
        bound >= 1,
    ensures
        r < bound,
{
    rng.gen_range(0..bound)
}

} // verus!
