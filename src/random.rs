//! The random draws of the library, made on a caller-supplied seeded
//! generator so that a run can be repeated.
use rand::Rng;
use vstd::prelude::*;

verus! {

/// The seedable generator that drives every random choice of a run.
#[verifier::external_type_specification]
#[verifier::external_body]
pub struct ExStdRng(rand::rngs::StdRng);

/// Relies on `rand::Rng::gen_range` over a half-open integer range: the
/// value lies in `[0, bound)`; it panics on an empty range, hence the
/// `requires`.
#[verifier::external_body]
pub(crate) fn uniform_below(rng: &mut rand::rngs::StdRng, bound: u64) -> (r: u64)
    requires
        bound > 0,
    ensures
        r < bound,
{
    rng.gen_range(0..bound)
}

/// Relies on `rand::Rng::gen_ratio(1, 2)`: a fair coin; nothing is promised
/// of the outcome.
#[verifier::external_body]
pub(crate) fn fair_coin(rng: &mut rand::rngs::StdRng) -> bool {
    rng.gen_ratio(1, 2)
}

} // verus!
