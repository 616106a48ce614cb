use rand::rngs::StdRng;
use rand::{FromEntropy, Rng};
use vstd::prelude::*;

verus! {

#[verifier::external_type_specification]
#[verifier::external_body]
pub struct ExStdRng(StdRng);

/// Relies on rand's `FromEntropy::from_entropy` for `StdRng`: a generator
/// seeded from the operating system's entropy source. Nothing is promised
/// of its state.
#[verifier::external_body]
pub(crate) fn rng_from_entropy() -> StdRng {
    StdRng::from_entropy()
}

/// Relies on rand's `Rng::gen_range(low, high)`: a value in `[low, high)`;
/// it panics when `low >= high`, hence the bound on `high`.
#[verifier::external_body]
pub(crate) fn rng_below(rng: &mut StdRng, high: usize) -> (r: usize)
    requires
        0 < high,
    ensures
        r < high,
{
    rng.gen_range(0, high)
}

} // verus!
