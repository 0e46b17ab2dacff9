//! The source of randomness behind a pull.

use rand::Rng;
use vstd::prelude::*;

verus! {

/// A number drawn uniformly from `0..bound` by `rand::Rng::gen_range` on the
/// thread's generator (`rand::thread_rng`). The contract claims only the
/// range, which holds of every outcome; `gen_range` panics on an empty range,
/// so `bound` must be positive.
#[verifier::external_body]
pub(crate) fn random_below(bound: u128) -> (r: u128)
    requires
        bound > 0,
    ensures
        r < bound,
{
    rand::thread_rng().gen_range(0..bound)
}

} // verus!
