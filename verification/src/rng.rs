//! The one place the simulation draws randomness from the outside.

use vstd::prelude::*;
use rand::Rng;

verus! {

/// Relies on rand's `Rng::gen_range` over the half-open range `0..n`, which
/// returns a sample inside the range and is non-empty because `n > 0`.
/// Nothing beyond membership is assumed of the sample.
#[verifier::external_body]
pub(crate) fn random_below(n: u64) -> (r: u64)
    requires
        0 < n,
    ensures
        r < n,
{
    rand::thread_rng().gen_range(0..n)
}

} // verus!
