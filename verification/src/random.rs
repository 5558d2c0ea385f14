//! The random source used to seed grids.

use rand::Rng;
use vstd::prelude::*;

verus! {

/// Calls `rand::rng()` and draws one `bool` from it with `Rng::random`.
/// Nothing is claimed of the outcome: either value may come back.
#[verifier::external_body]
pub(crate) fn random_coin() -> bool {
    rand::rng().random::<bool>()
}

/// Calls `rand::rng()` and draws one number from the half-open range
/// `0..bound` with `Rng::random_range`. The range must not be empty, since
/// `random_range` panics on an empty range; the number drawn lies inside it.
#[verifier::external_body]
pub(crate) fn random_below(bound: u32) -> (r: u32)
    requires
        bound > 0,
    ensures
        r < bound,
{
    rand::rng().random_range(0..bound)
}

} // verus!
