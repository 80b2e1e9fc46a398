//! Draws from the thread-local random number generator.
use rand::Rng;
use vstd::prelude::*;

verus! {

/// Relies on rand's `Rng::gen_range(low, high)` on `thread_rng()`: a value in
/// `[low, high)`; it panics when `low >= high`, which `requires` leaves out.
#[verifier::external_body]
pub(crate) fn random_below(bound: u64) -> (r: u64)
    requires
        bound > 0,
    ensures
        r < bound,
{
    rand::thread_rng().gen_range(0, bound)
}

} // verus!
