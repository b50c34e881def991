//! Draws from the thread's random generator.

use vstd::prelude::*;
use rand::Rng;

verus! {

/// Relies on rand's `thread_rng().gen_range(0..n)`: a number below `n`,
/// drawn from the thread's generator. `gen_range` panics on an empty range,
/// which `n > 0` rules out.
#[verifier::external_body]
pub(crate) fn random_below(n: u32) -> (r: u32)
    requires
        n > 0,
    ensures
        r < n,
{
    rand::thread_rng().gen_range(0..n)
}

} // verus!
