//! The single source of randomness the simulation draws from.
//!
//! Every randomized decision (terrain weighting, resource rolls, neighbor
//! sampling, wander rolls) is expressed as a uniform draw below a bound, so
//! the rest of the library can be verified for every possible outcome.

use vstd::prelude::*;

verus! {

/// Relies on rand::random_range over `0..n`: returns a uniform draw from
/// that range, which is non-empty because `n >= 1`, so the call cannot
/// panic. Nothing further is assumed of which value comes back.
#[verifier::external_body]
pub(crate) fn rand_below(n: usize) -> (r: usize)
    requires
        n >= 1,
    ensures
        r < n,
{
    rand::random_range(0..n)
}

} // verus!
