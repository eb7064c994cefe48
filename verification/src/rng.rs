//! Trusted boundary to the `rand` crate.
//!
//! The simulation draws every random quantity through `rand_below`, so that
//! the rest of the crate is verified for every value the generator can
//! return. Callers construct and seed the `StdRng` themselves.

use vstd::prelude::*;

verus! {

#[verifier::external_type_specification]
#[verifier::external_body]
pub struct ExStdRng(rand::rngs::StdRng);

/// Relies on `rand::Rng::random_range` over an `i64` half-open range: the
/// sample lies in `[lo, hi)`. The call panics on an empty range, so one is
/// excluded here.
#[verifier::external_body]
pub(crate) fn rand_in_range(rng: &mut rand::rngs::StdRng, lo: i64, hi: i64) -> (r: i64)
    requires
        lo < hi,
    ensures
        lo <= r < hi,
{
    rand::Rng::random_range(rng, lo..hi)
}

} // verus!
