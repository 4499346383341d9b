//! The single source of entropy for the stochastic samplers.
//!
//! All randomness enters the library through `random_fraction`, a uniform
//! fixed-point value in `[0, 1)`.  Its callers state only what holds of
//! every possible draw.

use vstd::prelude::*;

verus! {

/// Relies on `rand::random::<u16>`: a draw over the full sixteen-bit range,
/// which is exactly one fixed-point unit interval.  Only the range of the
/// result is assumed.
#[verifier::external_body]
pub(crate) fn random_fraction() -> (r: i64)
    ensures
        0 <= r < crate::fixed::SCALE,
{
    rand::random::<u16>() as i64
}

} // verus!
