//! Draws from the thread-local random number generator.
use vstd::prelude::*;

verus! {

/// Relies on `rand::random::<u8>`: any byte.
#[verifier::external_body]
pub(crate) fn random_byte() -> u8 {
    rand::random::<u8>()
}

/// Relies on `rand::random_range`: a value of the half-open range `0..n`,
/// which panics on an empty range.
#[verifier::external_body]
pub(crate) fn random_below(n: u8) -> (r: u8)
    requires
        n > 0,
    ensures
        r < n,
{
    rand::random_range(0..n)
}

} // verus!
