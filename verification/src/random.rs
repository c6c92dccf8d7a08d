//! Random draws.

use vstd::prelude::*;

verus! {

/// A random number below `bound`.
///
/// Trusted: the body is fastrand's `u128` on the range `..bound`, which
/// returns a number of that range and panics where the range is empty.
#[verifier::external_body]
pub(crate) fn random_below(bound: u128) -> (draw: u128)
    requires
        bound > 0,
    ensures
        draw < bound,
{
    fastrand::u128(..bound)
}

/// A random index below `len`.
///
/// Trusted: the body is fastrand's `usize` on the range `..len`, which
/// returns a number of that range and panics where the range is empty.
#[verifier::external_body]
pub(crate) fn random_index(len: usize) -> (index: usize)
    requires
        len > 0,
    ensures
        index < len,
{
    fastrand::usize(..len)
}

} // verus!
