//! Random choices, taken from the crate `rand`.
use vstd::prelude::*;

verus! {

/// Calls `rand::random_range` on the range from 0 up to, and not including, `len`. It panics on an
/// empty range. Nothing is said of which number of the range comes back.
#[verifier::external_body]
pub(crate) fn random_index(len: usize) -> (index: usize)
    requires
        len > 0,
    ensures
        index < len,
{
    rand::random_range(0..len)
}

/// Calls `rand::random` for a `bool`. Nothing is said of which of the two comes back.
#[verifier::external_body]
pub(crate) fn random_bool() -> bool {
    rand::random::<bool>()
}

/// Calls `rand::random` for a `u64`. Nothing is said of which number comes back.
#[verifier::external_body]
pub(crate) fn random_u64() -> u64 {
    rand::random::<u64>()
}

} // verus!
