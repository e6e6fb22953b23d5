use vstd::prelude::*;

verus! {

/// `usize_conversions::UsizeFrom::from` from `u64` to `usize`, which exists
/// only where `usize` has 64 bits: the same number.
#[verifier::external_body]
pub(crate) fn usize_from_u64(value: u64) -> (r: usize)
    ensures
        r == value,
{
    usize_conversions::UsizeFrom::from(value)
}

/// `usize_conversions::UsizeFrom::from` from `usize` to `u64`, which exists
/// only where `usize` has 64 bits: the same number.
#[verifier::external_body]
pub(crate) fn u64_from_usize(value: usize) -> (r: u64)
    ensures
        r == value,
{
    usize_conversions::UsizeFrom::from(value)
}

} // verus!
