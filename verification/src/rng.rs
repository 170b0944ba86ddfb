use vstd::prelude::*;

verus! {

/// Relies on rand::random_range sampling `low..high` at type `u32`: the
/// result lies in that half-open range. The call panics on an empty
/// range, which `requires` rules out. Nothing further is promised of a
/// random sample.
#[verifier::external_body]
pub(crate) fn random_in_range_u32(low: u32, high: u32) -> (r: u32)
    requires
        low < high,
    ensures
        low <= r < high,
{
    rand::random_range(low..high)
}

/// Relies on rand::random_range sampling `low..high` at type `usize`:
/// the result lies in that half-open range. The call panics on an empty
/// range, which `requires` rules out. Nothing further is promised of a
/// random sample.
#[verifier::external_body]
pub(crate) fn random_in_range_usize(low: usize, high: usize) -> (r: usize)
    requires
        low < high,
    ensures
        low <= r < high,
{
    rand::random_range(low..high)
}

} // verus!
