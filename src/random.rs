use rand::Rng;
use vstd::prelude::*;

verus! {

/// Relies on `rand::Rng::random_range` over `0..n`, drawn from `rand::rng()`:
/// a value of the range, which panics only when the range is empty.
#[verifier::external_body]
pub(crate) fn random_below(n: usize) -> (r: usize)
    requires
        n > 0,
    ensures
        r < n,
{
    rand::rng().random_range(0..n)
}

/// Relies on `rand::Rng::random_ratio`, drawn from `rand::rng()`: true with
/// chance `numerator / denominator`, always true when the two are equal and
/// never when `numerator` is 0; it panics only when `denominator` is 0 or
/// below `numerator`.
#[verifier::external_body]
pub(crate) fn random_ratio(numerator: u32, denominator: u32) -> (r: bool)
    requires
        0 < denominator,
        numerator <= denominator,
    ensures
        numerator == denominator ==> r,
        numerator == 0 ==> !r,
{
    rand::rng().random_ratio(numerator, denominator)
}

} // verus!
