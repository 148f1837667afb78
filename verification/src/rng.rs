//! Draws from the thread-local random number generator, behind trusted
//! wrappers: nothing is promised of an outcome beyond its range.

use vstd::prelude::*;

verus! {

/// Relies on rand::random::<bool>: a fair coin; nothing is promised of
/// the outcome.
#[verifier::external_body]
pub(crate) fn random_coin() -> bool {
    rand::random::<bool>()
}

/// Relies on rand::random_ratio: true with probability
/// `numerator / denominator`; guaranteed true when the ratio is one and
/// false when the numerator is zero, and a panic otherwise only on the
/// arguments the precondition excludes.
#[verifier::external_body]
pub(crate) fn random_ratio(numerator: u32, denominator: u32) -> (r: bool)
    requires
        denominator > 0,
        numerator <= denominator,
    ensures
        numerator == 0 ==> r == false,
        numerator == denominator ==> r == true,
{
    rand::random_ratio(numerator, denominator)
}

/// Relies on rand::random_range: a uniform draw from `lo .. hi`, which
/// panics only on an empty range.
#[verifier::external_body]
pub(crate) fn random_below(lo: usize, hi: usize) -> (r: usize)
    requires
        lo < hi,
    ensures
        lo <= r < hi,
{
    rand::random_range(lo..hi)
}

} // verus!
