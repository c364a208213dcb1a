//! The calls into the random number generator. Verus does not read the
//! bodies of these functions: it takes their contracts on trust.

use rand::seq::SliceRandom;
use rand::Rng;
use vstd::prelude::*;

verus! {

/// Draws a number below `bound` with `rand::Rng::random_range` on the range
/// `0..bound`. That method returns a value of the range it is given and
/// panics on an empty one, so `bound` must be positive.
#[verifier::external_body]
pub(crate) fn random_below(bound: u32) -> (drawn: u32)
    requires
        bound > 0,
    ensures
        drawn < bound,
{
    rand::rng().random_range(0..bound)
}

/// Draws a truth value with `rand::Rng::random_ratio`, which is true with a
/// chance of `numerator` in `denominator`. Its documentation guarantees
/// `false` for a numerator of zero and `true` where numerator and
/// denominator are equal; it panics on a zero denominator and on a numerator
/// above the denominator.
#[verifier::external_body]
pub(crate) fn random_ratio(numerator: u32, denominator: u32) -> (drawn: bool)
    requires
        denominator > 0,
        numerator <= denominator,
    ensures
        numerator == 0 ==> !drawn,
        numerator == denominator ==> drawn,
{
    rand::rng().random_ratio(numerator, denominator)
}

/// Reorders `items` with `rand::seq::SliceRandom::shuffle`, which swaps
/// elements of the slice in place: the same items are there afterwards, each
/// as often as before, in an order that nothing is known of.
#[verifier::external_body]
pub(crate) fn shuffle<T>(items: &mut Vec<T>)
    ensures
        final(items)@.to_multiset() == old(items)@.to_multiset(),
{
    items.shuffle(&mut rand::rng());
}

} // verus!
