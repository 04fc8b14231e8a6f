//! The one place where the crate rolls dice.

use rand::Rng;
use vstd::prelude::*;

verus! {

/// Draws a number by a call of rand's `Rng::gen_range` on the generator that
/// `rand::thread_rng` returns. The contract claims what rand documents: the
/// number is at least `low` and less than `high`. It leaves out the inputs on
/// which `gen_range` panics, those with `low >= high`.
#[verifier::external_body]
pub(crate) fn random_in_range(low: usize, high: usize) -> (drawn: usize)
    requires
        low < high,
    ensures
        low <= drawn < high,
{
    rand::thread_rng().gen_range(low, high)
}

} // verus!
