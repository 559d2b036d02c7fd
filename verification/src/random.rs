//! The boundary to the `rand` crate.
//!
//! Every randomized operation of the library takes an explicit, seedable
//! random source. The two functions below are the only places where that
//! source is consulted; their contracts are assumed, not proved, and state
//! only what holds of every possible draw.

use rand::rngs::StdRng;
use rand::seq::SliceRandom;
use rand::Rng;
use vstd::prelude::*;

verus! {

/// `rand::rngs::StdRng`, the seedable generator handed to every randomized
/// operation. Its state is opaque to the verifier.
#[verifier::external_type_specification]
#[verifier::external_body]
pub struct ExStdRng(StdRng);

/// Calls `rand::Rng::gen_range` on the inclusive range `low..=high`.
///
/// Assumed: the value drawn lies within the range. The call panics on an
/// empty range, which the precondition excludes. Nothing is assumed about
/// which value of the range comes back, nor about the generator afterwards.
#[verifier::external_body]
pub(crate) fn random_in_range(rng: &mut StdRng, low: usize, high: usize) -> (value: usize)
    requires
        low <= high,
    ensures
        low <= value <= high,
{
    rng.gen_range(low..=high)
}

/// Calls `rand::seq::SliceRandom::shuffle` on the values of one line.
///
/// Assumed: the call only swaps elements, so the line afterwards holds the
/// same values with the same multiplicities as before, in some order.
#[verifier::external_body]
pub(crate) fn shuffle_values(values: &mut Vec<i32>, rng: &mut StdRng)
    ensures
        final(values)@.to_multiset() == old(values)@.to_multiset(),
{
    values.shuffle(rng);
}

} // verus!
