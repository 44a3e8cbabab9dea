//! The random draws that the stochastic strategies make, taken from a generator that the
//! caller supplies.

use rand::distributions::{Distribution, Uniform, WeightedError, WeightedIndex};
use rand::rngs::StdRng;
use vstd::prelude::*;

verus! {

/// rand's `StdRng`, the generator that the caller seeds and hands in; it is carried
/// through as it is.
#[verifier::external_type_specification]
#[verifier::external_body]
pub struct ExStdRng(StdRng);

/// rand's `WeightedError`, the reason for which no weighted draw can be made; it is
/// carried through as it is.
#[verifier::external_type_specification]
#[verifier::external_body]
pub struct ExWeightedError(WeightedError);

/// The sum of a list of weights.
pub open spec fn weights_sum(weights: Seq<u128>) -> nat
    decreases weights.len(),
{
    if weights.len() == 0 {
        0
    } else {
        weights_sum(weights.drop_last()) + weights.last() as nat
    }
}

/// A list of weights of which none exceeds `bound` sums to at most its length times `bound`.
pub proof fn lemma_weights_sum_bound(weights: Seq<u128>, bound: nat)
    requires
        forall|i: int| 0 <= i < weights.len() ==> weights[i] <= bound,
    ensures
        weights_sum(weights) <= weights.len() * bound,
    decreases weights.len(),
{
    if weights.len() > 0 {
        lemma_weights_sum_bound(weights.drop_last(), bound);
        assert(weights.drop_last().len() * bound + bound == weights.len() * bound)
            by (nonlinear_arith)
            requires
                weights.drop_last().len() + 1 == weights.len(),
        ;
    }
}

/// Draws a whole number from `low` to `high`, both included, with rand's
/// `Uniform::from(low..=high)` and `Distribution::sample`. `Uniform` panics on an empty
/// range, which the precondition leaves out; every draw lies within the range.
#[verifier::external_body]
pub(crate) fn sample_uniform_inclusive(rng: &mut StdRng, low: i64, high: i64) -> (r: i64)
    requires
        low <= high,
    ensures
        low <= r <= high,
{
    Uniform::from(low..=high).sample(rng)
}

/// Draws an index with rand's `WeightedIndex::new(weights)` and `Distribution::sample`.
/// `WeightedIndex` adds the weights up without a check, so the sum has to fit. It fails
/// exactly on an empty list and on a list of zeros; an index that it draws lies within the
/// list and at a weight above zero.
#[verifier::external_body]
pub(crate) fn sample_weighted_index(rng: &mut StdRng, weights: &Vec<u128>) -> (r: Result<
    usize,
    WeightedError,
>)
    requires
        weights_sum(weights@) <= u128::MAX,
    ensures
        match r {
            Ok(i) => i < weights.len() && weights[i as int] > 0,
            Err(_) => forall|i: int| 0 <= i < weights.len() ==> weights[i] == 0,
        },
{
    match WeightedIndex::new(weights) {
        Ok(distribution) => Ok(distribution.sample(rng)),
        Err(e) => Err(e),
    }
}

} // verus!
