//! The random source and the draws the simulation makes from it.
//!
//! Nothing here is proved: each item states what the `rand` crates document
//! of the call it makes. What a draw gives is left open, only its range is
//! stated.

use crate::units::total;
use rand::seq::IteratorRandom;
use rand::Rng;
use rand_chacha::ChaCha12Rng;
use rand_distr::weighted::{Error, WeightedIndex};
use rand_distr::Distribution;
use vstd::prelude::*;

verus! {

/// `ChaCha12Rng`, the random source: nothing is known of what it holds.
#[verifier::external_type_specification]
#[verifier::external_body]
pub struct ExChaCha12Rng(ChaCha12Rng);

/// A `WeightedIndex` over integer weights: it draws an index with a chance
/// proportional to the index's weight.
#[verifier::external_body]
pub struct WeightedSampler {
    inner: WeightedIndex<u64>,
}

/// The weights a sampler was built from.
pub uninterp spec fn index_weights(dist: WeightedSampler) -> Seq<u64>;

/// Why no sampler can be built from some weights.
#[derive(Clone, Copy, Debug, PartialEq, Eq, Structural)]
pub enum WeightError {
    /// There are no weights.
    Empty,
    /// A weight is not a valid number.
    InvalidWeight,
    /// Every weight is zero.
    AllZero,
    /// The sum of the weights exceeds the largest integer.
    Overflow,
}

/// What `WeightedIndex::new` decides on given weights.
pub open spec fn weights_verdict(weights: Seq<u64>) -> Option<WeightError> {
    if weights.len() == 0 {
        Some(WeightError::Empty)
    } else if total(weights) > u64::MAX {
        Some(WeightError::Overflow)
    } else if total(weights) == 0 {
        Some(WeightError::AllZero)
    } else {
        None
    }
}

/// `WeightedIndex::new` on unsigned weights: it fails on no weights, on a sum
/// that overflows and on a sum of zero, and otherwise keeps the weights.
#[verifier::external_body]
pub(crate) fn build_sampler(weights: &Vec<u64>) -> (r: Result<WeightedSampler, WeightError>)
    ensures
        match r {
            Ok(dist) => weights_verdict(weights@) is None && index_weights(dist) == weights@,
            Err(e) => weights_verdict(weights@) == Some(e),
        },
{
    match WeightedIndex::new(weights) {
        Ok(inner) => Ok(WeightedSampler { inner }),
        Err(Error::InvalidInput) => Err(WeightError::Empty),
        Err(Error::InsufficientNonZero) => Err(WeightError::AllZero),
        Err(Error::Overflow) => Err(WeightError::Overflow),
        Err(_) => Err(WeightError::InvalidWeight),
    }
}

/// `WeightedIndex::total_weight`: the sum of the weights.
#[verifier::external_body]
pub(crate) fn total_weight(dist: &WeightedSampler) -> (r: u64)
    ensures
        r == total(index_weights(*dist)),
{
    dist.inner.total_weight()
}

/// `Distribution::sample` of `WeightedIndex`: the index drawn lies within the
/// weights, and its weight is not zero.
#[verifier::external_body]
pub(crate) fn sample_index(dist: &WeightedSampler, rng: &mut ChaCha12Rng) -> (r: usize)
    ensures
        r < index_weights(*dist).len(),
        index_weights(*dist)[r as int] > 0,
{
    dist.inner.sample(rng)
}

/// `Rng::random_range` over `0..n`: the draw is below `n`.
#[verifier::external_body]
pub(crate) fn random_below(rng: &mut ChaCha12Rng, n: usize) -> (r: usize)
    requires
        n > 0,
    ensures
        r < n,
{
    rng.random_range(0..n)
}

/// `Rng::random_ratio`: true with chance `numerator / denominator`; never
/// true when the numerator is zero, always when it equals the denominator.
#[verifier::external_body]
pub(crate) fn random_ratio(rng: &mut ChaCha12Rng, numerator: u32, denominator: u32) -> (r: bool)
    requires
        denominator > 0,
        numerator <= denominator,
    ensures
        numerator == 0 ==> !r,
        numerator == denominator ==> r,
{
    rng.random_ratio(numerator, denominator)
}

/// `IteratorRandom::choose_multiple` on `0..n`: `amount` distinct indices
/// below `n`, in no particular order.
#[verifier::external_body]
pub(crate) fn choose_indices(rng: &mut ChaCha12Rng, n: usize, amount: usize) -> (r: Vec<usize>)
    requires
        amount <= n,
    ensures
        r@.len() == amount,
        forall|i: int| 0 <= i < r@.len() ==> r@[i] < n,
        r@.no_duplicates(),
{
    (0..n).choose_multiple(rng, amount)
}

} // verus!
