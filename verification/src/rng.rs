//! The random draws the game makes, through the `rand` crate.
use vstd::prelude::*;
use rand::Rng;
use rand::distributions::{IndependentSample, Weighted, WeightedChoice};

verus! {

/// The sum of the weights.
pub open spec fn total_weight(weights: Seq<u32>) -> int
    decreases weights.len(),
{
    if weights.len() == 0 { 0 } else { total_weight(weights.drop_last()) + weights.last() }
}

/// Calls `rand::thread_rng().gen_range(low, high)` (rand 0.4), which draws a
/// number from `low` (included) to `high` (excluded) and panics unless
/// `low < high`. The number drawn is left to chance; only its range is
/// stated.
#[verifier::external_body]
pub fn random_range(low: i32, high: i32) -> (r: i32)
    requires
        low < high,
    ensures
        low <= r < high,
{
    rand::thread_rng().gen_range(low, high)
}

/// Calls `rand::random::<bool>()` (rand 0.4): a coin flip. Either value may
/// come back.
#[verifier::external_body]
pub fn random_bool() -> bool {
    rand::random::<bool>()
}

/// Draws an index with `WeightedChoice::new(..).ind_sample(&mut
/// rand::thread_rng())` (rand 0.4) over items that carry their own index,
/// each with its weight. rand panics when there are no items, when the total
/// weight is 0, or when it does not fit in a `u32`. The draw picks the first
/// item whose running total exceeds a number drawn below the total, so the
/// item drawn has a positive weight; which one it is is left to chance.
#[verifier::external_body]
pub fn weighted_index(weights: &Vec<u32>) -> (i: usize)
    requires
        weights@.len() > 0,
        0 < total_weight(weights@) <= u32::MAX,
    ensures
        i < weights@.len(),
        weights@[i as int] > 0,
{
    let mut items: Vec<Weighted<usize>> = Vec::new();
    for (index, weight) in weights.iter().enumerate() {
        items.push(Weighted { weight: *weight, item: index });
    }
    WeightedChoice::new(&mut items).ind_sample(&mut rand::thread_rng())
}

} // verus!
