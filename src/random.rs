//! Calls into the random-number and token-generation crates.
use vstd::prelude::*;
use rand::Rng;
use rand::SeedableRng;
use rand::rngs::StdRng;

verus! {

#[verifier::external_type_specification]
#[verifier::external_body]
pub struct ExStdRng(StdRng);

/// Relies on nanoid::format with the SAFE alphabet (64 ASCII characters):
/// the result holds exactly the requested number of characters.
#[verifier::external_body]
pub(crate) fn fresh_token() -> (r: String)
    ensures
        r@.len() == 21,
{
    nanoid::format(nanoid::rngs::default, &nanoid::alphabet::SAFE, 21)
}

/// Relies on StdRng::seed_from_u64: a generator whose stream depends on the seed alone.
#[verifier::external_body]
pub(crate) fn seeded_rng(seed: u64) -> (r: StdRng) {
    StdRng::seed_from_u64(seed)
}

/// Relies on Rng::gen_range over `0..n`: a value below `n` (the range is not empty).
#[verifier::external_body]
pub(crate) fn draw_below(rng: &mut StdRng, n: usize) -> (r: usize)
    requires
        n > 0,
    ensures
        r < n,
{
    rng.gen_range(0..n)
}

/// Relies on Rng::gen_range over `low..=high`: a value in the closed range.
#[verifier::external_body]
pub(crate) fn draw_between(rng: &mut StdRng, low: usize, high: usize) -> (r: usize)
    requires
        low <= high,
    ensures
        low <= r <= high,
{
    rng.gen_range(low..=high)
}

/// Relies on Rng::gen for `u32`: any value.
#[verifier::external_body]
pub(crate) fn draw_u32(rng: &mut StdRng) -> (r: u32) {
    rng.gen::<u32>()
}

/// Relies on rand::seq::index::sample_weighted: `amount` distinct indices below
/// `weights.len()`. Weights of type `u32` are never negative, so the call does not
/// fail; it panics only when `amount` exceeds the length.
#[verifier::external_body]
pub(crate) fn draw_weighted(rng: &mut StdRng, weights: &Vec<u32>, amount: usize) -> (r: Vec<usize>)
    requires
        amount <= weights.len(),
        weights.len() <= u32::MAX,
    ensures
        r@.len() == amount,
        forall|i: int| 0 <= i < r@.len() ==> r@[i] < weights.len(),
        forall|i: int, j: int| 0 <= i < j < r@.len() ==> r@[i] != r@[j],
{
    match rand::seq::index::sample_weighted(rng, weights.len(), |i| weights[i], amount) {
        Ok(indices) => indices.into_vec(),
        Err(_) => Vec::new(),
    }
}

/// Relies on Rng::gen_ratio on the thread-local generator: a Bernoulli draw with
/// probability `numerator / denominator`; it panics unless
/// `0 < denominator` and `numerator <= denominator`. A ratio of one always gives
/// true (`Bernoulli::from_ratio` takes the always-true path), a zero numerator never
/// does (a `u64` is never below a threshold of zero).
#[verifier::external_body]
pub(crate) fn chance(numerator: u32, denominator: u32) -> (r: bool)
    requires
        0 < denominator,
        numerator <= denominator,
    ensures
        numerator == denominator ==> r,
        numerator == 0 ==> !r,
{
    rand::thread_rng().gen_ratio(numerator, denominator)
}

} // verus!
