use vstd::prelude::*;

use crate::arith::{ints_of, seq_sum};

verus! {

#[verifier::external_type_specification]
#[verifier::external_body]
pub struct ExStdRng(rand::rngs::StdRng);

/// An explicit source of randomness, passed by every sampling operation so
/// that no hidden global generator state exists and tests can seed it
/// deterministically.
pub struct RngSource {
    inner: rand::rngs::StdRng,
}

impl RngSource {
    /// Relies on rand's `SeedableRng::seed_from_u64`: builds a deterministic
    /// generator from the given seed.
    #[verifier::external_body]
    pub fn from_seed(seed: u64) -> Self {
        RngSource { inner: <rand::rngs::StdRng as rand::SeedableRng>::seed_from_u64(seed) }
    }
}

/// Relies on rand's `WeightedIndex` over `u64` weights: `new` fails exactly
/// when the weight list is empty, the total overflows, or the total is zero,
/// and `sample` returns an index drawn with probability proportional to its
/// weight, never one whose weight is zero.
#[verifier::external_body]
pub(crate) fn weighted_pick(rng: &mut RngSource, weights: &Vec<u64>) -> (r: Option<usize>)
    ensures
        r matches Some(i) ==> i < weights@.len() && weights@[i as int] > 0,
        r is Some <==> (weights@.len() >= 1 && 0 < seq_sum(ints_of(weights@)) <= u64::MAX as int),
{
    match rand::distr::weighted::WeightedIndex::new(weights) {
        Ok(d) => Some(rand::distr::Distribution::sample(&d, &mut rng.inner)),
        Err(_) => None,
    }
}

/// Relies on rand's `Rng::random` for `bool`: a fair coin flip.
#[verifier::external_body]
pub(crate) fn coin_flip(rng: &mut RngSource) -> bool {
    rand::Rng::random(&mut rng.inner)
}

} // verus!
