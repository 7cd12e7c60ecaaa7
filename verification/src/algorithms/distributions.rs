use vstd::prelude::*;

use crate::arith::{
    ints_of, lemma_within_tolerance_positive, seq_sum, sum_within_tolerance, within_tolerance,
};
use crate::errors::SimulationError;
use crate::rng::{weighted_pick, RngSource};

verus! {

/// A transition rule over an arbitrary state type: one operation that maps the
/// current state to a successor state. Callers implement it for their own
/// variants (a fixed successor, an incrementing one, and so on).
pub trait Distribution<T> {
    fn sample(&self, current_state: &T) -> T;
}

/// A validated finite discrete probability mass function.
///
/// The probability of state `i` is the exact rational `weights[i] / denom`.
/// Validity means that the weights sum to the denominator within one part in
/// a billion; weights are unsigned, so non-negativity holds by construction.
#[derive(Debug)]
pub struct ProbabilityDistribution {
    pub weights: Vec<u64>,
    pub denom: u64,
}

impl ProbabilityDistribution {
    /// The construction-time invariant: a positive denominator, and a weight
    /// sum within the fixed tolerance of it.
    pub open spec fn wf(&self) -> bool {
        &&& self.denom >= 1
        &&& within_tolerance(seq_sum(ints_of(self.weights@)), self.denom as int)
    }

    pub open spec fn spec_len(&self) -> int {
        self.weights@.len() as int
    }

    /// Validates a weight vector: every probability `weights[i] / denom` must
    /// be non-negative (true by the unsigned type) and the total mass must be
    /// one within the fixed tolerance, or construction fails.
    pub fn new(weights: Vec<u64>, denom: u64) -> (r: Result<Self, SimulationError>)
        ensures
            r is Ok <==> (denom >= 1 && within_tolerance(
                seq_sum(ints_of(weights@)),
                denom as int,
            )),
            r matches Ok(d) ==> d.weights@ == weights@ && d.denom == denom && d.wf(),
            r is Err ==> r == Err::<Self, SimulationError>(SimulationError::InvalidDistribution),
    {
        if denom == 0 {
            return Err(SimulationError::InvalidDistribution);
        }
        if sum_within_tolerance(&weights, denom) {
            Ok(Self { weights, denom })
        } else {
            Err(SimulationError::InvalidDistribution)
        }
    }

    /// The number of states this distribution ranges over.
    pub fn len(&self) -> (r: usize)
        ensures
            r == self.spec_len(),
    {
        self.weights.len()
    }

    /// Draws a state index with probability proportional to its weight. An
    /// index with zero weight is never selected, so a distribution with a
    /// single positive weight samples that index deterministically. Fails
    /// with `SamplingError` exactly when no index can be drawn: an empty or
    /// all-zero weight vector (unreachable for a validated distribution), or
    /// a total weight too large for the sampler.
    pub fn sample(&self, rng: &mut RngSource) -> (r: Result<usize, SimulationError>)
        ensures
            r matches Ok(i) ==> i < self.spec_len() && self.weights@[i as int] > 0,
            r is Ok <==> (self.spec_len() >= 1 && 0 < seq_sum(ints_of(self.weights@))
                <= u64::MAX as int),
            r is Err ==> r == Err::<usize, SimulationError>(SimulationError::SamplingError),
            self.wf() && seq_sum(ints_of(self.weights@)) <= u64::MAX as int ==> r is Ok,
    {
        proof {
            if self.wf() {
                lemma_within_tolerance_positive(
                    seq_sum(ints_of(self.weights@)),
                    self.denom as int,
                );
            }
        }
        match weighted_pick(rng, &self.weights) {
            Some(i) => Ok(i),
            None => Err(SimulationError::SamplingError),
        }
    }
}

/// A random variable: a labeled state space together with a distribution over
/// its indices. Sampling draws an index and returns a copy of its label.
#[derive(Debug)]
pub struct RandomVariable<T> {
    pub state_space: Vec<T>,
    pub distribution: ProbabilityDistribution,
}

impl<T: Clone> RandomVariable<T> {
    /// Draws a label: samples an index from the distribution and clones the
    /// label at that position.
    pub fn sample(&self, rng: &mut RngSource) -> (r: Result<T, SimulationError>)
        requires
            self.state_space@.len() == self.distribution.spec_len(),
        ensures
            r is Ok <==> (self.distribution.spec_len() >= 1 && 0 < seq_sum(
                ints_of(self.distribution.weights@),
            ) <= u64::MAX as int),
            r is Err ==> r == Err::<T, SimulationError>(SimulationError::SamplingError),
    {
        let index = self.distribution.sample(rng)?;
        Ok(self.state_space[index].clone())
    }
}

} // verus!
