use vstd::prelude::*;

use crate::algorithms::distributions::ProbabilityDistribution;
use crate::algorithms::stochastic_matrix::StochasticMatrix;
use crate::arith::{ints_of, lemma_within_tolerance_positive, seq_sum};
use crate::errors::SimulationError;
use crate::rng::RngSource;

verus! {

/// A stateful Markov chain: a labeled state space, a row-stochastic
/// transition matrix over its indices, and the index of the current state —
/// the only mutable field.
#[derive(Debug)]
pub struct MarkovChain<T> {
    pub states: Vec<T>,
    pub transition_matrix: StochasticMatrix,
    pub current_state_index: usize,
}

impl<T> MarkovChain<T> {
    /// The chain invariant: a well-formed matrix, one label per matrix index,
    /// and a current index inside the state space.
    pub open spec fn wf(&self) -> bool {
        &&& self.transition_matrix.wf()
        &&& self.states@.len() == self.transition_matrix.spec_dim()
        &&& 0 <= (self.current_state_index as int) < self.transition_matrix.spec_dim()
    }

    /// Builds a chain. The label sequence and the initial distribution must
    /// both range over the matrix dimension, or construction fails with
    /// `DimensionMismatch`. The initial index is not sampled: it is the
    /// argmax of the initial distribution, a deterministic commitment to the
    /// most likely start state, taking the first index on ties.
    pub fn new(
        states: Vec<T>,
        transition_matrix: StochasticMatrix,
        initial_distribution: ProbabilityDistribution,
    ) -> (r: Result<Self, SimulationError>)
        requires
            transition_matrix.wf(),
            initial_distribution.wf(),
        ensures
            r is Ok <==> (states@.len() == transition_matrix.spec_dim()
                && initial_distribution.spec_len() == transition_matrix.spec_dim()),
            r is Err ==> r == Err::<Self, SimulationError>(SimulationError::DimensionMismatch),
            r matches Ok(c) ==> {
                &&& c.wf()
                &&& c.states@ == states@
                &&& c.transition_matrix == transition_matrix
                &&& forall|k: int|
                    0 <= k < initial_distribution.spec_len()
                        ==> #[trigger] initial_distribution.weights@[k]
                        <= initial_distribution.weights@[c.current_state_index as int]
                &&& forall|k: int|
                    0 <= k < c.current_state_index
                        ==> #[trigger] initial_distribution.weights@[k]
                        < initial_distribution.weights@[c.current_state_index as int]
            },
    {
        let n = transition_matrix.dim();
        if states.len() != n || initial_distribution.len() != n {
            return Err(SimulationError::DimensionMismatch);
        }
        proof {
            lemma_within_tolerance_positive(
                seq_sum(ints_of(initial_distribution.weights@)),
                initial_distribution.denom as int,
            );
        }
        let w = &initial_distribution.weights;
        let mut best: usize = 0;
        let mut i: usize = 1;
        while i < n
            invariant
                n == w@.len(),
                1 <= i <= n,
                0 <= best < i,
                forall|k: int| 0 <= k < i ==> #[trigger] w@[k] <= w@[best as int],
                forall|k: int| 0 <= k < best ==> #[trigger] w@[k] < w@[best as int],
            decreases n - i,
        {
            if w[i] > w[best] {
                best = i;
            }
            i = i + 1;
        }
        Ok(Self { states, transition_matrix, current_state_index: best })
    }

    /// Advances the chain one step: builds a transient distribution from the
    /// current row (re-validating it, as the raw slice bypasses the top-level
    /// validator), samples a successor index, and replaces the current index.
    /// A sampling failure surfaces as `SamplingError` and leaves the chain
    /// where it was; for a well-formed matrix it can only happen when the row
    /// total overflows the sampler.
    pub fn step(&mut self, rng: &mut RngSource) -> (r: Result<(), SimulationError>)
        requires
            old(self).wf(),
        ensures
            final(self).wf(),
            final(self).states@ == old(self).states@,
            final(self).transition_matrix == old(self).transition_matrix,
            r is Ok <==> seq_sum(
                ints_of(
                    (old(self).transition_matrix.matrix@[old(self).current_state_index as int])@,
                ),
            ) <= u64::MAX as int,
            r is Ok ==> old(self).transition_matrix.rows()[old(
                self,
            ).current_state_index as int][final(self).current_state_index as int] > 0,
            r is Err ==> r == Err::<(), SimulationError>(SimulationError::SamplingError)
                && final(self).current_state_index == old(self).current_state_index,
    {
        let cur = self.current_state_index;
        let row_dist = self.transition_matrix.row_distribution(cur);
        match row_dist.sample(rng) {
            Ok(next) => {
                self.current_state_index = next;
                Ok(())
            },
            Err(_) => Err(SimulationError::SamplingError),
        }
    }

    /// The label of the current state; never fails.
    pub fn get_current_state(&self) -> (r: &T)
        requires
            self.wf(),
        ensures
            *r == self.states@[self.current_state_index as int],
    {
        &self.states[self.current_state_index]
    }
}

} // verus!
