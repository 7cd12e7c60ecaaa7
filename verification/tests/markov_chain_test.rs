use monte_carlo::algorithms::distributions::{Distribution, ProbabilityDistribution};
use monte_carlo::algorithms::markov_chain::MarkovChain;
use monte_carlo::algorithms::stochastic_matrix::StochasticMatrix;
use monte_carlo::errors::SimulationError;
use monte_carlo::rng::RngSource;

#[test]
fn test_markov_chain_degenerate_transition() {
    // A two-state chain whose transitions always land on the state labeled
    // 42, regardless of the current state: after one step the current state
    // is 42, and it stays 42 under any number of further steps.
    let matrix = StochasticMatrix::new(vec![vec![0, 1], vec![0, 1]], 1).unwrap();
    let initial = ProbabilityDistribution::new(vec![1, 0], 1).unwrap();
    let mut chain = MarkovChain::new(vec![0, 42], matrix, initial).unwrap();
    let mut rng = RngSource::from_seed(1);
    assert_eq!(*chain.get_current_state(), 0);
    chain.step(&mut rng).unwrap();
    assert_eq!(*chain.get_current_state(), 42);
    for _ in 0..10 {
        chain.step(&mut rng).unwrap();
        assert_eq!(*chain.get_current_state(), 42);
    }
}

struct FixedDistribution {
    new_state: i32,
}

impl Distribution<i32> for FixedDistribution {
    fn sample(&self, _current_state: &i32) -> i32 {
        self.new_state
    }
}

struct IncrementDistribution;

impl Distribution<i32> for IncrementDistribution {
    fn sample(&self, current_state: &i32) -> i32 {
        current_state + 1
    }
}

#[test]
fn test_transition_rule_variants() {
    // The transition-rule trait admits user-defined variants: a fixed
    // successor and an incrementing one.
    let fixed = FixedDistribution { new_state: 42 };
    assert_eq!(fixed.sample(&0), 42);
    assert_eq!(fixed.sample(&42), 42);

    let increment = IncrementDistribution;
    let mut state = 0;
    for _ in 0..5 {
        state = increment.sample(&state);
    }
    assert_eq!(state, 5);
}

#[test]
fn test_markov_chain_argmax_start() {
    // The initial index is the argmax of the initial distribution, taking the
    // first index on ties.
    let matrix = StochasticMatrix::new(vec![vec![5, 5], vec![3, 7]], 10).unwrap();
    let initial = ProbabilityDistribution::new(vec![1, 1], 2).unwrap();
    let chain = MarkovChain::new(vec!["a", "b"], matrix, initial).unwrap();
    assert_eq!(*chain.get_current_state(), "a");
}

#[test]
fn test_markov_chain_dimension_mismatch() {
    let matrix = StochasticMatrix::new(vec![vec![5, 5], vec![3, 7]], 10).unwrap();
    let initial = ProbabilityDistribution::new(vec![1, 0], 1).unwrap();
    let result = MarkovChain::new(vec!["only one label"], matrix, initial);
    assert_eq!(result.unwrap_err(), SimulationError::DimensionMismatch);
}

#[test]
fn test_markov_chain_sampling_overflow() {
    // A valid matrix whose row total overflows the sampler: the row sums to
    // 2^64, one above the tolerance-checked denominator 2^64 - 1, so stepping
    // fails with a sampling error and leaves the chain in place.
    let half = 1u64 << 63;
    let matrix = StochasticMatrix::new(vec![vec![half, half], vec![half, half]], u64::MAX)
        .unwrap();
    let initial = ProbabilityDistribution::new(vec![1, 0], 1).unwrap();
    let mut chain = MarkovChain::new(vec![0, 1], matrix, initial).unwrap();
    let mut rng = RngSource::from_seed(2);
    assert_eq!(chain.step(&mut rng).unwrap_err(), SimulationError::SamplingError);
    assert_eq!(*chain.get_current_state(), 0);
}
