use monte_carlo::algorithms::distributions::{ProbabilityDistribution, RandomVariable};
use monte_carlo::errors::SimulationError;
use monte_carlo::rng::RngSource;

#[test]
fn test_probability_distribution() {
    // The weights 1/2 and 1/2.
    let distribution = ProbabilityDistribution::new(vec![1, 1], 2).unwrap();
    assert_eq!(distribution.weights.len(), 2);
}

#[test]
fn test_distribution_sum_below_tolerance_fails() {
    // The weights sum to 0.9: construction must fail.
    let result = ProbabilityDistribution::new(vec![9], 10);
    assert_eq!(result.unwrap_err(), SimulationError::InvalidDistribution);
}

#[test]
fn test_distribution_within_tolerance() {
    // Three thirds rounded down: off by one part in a billion, accepted.
    let weights = vec![333_333_333, 333_333_333, 333_333_333];
    let distribution = ProbabilityDistribution::new(weights, 1_000_000_000).unwrap();
    assert_eq!(distribution.denom, 1_000_000_000);
    // One more weight short and the deviation exceeds the tolerance.
    let too_low = vec![333_333_333, 333_333_333, 333_333_332];
    assert!(ProbabilityDistribution::new(too_low, 1_000_000_000).is_err());
}

#[test]
fn test_zero_denominator_fails() {
    assert!(ProbabilityDistribution::new(vec![0], 0).is_err());
}

#[test]
fn test_empty_weights_fail() {
    // No weights carry no mass: the sum check cannot pass.
    let result = ProbabilityDistribution::new(vec![], 1);
    assert_eq!(result.unwrap_err(), SimulationError::InvalidDistribution);
}

#[test]
fn test_sample_never_picks_zero_weight() {
    // A single positive weight is sampled deterministically.
    let distribution = ProbabilityDistribution::new(vec![0, 1], 1).unwrap();
    let mut rng = RngSource::from_seed(5);
    for _ in 0..100 {
        assert_eq!(distribution.sample(&mut rng).unwrap(), 1);
    }
}

#[test]
fn test_random_variable_sample() {
    let coin = RandomVariable {
        state_space: vec!["heads", "tails"],
        distribution: ProbabilityDistribution::new(vec![1, 1], 2).unwrap(),
    };
    let mut rng = RngSource::from_seed(9);
    let outcome = coin.sample(&mut rng).unwrap();
    assert!(outcome == "heads" || outcome == "tails");
}
