use monte_carlo::algorithms::distributions::ProbabilityDistribution;
use monte_carlo::algorithms::mc_estimator::{
    importance_weights, reweighted_ratio, MonteCarloEstimator,
};
use monte_carlo::algorithms::stochastic_matrix::StochasticMatrix;
use monte_carlo::errors::SimulationError;
use monte_carlo::rng::RngSource;

#[test]
fn test_monte_carlo_estimator() {
    let matrix = StochasticMatrix::new(vec![vec![5, 5], vec![3, 7]], 10).unwrap();
    let estimator = MonteCarloEstimator::new(matrix);
    let initial = ProbabilityDistribution::new(vec![1, 0], 1).unwrap();
    let mut rng = RngSource::from_seed(1234);

    let result = estimator.estimate(&initial, 10, 100_000, &mut rng).unwrap();

    // Should approximate [0.375, 0.625] - exact stationary distribution
    let x0 = result.weights[0] as f64 / result.denom as f64;
    let x1 = result.weights[1] as f64 / result.denom as f64;
    assert!((x0 - 0.375).abs() < 0.01);
    assert!((x1 - 0.625).abs() < 0.01);
}

#[test]
fn test_weighted_estimator() {
    // A simple 3-state system: [[0.8, 0.1, 0.1], [0.2, 0.7, 0.1], [0.1, 0.2, 0.7]].
    let matrix = vec![vec![8, 1, 1], vec![2, 7, 1], vec![1, 2, 7]];
    let transition_matrix = StochasticMatrix { matrix, denom: 10 };

    // Assume the stationary distribution is known: [0.5, 0.3, 0.2].
    let pi = vec![5, 3, 2];
    // An initial distribution that is uniform over the 3 states.
    let initial = ProbabilityDistribution::new(vec![1, 1, 1], 3).unwrap();

    let estimator = MonteCarloEstimator::new(transition_matrix);
    // Our observable f(i) = i (just the state index).
    let f = vec![0, 1, 2];
    let mut rng = RngSource::from_seed(42);

    let estimate = estimator
        .estimate_weighted(&initial, 10, 10_000, &f, &pi, &mut rng)
        .unwrap();
    let value = estimate.num as f64 / estimate.den as f64;
    println!("Weighted estimator value: {}", value);

    assert!(value >= 0.0 && value <= 2.0);
}

#[test]
fn test_energy_estimator() {
    let matrix = vec![vec![8, 1, 1], vec![2, 7, 1], vec![1, 2, 7]];
    let transition_matrix = StochasticMatrix { matrix, denom: 10 };

    let pi = vec![5, 3, 2];
    let initial = ProbabilityDistribution::new(vec![1, 1, 1], 3).unwrap();

    let estimator = MonteCarloEstimator::new(transition_matrix);

    // Hamiltonian: H(i) = i, at inverse temperature beta = 1. The Boltzmann
    // factors exp(0), exp(-1), exp(-2), scaled by a billion and rounded.
    let h = vec![0, 1, 2];
    let boltzmann = vec![1_000_000_000, 367_879_441, 135_335_283];
    let mut rng = RngSource::from_seed(42);

    let energy_estimate = estimator
        .estimate_energy(&initial, 10, 10_000, &h, &boltzmann, &pi, &mut rng)
        .unwrap();
    let value = energy_estimate.num as f64 / energy_estimate.den as f64;
    println!("Estimated Energy: {}", value);

    assert!(value >= 0.0 && value <= 2.0);
}

#[test]
fn test_energy_estimator_beta_zero_matches_weighted() {
    // At inverse temperature zero every Boltzmann factor is the same
    // constant, so the canonical estimator must coincide with the plain
    // importance-weighted one. Seeding both runs identically makes the
    // rollouts identical, and the two exact ratios must then be equal.
    let rows = vec![vec![8, 1, 1], vec![2, 7, 1], vec![1, 2, 7]];
    let transition_matrix = StochasticMatrix::new(rows, 10).unwrap();
    let pi = vec![5, 3, 2];
    let initial = ProbabilityDistribution::new(vec![1, 1, 1], 3).unwrap();
    let estimator = MonteCarloEstimator::new(transition_matrix);
    let f = vec![0, 1, 2];
    let flat = vec![1, 1, 1];

    let mut rng_a = RngSource::from_seed(77);
    let weighted = estimator
        .estimate_weighted(&initial, 10, 5_000, &f, &pi, &mut rng_a)
        .unwrap();
    let mut rng_b = RngSource::from_seed(77);
    let energy = estimator
        .estimate_energy(&initial, 10, 5_000, &f, &flat, &pi, &mut rng_b)
        .unwrap();

    // Equal as exact rationals: cross products agree.
    assert_eq!(weighted.num * energy.den, energy.num * weighted.den);
}

#[test]
fn test_reweighted_ratio_exact() {
    // Tallies 30, 50, 20 over pi = [0.5, 0.3, 0.2] (weights 5, 3, 2 over 10)
    // and observable f(i) = i. The importance weights are the products that
    // leave one entry out: [6, 10, 15].
    let w = importance_weights(&vec![5, 3, 2]);
    assert_eq!(w, vec![6, 10, 15]);
    let counts = vec![30, 50, 20];
    let f = vec![0, 1, 2];
    let ratio = reweighted_ratio(&counts, &f, &w);
    // Numerator: 30*0*6 + 50*1*10 + 20*2*15 = 1100.
    // Denominator: 30*6 + 50*10 + 20*15 = 980.
    assert_eq!(ratio.num, 1100);
    assert_eq!(ratio.den, 980);
}

#[test]
fn test_constant_factor_cancels_in_ratio() {
    // Scaling every state weight by 7 leaves the self-normalized ratio
    // unchanged, as rationals.
    let counts = vec![30, 50, 20];
    let f = vec![0, 1, 2];
    let w = vec![6, 10, 15];
    let scaled = vec![42, 70, 105];
    let plain = reweighted_ratio(&counts, &f, &w);
    let boosted = reweighted_ratio(&counts, &f, &scaled);
    assert_eq!(plain.num * boosted.den, boosted.num * plain.den);
}

#[test]
fn test_estimate_dimension_mismatch() {
    let matrix = StochasticMatrix::new(vec![vec![5, 5], vec![3, 7]], 10).unwrap();
    let estimator = MonteCarloEstimator::new(matrix);
    let short = ProbabilityDistribution::new(vec![1], 1).unwrap();
    let mut rng = RngSource::from_seed(6);
    let result = estimator.estimate(&short, 5, 10, &mut rng);
    assert_eq!(result.unwrap_err(), SimulationError::DimensionMismatch);
}

#[test]
fn test_estimate_counts_sum_to_simulations() {
    let matrix = StochasticMatrix::new(vec![vec![5, 5], vec![3, 7]], 10).unwrap();
    let estimator = MonteCarloEstimator::new(matrix);
    let initial = ProbabilityDistribution::new(vec![1, 0], 1).unwrap();
    let mut rng = RngSource::from_seed(8);
    let result = estimator.estimate(&initial, 3, 1_000, &mut rng).unwrap();
    assert_eq!(result.denom, 1_000);
    assert_eq!(result.weights.iter().sum::<u64>(), 1_000);
}
