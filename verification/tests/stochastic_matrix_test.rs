use monte_carlo::algorithms::distributions::ProbabilityDistribution;
use monte_carlo::algorithms::stochastic_matrix::StochasticMatrix;
use monte_carlo::errors::SimulationError;

#[test]
fn test_stochastic_matrix() {
    // The matrix [[0.5, 0.5], [0.3, 0.7]] and the initial distribution [1, 0].
    let matrix = StochasticMatrix::new(vec![vec![5, 5], vec![3, 7]], 10).unwrap();
    let initial_dist = ProbabilityDistribution::new(vec![1, 0], 1).unwrap();
    println!("got here");
    let result = matrix.multiply_with_distribution(&initial_dist).unwrap();
    // Exactly [0.5, 0.5].
    assert_eq!(result.weights, vec![5, 5]);
    assert_eq!(result.denom, 10);
}

#[test]
fn test_non_square_matrix_fails() {
    // One row of two entries: not square.
    let result = StochasticMatrix::new(vec![vec![5, 5]], 10);
    assert_eq!(result.unwrap_err(), SimulationError::InvalidStochasticMatrix);
}

#[test]
fn test_row_sum_below_tolerance_fails() {
    // The first row sums to 0.9: construction must fail.
    let result = StochasticMatrix::new(vec![vec![5, 4], vec![3, 7]], 10);
    assert_eq!(result.unwrap_err(), SimulationError::InvalidStochasticMatrix);
}

#[test]
fn test_multiply_dimension_mismatch() {
    let matrix = StochasticMatrix::new(vec![vec![5, 5], vec![3, 7]], 10).unwrap();
    let short = ProbabilityDistribution::new(vec![1], 1).unwrap();
    let result = matrix.multiply_with_distribution(&short);
    assert_eq!(result.unwrap_err(), SimulationError::DimensionMismatch);
}

#[test]
fn test_multiply_is_linear() {
    // The equal mixture of [1, 0] and [0, 1] is [1, 1] over denominator 2;
    // its pushforward equals the equal mixture of the two pushforwards.
    let matrix = StochasticMatrix::new(vec![vec![5, 5], vec![3, 7]], 10).unwrap();
    let d1 = ProbabilityDistribution::new(vec![1, 0], 1).unwrap();
    let d2 = ProbabilityDistribution::new(vec![0, 1], 1).unwrap();
    let mix = ProbabilityDistribution::new(vec![1, 1], 2).unwrap();
    let p1 = matrix.multiply_with_distribution(&d1).unwrap();
    let p2 = matrix.multiply_with_distribution(&d2).unwrap();
    let pm = matrix.multiply_with_distribution(&mix).unwrap();
    for j in 0..2 {
        // pm[j] == (p1[j] + p2[j]) / 2, compared as exact rationals.
        let lhs = (pm.weights[j] as u128) * (p1.denom as u128) * 2;
        let rhs = ((p1.weights[j] + p2.weights[j]) as u128) * (pm.denom as u128);
        assert_eq!(lhs, rhs);
    }
}

#[test]
fn test_stationary_distribution_identity_matrix() {
    // The identity matrix leaves the uniform start exactly in place, and the
    // arithmetic is exact: after any number of iterations the result is the
    // uniform distribution itself.
    let matrix = StochasticMatrix::new(vec![vec![1, 0], vec![0, 1]], 1).unwrap();
    let stationary = matrix.find_stationary_distribution(25).unwrap();
    assert_eq!(stationary.weights, vec![1, 1]);
    assert_eq!(stationary.denom, 2);
}

#[test]
fn test_stationary_distribution_fixed_point() {
    // Power iteration on [[0.5, 0.5], [0.3, 0.7]] converges to [0.375, 0.625];
    // one more application of the matrix moves the result by less than 1e-9.
    let matrix = StochasticMatrix::new(vec![vec![5, 5], vec![3, 7]], 10).unwrap();
    let stationary = matrix.find_stationary_distribution(15).unwrap();
    let once_more = matrix.multiply_with_distribution(&stationary).unwrap();
    for j in 0..2 {
        let a = stationary.weights[j] as f64 / stationary.denom as f64;
        let b = once_more.weights[j] as f64 / once_more.denom as f64;
        assert!((a - b).abs() < 1e-9);
    }
    let x0 = stationary.weights[0] as f64 / stationary.denom as f64;
    let x1 = stationary.weights[1] as f64 / stationary.denom as f64;
    assert!((x0 - 0.375).abs() < 1e-6);
    assert!((x1 - 0.625).abs() < 1e-6);
}
