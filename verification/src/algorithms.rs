pub mod distributions;
pub mod markov_chain;
pub mod mc_estimator;
pub mod stochastic_matrix;
