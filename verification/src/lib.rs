pub mod algorithms;
pub mod applications;
pub mod arith;
pub mod errors;
pub mod rng;
