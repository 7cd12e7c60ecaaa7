pub mod percolation;
pub mod random_walk;
