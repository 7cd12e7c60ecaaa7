use vstd::prelude::*;

verus! {

/// The failures this library can report.
///
/// All of them are construction-time or sampling-time failures that are
/// surfaced immediately; no operation retries or returns partial results.
#[derive(Clone, Copy, Debug, PartialEq, Eq, Structural)]
pub enum SimulationError {
    /// A weight vector has a sum that deviates from its denominator by more
    /// than the fixed relative tolerance of one part in a billion.
    InvalidDistribution,
    /// A matrix is not square, or one of its rows fails the distribution check.
    InvalidStochasticMatrix,
    /// A length mismatch between a distribution, a state-label sequence and a
    /// matrix dimension.
    DimensionMismatch,
    /// A weight vector with no positive entry was handed to the sampler.
    SamplingError,
}

} // verus!
