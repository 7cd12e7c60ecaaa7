use vstd::prelude::*;

use vstd::pervasive::VecAdditionalExecFns;

use crate::algorithms::distributions::ProbabilityDistribution;
use crate::algorithms::stochastic_matrix::StochasticMatrix;
use crate::arith::{
    ints_of, ints_of_signed, lemma_prod_skip_ge_one, lemma_prod_skip_le_prod,
    lemma_prod_skip_take_succ, lemma_seq_prod_take_le, lemma_seq_sum_element_le,
    lemma_seq_sum_nonneg, lemma_seq_sum_take_le, lemma_seq_sum_update, lemma_seq_sum_zero,
    lemma_tally_bounds, lemma_tally_scale, lemma_tally_take_succ, prod_skip, seq_prod, seq_sum,
    tally_mass, weighted_tally,
};
use crate::errors::SimulationError;
use crate::rng::RngSource;

verus! {

/// The largest tally total, observable magnitude and per-state weight the
/// exact estimators accept; they keep every intermediate product inside
/// 128-bit arithmetic.
pub const MAX_SIMULATIONS: u64 = 0x1_0000_0000;

pub const MAX_OBSERVABLE: i64 = 0x8000_0000;

pub const MAX_STATE_WEIGHT: u64 = 0x4000_0000_0000_0000;

pub const MAX_BOLTZMANN_WEIGHT: u64 = 0x4000_0000;

/// The importance weights induced by the stationary weight table `p`: state
/// `s` carries the product of every entry but `p[s]`, which is the reciprocal
/// `1 / p[s]` rescaled by the common factor `seq_prod(p)`. The common factor
/// cancels between the numerator and the denominator of a self-normalized
/// estimate.
pub open spec fn importance_of(p: Seq<int>) -> Seq<int> {
    Seq::new(p.len(), |s: int| prod_skip(p, s))
}

/// The canonical-ensemble weights: state `s` carries its Boltzmann factor
/// `b[s]` times its importance weight.
pub open spec fn boltzmann_importance_of(b: Seq<int>, p: Seq<int>) -> Seq<int> {
    Seq::new(p.len(), |s: int| b[s] * prod_skip(p, s))
}

/// An exact self-normalized estimate: the estimated value is the rational
/// `num / den`. The denominator is positive whenever at least one rollout
/// was tallied.
#[derive(Debug)]
pub struct WeightedEstimate {
    pub num: i128,
    pub den: i128,
}

/// Law: a constant factor on every state weight (the Boltzmann factor at
/// inverse temperature zero) cancels out of a self-normalized estimate: for
/// the same tallies `c` and observable `f`, the ratio built from the scaled
/// weights `wb` equals the ratio built from `w`, as rationals (their cross
/// products agree).
pub proof fn lemma_constant_factor_cancels(
    c: Seq<int>,
    f: Seq<int>,
    w: Seq<int>,
    wb: Seq<int>,
    b: int,
)
    requires
        c.len() <= f.len(),
        c.len() <= w.len(),
        c.len() <= wb.len(),
        forall|s: int| 0 <= s < c.len() ==> #[trigger] wb[s] == b * w[s],
    ensures
        weighted_tally(c, f, wb) * tally_mass(c, w) == weighted_tally(c, f, w) * tally_mass(
            c,
            wb,
        ),
{
    lemma_tally_scale(c, f, w, wb, b);
    assert((b * weighted_tally(c, f, w)) * tally_mass(c, w) == weighted_tally(c, f, w) * (b
        * tally_mass(c, w))) by (nonlinear_arith);
}

/// Computes the exact self-normalized ratio of the tallies `counts` against
/// the observable `values` under the per-state weights `weights`: the
/// numerator `sum_s counts[s] * values[s] * weights[s]` and the denominator
/// `sum_s counts[s] * weights[s]`.
pub fn reweighted_ratio(counts: &Vec<u64>, values: &Vec<i64>, weights: &Vec<u64>) -> (r:
    WeightedEstimate)
    requires
        counts@.len() == values@.len(),
        counts@.len() == weights@.len(),
        seq_sum(ints_of(counts@)) <= MAX_SIMULATIONS as int,
        forall|s: int|
            0 <= s < values@.len() ==> -(MAX_OBSERVABLE as int) <= #[trigger] values@[s] as int
                <= MAX_OBSERVABLE as int,
        forall|s: int|
            0 <= s < weights@.len() ==> 1 <= #[trigger] weights@[s] as int
                <= MAX_STATE_WEIGHT as int,
    ensures
        r.num == weighted_tally(ints_of(counts@), ints_of_signed(values@), ints_of(weights@)),
        r.den == tally_mass(ints_of(counts@), ints_of(weights@)),
        seq_sum(ints_of(counts@)) <= r.den,
{
    let ghost c = ints_of(counts@);
    let ghost fv = ints_of_signed(values@);
    let ghost wv = ints_of(weights@);
    let ghost bf = MAX_OBSERVABLE as int;
    let ghost bw = MAX_STATE_WEIGHT as int;
    let n = counts.len();
    let mut num: i128 = 0;
    let mut den: i128 = 0;
    let mut s: usize = 0;
    while s < n
        invariant
            n == counts@.len(),
            n == values@.len(),
            n == weights@.len(),
            0 <= s <= n,
            c == ints_of(counts@),
            fv == ints_of_signed(values@),
            wv == ints_of(weights@),
            bf == MAX_OBSERVABLE as int,
            bw == MAX_STATE_WEIGHT as int,
            seq_sum(c) <= MAX_SIMULATIONS as int,
            forall|k: int| 0 <= k < n ==> -bf <= #[trigger] fv[k] <= bf,
            forall|k: int| 0 <= k < n ==> 1 <= #[trigger] wv[k] <= bw,
            num == weighted_tally(c.take(s as int), fv, wv),
            den == tally_mass(c.take(s as int), wv),
        decreases n - s,
    {
        proof {
            lemma_seq_sum_element_le(c, s as int);
            lemma_seq_sum_take_le(c, s as int + 1);
            lemma_tally_take_succ(c, fv, wv, s as int);
            lemma_tally_bounds(c.take(s as int), fv, wv, bf, bw);
            lemma_tally_bounds(c.take(s as int + 1), fv, wv, bf, bw);
        }
        let ct = counts[s] as i128;
        let vt = values[s] as i128;
        let wt = weights[s] as i128;
        proof {
            let ms = MAX_SIMULATIONS as int;
            assert(-(ms * bf) <= ct * vt <= ms * bf) by (nonlinear_arith)
                requires
                    0 <= ct <= ms,
                    -bf <= vt <= bf,
                    bf >= 0,
            ;
            assert(-(ms * bf * bw) <= (ct * vt) * wt <= ms * bf * bw) by (nonlinear_arith)
                requires
                    -(ms * bf) <= ct * vt <= ms * bf,
                    1 <= wt <= bw,
                    ms * bf >= 0,
            ;
            assert(0 <= ct * wt <= ms * bw) by (nonlinear_arith)
                requires
                    0 <= ct <= ms,
                    1 <= wt <= bw,
            ;
        }
        let term: i128 = ct * vt * wt;
        proof {
            assert(ct * vt * wt == c[s as int] * fv[s as int] * wv[s as int]);
            assert(ct * wt == c[s as int] * wv[s as int]);
        }
        num = num + term;
        den = den + ct * wt;
        s = s + 1;
    }
    proof {
        assert(c.take(n as int) =~= c);
        lemma_tally_bounds(c, fv, wv, bf, bw);
    }
    WeightedEstimate { num, den }
}

/// Turns a stationary weight table into importance weights: entry `s` of the
/// result is the product of every `pi` entry but `pi[s]`. All entries must be
/// positive, and the full product must stay within the accepted range.
pub fn importance_weights(pi: &Vec<u64>) -> (r: Vec<u64>)
    requires
        forall|s: int| 0 <= s < pi@.len() ==> 1 <= #[trigger] pi@[s],
        seq_prod(ints_of(pi@)) <= MAX_SIMULATIONS as int,
    ensures
        r@.len() == pi@.len(),
        forall|s: int|
            0 <= s < pi@.len() ==> #[trigger] r@[s] as int == prod_skip(ints_of(pi@), s),
        forall|s: int|
            0 <= s < pi@.len() ==> 1 <= #[trigger] r@[s] as int <= seq_prod(ints_of(pi@)),
    {
    let ghost p = ints_of(pi@);
    let n = pi.len();
    let mut result: Vec<u64> = Vec::new();
    let mut s: usize = 0;
    while s < n
        invariant
            n == pi@.len(),
            0 <= s <= n,
            p == ints_of(pi@),
            forall|k: int| 0 <= k < n ==> 1 <= #[trigger] p[k],
            seq_prod(p) <= MAX_SIMULATIONS as int,
            result@.len() == s,
            forall|k: int| 0 <= k < s ==> #[trigger] result@[k] as int == prod_skip(p, k),
            forall|k: int|
                0 <= k < s ==> 1 <= #[trigger] result@[k] as int && result@[k] as int <= seq_prod(
                    p,
                ),
        decreases n - s,
    {
        let mut acc: u64 = 1;
        let mut t: usize = 0;
        while t < n
            invariant
                n == pi@.len(),
                0 <= t <= n,
                0 <= s < n,
                p == ints_of(pi@),
                forall|k: int| 0 <= k < n ==> 1 <= #[trigger] p[k],
                seq_prod(p) <= MAX_SIMULATIONS as int,
                acc as int == prod_skip(p.take(t as int), s as int),
            decreases n - t,
        {
            proof {
                lemma_prod_skip_take_succ(p, s as int, t as int);
                lemma_prod_skip_le_prod(p.take(t as int + 1), s as int);
                lemma_seq_prod_take_le(p, t as int + 1);
            }
            if t != s {
                acc = acc * pi[t];
            }
            t = t + 1;
        }
        proof {
            assert(p.take(n as int) =~= p);
            lemma_prod_skip_le_prod(p, s as int);
            lemma_prod_skip_ge_one(p, s as int);
        }
        result.push(acc);
        s = s + 1;
    }
    result
}

/// A stateless driver for repeated independent chain rollouts against one
/// read-only transition matrix: every estimation call is a pure function of
/// the matrix, the initial distribution, the step and simulation counts, the
/// observable tables, and the supplied source of randomness.
#[derive(Debug)]
pub struct MonteCarloEstimator {
    pub transition_matrix: StochasticMatrix,
}

impl MonteCarloEstimator {
    pub fn new(transition_matrix: StochasticMatrix) -> (r: Self)
        ensures
            r.transition_matrix == transition_matrix,
    {
        Self { transition_matrix }
    }

    /// The shared rollout primitive: runs `n_simulations` independent chains
    /// of `n_steps` each, starting from a state sampled from the initial
    /// distribution and stepping by sampling the current row, and tallies the
    /// terminal state of each rollout. The tallies always add up to exactly
    /// `n_simulations`.
    fn terminal_counts(
        &self,
        initial_distribution: &ProbabilityDistribution,
        n_steps: usize,
        n_simulations: usize,
        rng: &mut RngSource,
    ) -> (r: Result<Vec<u64>, SimulationError>)
        requires
            self.transition_matrix.wf(),
            initial_distribution.wf(),
            initial_distribution.spec_len() == self.transition_matrix.spec_dim(),
        ensures
            r matches Ok(c) ==> c@.len() == self.transition_matrix.spec_dim() && seq_sum(
                ints_of(c@),
            ) == n_simulations as int,
            r is Err ==> r == Err::<Vec<u64>, SimulationError>(SimulationError::SamplingError),
            self.transition_matrix.rows_samplable() && seq_sum(ints_of(initial_distribution.weights@))
                <= u64::MAX as int ==> r is Ok,
    {
        let n = self.transition_matrix.dim();
        let mut counts: Vec<u64> = Vec::new();
        let mut i: usize = 0;
        while i < n
            invariant
                0 <= i <= n,
                counts@.len() == i,
                forall|k: int| 0 <= k < i ==> #[trigger] counts@[k] == 0u64,
            decreases n - i,
        {
            counts.push(0);
            i = i + 1;
        }
        proof {
            lemma_seq_sum_zero(ints_of(counts@));
        }
        let mut s: usize = 0;
        while s < n_simulations
            invariant
                n == self.transition_matrix.spec_dim(),
                self.transition_matrix.wf(),
                initial_distribution.wf(),
                initial_distribution.spec_len() == n,
                0 <= s <= n_simulations,
                counts@.len() == n,
                seq_sum(ints_of(counts@)) == s as int,
            decreases n_simulations - s,
        {
            let mut current = match initial_distribution.sample(rng) {
                Ok(c) => c,
                Err(e) => {
                    return Err(e);
                },
            };
            let mut k: usize = 0;
            while k < n_steps
                invariant
                    n == self.transition_matrix.spec_dim(),
                    self.transition_matrix.wf(),
                    0 <= k <= n_steps,
                    0 <= (current as int) < n,
                decreases n_steps - k,
            {
                let row_dist = self.transition_matrix.row_distribution(current);
                match row_dist.sample(rng) {
                    Ok(next) => {
                        current = next;
                    },
                    Err(e) => {
                        return Err(e);
                    },
                }
                k = k + 1;
            }
            proof {
                lemma_seq_sum_element_le(ints_of(counts@), current as int);
                lemma_seq_sum_nonneg(ints_of(counts@));
                lemma_seq_sum_update(
                    ints_of(counts@),
                    current as int,
                    counts@[current as int] as int + 1,
                );
            }
            let ghost old_counts = counts@;
            let c = counts[current];
            counts.set(current, c + 1);
            proof {
                assert(ints_of(counts@) =~= ints_of(old_counts).update(
                    current as int,
                    old_counts[current as int] as int + 1,
                ));
            }
            s = s + 1;
        }
        Ok(counts)
    }

    /// Estimates the `n_steps`-ahead distribution: tallies the terminal state
    /// of `n_simulations` independent rollouts and normalizes by
    /// `n_simulations`, giving an empirical terminal-state distribution whose
    /// weights sum to the simulation count exactly.
    pub fn estimate(
        &self,
        initial_distribution: &ProbabilityDistribution,
        n_steps: usize,
        n_simulations: usize,
        rng: &mut RngSource,
    ) -> (r: Result<ProbabilityDistribution, SimulationError>)
        requires
            self.transition_matrix.wf(),
            initial_distribution.wf(),
            n_simulations >= 1,
        ensures
            initial_distribution.spec_len() != self.transition_matrix.spec_dim() ==> r == Err::<
                ProbabilityDistribution,
                SimulationError,
            >(SimulationError::DimensionMismatch),
            r matches Ok(p) ==> {
                &&& p.wf()
                &&& p.denom == n_simulations as u64
                &&& p.spec_len() == self.transition_matrix.spec_dim()
                &&& seq_sum(ints_of(p.weights@)) == n_simulations as int
            },
            initial_distribution.spec_len() == self.transition_matrix.spec_dim()
                && self.transition_matrix.rows_samplable() && seq_sum(
                ints_of(initial_distribution.weights@),
            ) <= u64::MAX as int ==> r is Ok,
            r is Err ==> (r == Err::<ProbabilityDistribution, SimulationError>(
                SimulationError::DimensionMismatch,
            ) || r == Err::<ProbabilityDistribution, SimulationError>(
                SimulationError::SamplingError,
            )),
    {
        let n = self.transition_matrix.dim();
        if initial_distribution.len() != n {
            return Err(SimulationError::DimensionMismatch);
        }
        let counts = match self.terminal_counts(initial_distribution, n_steps, n_simulations, rng) {
            Ok(c) => c,
            Err(e) => {
                return Err(e);
            },
        };
        Ok(ProbabilityDistribution { weights: counts, denom: n_simulations as u64 })
    }

    /// Self-normalized importance-sampling estimate of the expectation of
    /// `observable` under the stationary weight table `pi`: each rollout's
    /// terminal state `s` contributes `observable[s] / pi[s]` to the
    /// numerator and `1 / pi[s]` to the denominator; the result is their
    /// exact ratio, computed over the common rescaling by `seq_prod(pi)`,
    /// which cancels. Every `pi` entry must be positive: a zero entry at a
    /// reachable terminal state is a caller error, excluded here by the
    /// precondition.
    pub fn estimate_weighted(
        &self,
        initial_distribution: &ProbabilityDistribution,
        n_steps: usize,
        n_simulations: usize,
        observable: &Vec<i64>,
        pi: &Vec<u64>,
        rng: &mut RngSource,
    ) -> (r: Result<WeightedEstimate, SimulationError>)
        requires
            self.transition_matrix.wf(),
            initial_distribution.wf(),
            1 <= n_simulations <= MAX_SIMULATIONS,
            observable@.len() == self.transition_matrix.spec_dim(),
            pi@.len() == self.transition_matrix.spec_dim(),
            forall|s: int| 0 <= s < pi@.len() ==> 1 <= #[trigger] pi@[s],
            seq_prod(ints_of(pi@)) <= MAX_SIMULATIONS as int,
            forall|s: int|
                0 <= s < observable@.len() ==> -(MAX_OBSERVABLE as int)
                    <= #[trigger] observable@[s] as int <= MAX_OBSERVABLE as int,
        ensures
            initial_distribution.spec_len() != self.transition_matrix.spec_dim() ==> r == Err::<
                WeightedEstimate,
                SimulationError,
            >(SimulationError::DimensionMismatch),
            r matches Ok(e) ==> e.den >= n_simulations as int,
            r matches Ok(e) ==> exists|c: Seq<int>|
                #![auto]
                {
                    &&& c.len() == self.transition_matrix.spec_dim()
                    &&& (forall|s: int| 0 <= s < c.len() ==> c[s] >= 0)
                    &&& seq_sum(c) == n_simulations as int
                    &&& e.num == weighted_tally(
                        c,
                        ints_of_signed(observable@),
                        importance_of(ints_of(pi@)),
                    )
                    &&& e.den == tally_mass(c, importance_of(ints_of(pi@)))
                },
            initial_distribution.spec_len() == self.transition_matrix.spec_dim()
                && self.transition_matrix.rows_samplable() && seq_sum(
                ints_of(initial_distribution.weights@),
            ) <= u64::MAX as int ==> r is Ok,
            r is Err ==> (r == Err::<WeightedEstimate, SimulationError>(
                SimulationError::DimensionMismatch,
            ) || r == Err::<WeightedEstimate, SimulationError>(SimulationError::SamplingError)),
    {
        let n = self.transition_matrix.dim();
        if initial_distribution.len() != n {
            return Err(SimulationError::DimensionMismatch);
        }
        let counts = match self.terminal_counts(initial_distribution, n_steps, n_simulations, rng) {
            Ok(c) => c,
            Err(e) => {
                return Err(e);
            },
        };
        let w = importance_weights(pi);
        proof {
            assert(ints_of(w@) =~= importance_of(ints_of(pi@)));
            assert(forall|s: int|
                0 <= s < w@.len() ==> 1 <= #[trigger] w@[s] as int && w@[s] as int
                    <= MAX_STATE_WEIGHT as int);
        }
        let e = reweighted_ratio(&counts, observable, &w);
        proof {
            let c = ints_of(counts@);
            assert(c.len() == self.transition_matrix.spec_dim() && (forall|s: int|
                0 <= s < c.len() ==> c[s] >= 0) && seq_sum(c) == n_simulations as int && e.num
                == weighted_tally(c, ints_of_signed(observable@), importance_of(ints_of(pi@)))
                && e.den == tally_mass(c, importance_of(ints_of(pi@))));
        }
        Ok(e)
    }

    /// Self-normalized canonical-ensemble estimate of the expectation of the
    /// energy `hamiltonian` at a fixed temperature: each rollout's terminal
    /// state `s` is reweighted by its Boltzmann factor over its stationary
    /// weight, `boltzmann[s] / pi[s]`, where the caller supplies
    /// `boltzmann[s]` as the integer weight standing for
    /// `exp(-beta * hamiltonian[s])` at any common positive scale (the scale
    /// cancels). Inverse temperature zero is the constant table, on which
    /// this estimator provably coincides with `estimate_weighted`.
    pub fn estimate_energy(
        &self,
        initial_distribution: &ProbabilityDistribution,
        n_steps: usize,
        n_simulations: usize,
        hamiltonian: &Vec<i64>,
        boltzmann: &Vec<u64>,
        pi: &Vec<u64>,
        rng: &mut RngSource,
    ) -> (r: Result<WeightedEstimate, SimulationError>)
        requires
            self.transition_matrix.wf(),
            initial_distribution.wf(),
            1 <= n_simulations <= MAX_SIMULATIONS,
            hamiltonian@.len() == self.transition_matrix.spec_dim(),
            boltzmann@.len() == self.transition_matrix.spec_dim(),
            pi@.len() == self.transition_matrix.spec_dim(),
            forall|s: int| 0 <= s < pi@.len() ==> 1 <= #[trigger] pi@[s],
            seq_prod(ints_of(pi@)) <= MAX_SIMULATIONS as int,
            forall|s: int|
                0 <= s < hamiltonian@.len() ==> -(MAX_OBSERVABLE as int)
                    <= #[trigger] hamiltonian@[s] as int <= MAX_OBSERVABLE as int,
            forall|s: int|
                0 <= s < boltzmann@.len() ==> 1 <= #[trigger] boltzmann@[s] as int
                    <= MAX_BOLTZMANN_WEIGHT as int,
        ensures
            initial_distribution.spec_len() != self.transition_matrix.spec_dim() ==> r == Err::<
                WeightedEstimate,
                SimulationError,
            >(SimulationError::DimensionMismatch),
            r matches Ok(e) ==> e.den >= n_simulations as int,
            r matches Ok(e) ==> exists|c: Seq<int>|
                #![auto]
                {
                    &&& c.len() == self.transition_matrix.spec_dim()
                    &&& (forall|s: int| 0 <= s < c.len() ==> c[s] >= 0)
                    &&& seq_sum(c) == n_simulations as int
                    &&& e.num == weighted_tally(
                        c,
                        ints_of_signed(hamiltonian@),
                        boltzmann_importance_of(ints_of(boltzmann@), ints_of(pi@)),
                    )
                    &&& e.den == tally_mass(
                        c,
                        boltzmann_importance_of(ints_of(boltzmann@), ints_of(pi@)),
                    )
                },
            initial_distribution.spec_len() == self.transition_matrix.spec_dim()
                && self.transition_matrix.rows_samplable() && seq_sum(
                ints_of(initial_distribution.weights@),
            ) <= u64::MAX as int ==> r is Ok,
            r is Err ==> (r == Err::<WeightedEstimate, SimulationError>(
                SimulationError::DimensionMismatch,
            ) || r == Err::<WeightedEstimate, SimulationError>(SimulationError::SamplingError)),
    {
        let n = self.transition_matrix.dim();
        if initial_distribution.len() != n {
            return Err(SimulationError::DimensionMismatch);
        }
        let counts = match self.terminal_counts(initial_distribution, n_steps, n_simulations, rng) {
            Ok(c) => c,
            Err(e) => {
                return Err(e);
            },
        };
        let iw = importance_weights(pi);
        let mut w: Vec<u64> = Vec::new();
        let mut s: usize = 0;
        while s < n
            invariant
                n == pi@.len(),
                n == boltzmann@.len(),
                n == iw@.len(),
                0 <= s <= n,
                forall|k: int|
                    0 <= k < n ==> #[trigger] iw@[k] as int == prod_skip(ints_of(pi@), k),
                forall|k: int|
                    0 <= k < n ==> 1 <= #[trigger] iw@[k] as int <= MAX_SIMULATIONS as int,
                forall|k: int|
                    0 <= k < n ==> 1 <= #[trigger] boltzmann@[k] as int
                        <= MAX_BOLTZMANN_WEIGHT as int,
                w@.len() == s,
                forall|k: int|
                    0 <= k < s ==> #[trigger] w@[k] as int == (boltzmann@[k] as int) * prod_skip(
                        ints_of(pi@),
                        k,
                    ),
                forall|k: int|
                    0 <= k < s ==> 1 <= #[trigger] w@[k] as int <= MAX_STATE_WEIGHT as int,
            decreases n - s,
        {
            proof {
                assert(1 <= (boltzmann@[s as int] as int) * (iw@[s as int] as int) && (
                boltzmann@[s as int] as int) * (iw@[s as int] as int) <= (
                MAX_BOLTZMANN_WEIGHT as int) * (MAX_SIMULATIONS as int)) by (nonlinear_arith)
                    requires
                        1 <= boltzmann@[s as int] as int <= MAX_BOLTZMANN_WEIGHT as int,
                        1 <= iw@[s as int] as int <= MAX_SIMULATIONS as int,
                ;
            }
            w.push(boltzmann[s] * iw[s]);
            s = s + 1;
        }
        proof {
            assert(ints_of(w@) =~= boltzmann_importance_of(ints_of(boltzmann@), ints_of(pi@)));
        }
        let e = reweighted_ratio(&counts, hamiltonian, &w);
        proof {
            let c = ints_of(counts@);
            assert(c.len() == self.transition_matrix.spec_dim() && (forall|s: int|
                0 <= s < c.len() ==> c[s] >= 0) && seq_sum(c) == n_simulations as int && e.num
                == weighted_tally(
                c,
                ints_of_signed(hamiltonian@),
                boltzmann_importance_of(ints_of(boltzmann@), ints_of(pi@)),
            ) && e.den == tally_mass(
                c,
                boltzmann_importance_of(ints_of(boltzmann@), ints_of(pi@)),
            ));
        }
        Ok(e)
    }
}

} // verus!
