use vstd::prelude::*;

use vstd::arithmetic::power::pow;

use crate::arith::{
    dot, ints_of, lemma_dot_bound, lemma_dot_linear, lemma_dot_full, lemma_dot_take_succ, lemma_seq_sum_element_le,
    lemma_seq_sum_nonneg, lemma_seq_sum_take_le, lemma_sum_of_dots, lemma_within_tolerance_scaled,
    lemma_seq_sum_ones, lemma_within_tolerance_upper, lemma_wsum_uniform_rows, matrix_ints, seq_sum,
    sum_within_tolerance, within_tolerance, wsum,
};
use crate::algorithms::distributions::ProbabilityDistribution;
use crate::errors::SimulationError;

verus! {

/// The exact weight vector reached after `k` power-iteration steps of `m`
/// starting from the all-ones (uniform) vector over `n` states. Its
/// denominator is `n * denom^k`.
pub open spec fn power_dist(m: Seq<Seq<int>>, n: nat, k: nat) -> Seq<int>
    decreases k,
{
    if k == 0 {
        Seq::new(n, |i: int| 1int)
    } else {
        Seq::new(n, |j: int| dot(power_dist(m, n, (k - 1) as nat), m, j))
    }
}

/// Law: propagation through a matrix is linear. Take any mixture `c` of two
/// weight vectors `v1` and `v2` with integer coefficients `p` and `q`; over a
/// common denominator this covers every convex combination
/// `a * D1 + (1 - a) * D2` with `a == p / (p + q)`. Pushing the mixture
/// through the matrix gives, column by column, the same mixture of the two
/// pushforwards, with no tolerance slack: the arithmetic is exact.
pub proof fn lemma_multiply_linear(
    m: &StochasticMatrix,
    c: Seq<int>,
    v1: Seq<int>,
    v2: Seq<int>,
    p: int,
    q: int,
)
    requires
        c.len() == v1.len() == v2.len(),
        forall|i: int| 0 <= i < c.len() ==> c[i] == p * v1[i] + q * v2[i],
    ensures
        forall|j: int|
            #[trigger] dot(c, m.rows(), j) == p * dot(v1, m.rows(), j) + q * dot(
                v2,
                m.rows(),
                j,
            ),
{
    assert forall|j: int|
        #[trigger] dot(c, m.rows(), j) == p * dot(v1, m.rows(), j) + q * dot(
            v2,
            m.rows(),
            j,
        ) by {
        lemma_dot_linear(c, v1, v2, m.rows(), p, q, j);
    }
}

/// A validated row-stochastic transition matrix.
///
/// Entry `(i, j)` is the exact rational `matrix[i][j] / denom`: the
/// probability of moving from state `i` to state `j`. Every row must be a
/// valid distribution over the same `n` states, and the matrix must be square.
#[derive(Debug)]
pub struct StochasticMatrix {
    pub matrix: Vec<Vec<u64>>,
    pub denom: u64,
}

impl StochasticMatrix {
    /// The number of states, which indexes both rows and columns.
    pub open spec fn spec_dim(&self) -> int {
        self.matrix@.len() as int
    }

    /// The mathematical rows of the matrix.
    pub open spec fn rows(&self) -> Seq<Seq<int>> {
        matrix_ints(self.matrix@)
    }

    /// The construction-time invariant: square shape, positive denominator,
    /// and every row summing to the denominator within the fixed tolerance.
    pub open spec fn wf(&self) -> bool {
        &&& self.denom >= 1
        &&& forall|i: int|
            0 <= i < self.spec_dim() ==> (#[trigger] self.matrix@[i])@.len() == self.spec_dim()
        &&& forall|i: int|
            0 <= i < self.spec_dim() ==> within_tolerance(
                seq_sum(ints_of((#[trigger] self.matrix@[i])@)),
                self.denom as int,
            )
    }

    /// Whether every row total fits the sampler: no row adds up beyond the
    /// 64-bit range, so drawing a successor from any row cannot fail.
    pub open spec fn rows_samplable(&self) -> bool {
        forall|i: int|
            0 <= i < self.spec_dim() ==> seq_sum(ints_of((#[trigger] self.matrix@[i])@))
                <= u64::MAX as int
    }

    /// Whether every row sums to the denominator exactly, with no tolerance
    /// slack. Exactly normalized rows keep propagation exact.
    pub open spec fn rows_exact(&self) -> bool {
        forall|i: int|
            0 <= i < self.spec_dim() ==> seq_sum(ints_of((#[trigger] self.matrix@[i])@))
                == self.denom as int
    }

    pub fn dim(&self) -> (r: usize)
        ensures
            r == self.spec_dim(),
    {
        self.matrix.len()
    }

    /// Validates a raw matrix: it must be square, and each row must pass the
    /// same check as a probability distribution over denominator `denom`.
    pub fn new(matrix: Vec<Vec<u64>>, denom: u64) -> (r: Result<Self, SimulationError>)
        ensures
            r is Ok <==> (denom >= 1 && (forall|i: int|
                0 <= i < matrix@.len() ==> (#[trigger] matrix@[i])@.len() == matrix@.len())
                && (forall|i: int|
                0 <= i < matrix@.len() ==> within_tolerance(
                    seq_sum(ints_of((#[trigger] matrix@[i])@)),
                    denom as int,
                ))),
            r matches Ok(m) ==> m.matrix@ == matrix@ && m.denom == denom && m.wf(),
            r is Err ==> r == Err::<Self, SimulationError>(
                SimulationError::InvalidStochasticMatrix,
            ),
    {
        if denom == 0 {
            return Err(SimulationError::InvalidStochasticMatrix);
        }
        let n = matrix.len();
        let mut i: usize = 0;
        while i < n
            invariant
                n == matrix@.len(),
                0 <= i <= n,
                denom >= 1,
                forall|k: int| 0 <= k < i ==> (#[trigger] matrix@[k])@.len() == n,
                forall|k: int|
                    0 <= k < i ==> within_tolerance(
                        seq_sum(ints_of((#[trigger] matrix@[k])@)),
                        denom as int,
                    ),
            decreases n - i,
        {
            if matrix[i].len() != n {
                return Err(SimulationError::InvalidStochasticMatrix);
            }
            if !sum_within_tolerance(&matrix[i], denom) {
                return Err(SimulationError::InvalidStochasticMatrix);
            }
            i = i + 1;
        }
        Ok(Self { matrix, denom })
    }

    /// Builds the transition distribution of state `i`: a transient
    /// distribution over the `i`-th row, re-validated on the way (the raw row
    /// bypasses the top-level validator), which provably succeeds for a
    /// well-formed matrix.
    pub fn row_distribution(&self, i: usize) -> (r: ProbabilityDistribution)
        requires
            self.wf(),
            (i as int) < self.spec_dim(),
        ensures
            r.wf(),
            r.weights@ == (self.matrix@[i as int])@,
            r.denom == self.denom,
    {
        let source_row = &self.matrix[i];
        let n = source_row.len();
        let mut row: Vec<u64> = Vec::new();
        let mut k: usize = 0;
        while k < n
            invariant
                n == source_row@.len(),
                0 <= k <= n,
                row@ == source_row@.take(k as int),
            decreases n - k,
        {
            proof {
                assert(source_row@.take(k as int + 1) =~= source_row@.take(k as int).push(
                    source_row@[k as int],
                ));
            }
            row.push(source_row[k]);
            k = k + 1;
        }
        proof {
            assert(row@ =~= source_row@);
        }
        match ProbabilityDistribution::new(row, self.denom) {
            Ok(d) => d,
            Err(_) => vstd::pervasive::unreached(),
        }
    }

    /// Pushes a distribution over the row indices one step through the chain:
    /// the new mass of state `j` is `sum_i dist[i] * matrix[i][j]`, an exact
    /// rational over the product of the two denominators. The result is
    /// re-validated; with exactly normalized rows it provably passes.
    pub fn multiply_with_distribution(&self, distribution: &ProbabilityDistribution) -> (r: Result<
        ProbabilityDistribution,
        SimulationError,
    >)
        requires
            self.wf(),
            distribution.wf(),
            4 * (distribution.denom as int) * (self.denom as int) <= u64::MAX as int,
        ensures
            distribution.spec_len() != self.spec_dim() ==> r == Err::<
                ProbabilityDistribution,
                SimulationError,
            >(SimulationError::DimensionMismatch),
            distribution.spec_len() == self.spec_dim() ==> (r is Ok <==> within_tolerance(
                wsum(ints_of(distribution.weights@), self.rows()),
                (distribution.denom as int) * (self.denom as int),
            )),
            distribution.spec_len() == self.spec_dim() && !within_tolerance(
                wsum(ints_of(distribution.weights@), self.rows()),
                (distribution.denom as int) * (self.denom as int),
            ) ==> r == Err::<ProbabilityDistribution, SimulationError>(
                SimulationError::InvalidDistribution,
            ),
            r matches Ok(p) ==> {
                &&& p.wf()
                &&& p.denom == (distribution.denom as int) * (self.denom as int)
                &&& p.spec_len() == self.spec_dim()
                &&& forall|j: int|
                    0 <= j < self.spec_dim() ==> ints_of(p.weights@)[j] == dot(
                        ints_of(distribution.weights@),
                        self.rows(),
                        j,
                    )
            },
            distribution.spec_len() == self.spec_dim() && self.rows_exact() ==> r is Ok,
            r matches Ok(p) ==> (self.rows_exact() ==> seq_sum(ints_of(p.weights@)) == seq_sum(
                ints_of(distribution.weights@),
            ) * (self.denom as int)),
    {
        let ghost v = ints_of(distribution.weights@);
        let ghost m = self.rows();
        let ghost dd = (distribution.denom as int) * (self.denom as int);
        let n = self.matrix.len();
        if distribution.weights.len() != n {
            return Err(SimulationError::DimensionMismatch);
        }
        let ghost bw = 2 * (distribution.denom as int);
        let ghost be = 2 * (self.denom as int);
        proof {
            lemma_within_tolerance_upper(seq_sum(v), distribution.denom as int);
            assert forall|i: int, j: int| 0 <= i < n && 0 <= j < n implies 0 <= #[trigger] m[i][j]
                <= be by {
                lemma_within_tolerance_upper(seq_sum(m[i]), self.denom as int);
                lemma_seq_sum_element_le(m[i], j);
            }
            assert(2 * (distribution.denom as int) * (2 * (self.denom as int)) == 4 * (
            distribution.denom as int) * (self.denom as int)) by (nonlinear_arith);
            assert((distribution.denom as int) * (self.denom as int) <= 4 * (
            distribution.denom as int) * (self.denom as int)) by (nonlinear_arith)
                requires
                    distribution.denom as int >= 1 && self.denom as int >= 1,
            ;
        }
        let new_denom = distribution.denom * self.denom;
        let mut new_values: Vec<u64> = Vec::new();
        let mut j: usize = 0;
        while j < n
            invariant
                n == self.matrix@.len(),
                n == distribution.weights@.len(),
                0 <= j <= n,
                v == ints_of(distribution.weights@),
                m == self.rows(),
                self.wf(),
                distribution.wf(),
                seq_sum(v) <= bw,
                bw == 2 * (distribution.denom as int),
                be == 2 * (self.denom as int),
                bw * be <= u64::MAX as int,
                forall|i: int, jj: int| 0 <= i < n && 0 <= jj < n ==> 0 <= #[trigger] m[i][jj] <= be,
                new_values@.len() == j,
                forall|k: int| 0 <= k < j ==> ints_of(new_values@)[k] == dot(v, m, k),
            decreases n - j,
        {
            let mut acc: u64 = 0;
            let mut i: usize = 0;
            while i < n
                invariant
                    n == self.matrix@.len(),
                    n == distribution.weights@.len(),
                    0 <= i <= n,
                    0 <= j < n,
                    v == ints_of(distribution.weights@),
                    m == self.rows(),
                    self.wf(),
                    seq_sum(v) >= 0,
                    seq_sum(v) <= bw,
                    bw >= 0,
                    be >= 0,
                    bw * be <= u64::MAX as int,
                    forall|ii: int, jj: int|
                        0 <= ii < n && 0 <= jj < n ==> 0 <= #[trigger] m[ii][jj] <= be,
                    acc == dot(v.take(i as int), m, j as int),
                decreases n - i,
            {
                proof {
                    lemma_dot_take_succ(v, m, j as int, i as int);
                    lemma_dot_bound(v.take(i as int + 1), m, j as int, be);
                    lemma_seq_sum_take_le(v, i as int + 1);
                    vstd::arithmetic::mul::lemma_mul_inequality(
                        seq_sum(v.take(i as int + 1)),
                        seq_sum(v),
                        be,
                    );
                    vstd::arithmetic::mul::lemma_mul_inequality(seq_sum(v), bw, be);
                    lemma_seq_sum_element_le(v, i as int);
                    lemma_seq_sum_nonneg(v.take(i as int + 1));
                    vstd::arithmetic::mul::lemma_mul_upper_bound(
                        v[i as int],
                        bw,
                        m[i as int][j as int],
                        be,
                    );
                }
                acc = acc + distribution.weights[i] * self.matrix[i][j];
                i = i + 1;
            }
            proof {
                lemma_dot_full(v, m, j as int);
                assert(ints_of(new_values@.push(acc))[j as int] == dot(v, m, j as int));
                assert(forall|k: int|
                    0 <= k < j ==> ints_of(new_values@.push(acc))[k] == ints_of(new_values@)[k]);
            }
            new_values.push(acc);
            j = j + 1;
        }
        proof {
            lemma_sum_of_dots(v, m, ints_of(new_values@));
            vstd::arithmetic::mul::lemma_mul_strictly_positive(
                distribution.denom as int,
                self.denom as int,
            );
            if self.rows_exact() {
                lemma_wsum_uniform_rows(v, m, self.denom as int);
                lemma_within_tolerance_scaled(
                    seq_sum(v),
                    distribution.denom as int,
                    self.denom as int,
                );
            }
        }
        match ProbabilityDistribution::new(new_values, new_denom) {
            Ok(p) => Ok(p),
            Err(_) => Err(SimulationError::InvalidDistribution),
        }
    }

    /// Power iteration: starting from the uniform distribution over the `n`
    /// states, applies `multiply_with_distribution` exactly `iterations`
    /// times and returns the result, with no convergence check or early exit.
    /// The arithmetic is exact, so the result is the `iterations`-step
    /// pushforward of the uniform distribution, as a rational over
    /// `n * denom^iterations`.
    pub fn find_stationary_distribution(&self, iterations: usize) -> (r: Result<
        ProbabilityDistribution,
        SimulationError,
    >)
        requires
            self.wf(),
            self.spec_dim() >= 1,
            4 * self.spec_dim() * pow(self.denom as int, iterations as nat) <= u64::MAX as int,
        ensures
            r matches Ok(p) ==> {
                &&& p.wf()
                &&& p.spec_len() == self.spec_dim()
                &&& p.denom as int == self.spec_dim() * pow(self.denom as int, iterations as nat)
                &&& ints_of(p.weights@) == power_dist(
                    self.rows(),
                    self.spec_dim() as nat,
                    iterations as nat,
                )
            },
            self.rows_exact() ==> r is Ok,
            r matches Ok(p) ==> (self.rows_exact() ==> seq_sum(ints_of(p.weights@))
                == p.denom as int),
            r is Err ==> r == Err::<ProbabilityDistribution, SimulationError>(
                SimulationError::InvalidDistribution,
            ),
    {
        let ghost m = self.rows();
        let ghost nn = self.spec_dim() as nat;
        let ghost dm = self.denom as int;
        let n = self.matrix.len();
        let mut uniform: Vec<u64> = Vec::new();
        let mut i: usize = 0;
        while i < n
            invariant
                0 <= i <= n,
                uniform@.len() == i,
                forall|k: int| 0 <= k < i ==> uniform@[k] == 1u64,
            decreases n - i,
        {
            uniform.push(1);
            i = i + 1;
        }
        proof {
            lemma_seq_sum_ones(nn);
            assert(ints_of(uniform@) =~= Seq::new(nn, |k: int| 1int));
            vstd::arithmetic::power::lemma_pow0(dm);
            vstd::arithmetic::power::lemma_pow_increases(self.denom as nat, 0, iterations as nat);
            assert(self.spec_dim() * 1 == self.spec_dim()) by (nonlinear_arith);
            assert(4 * self.spec_dim() * pow(dm, iterations as nat) >= 4 * self.spec_dim() * 1)
                by (nonlinear_arith)
                requires
                    self.spec_dim() >= 1,
                    pow(dm, iterations as nat) >= 1,
            ;
        }
        let mut distribution = ProbabilityDistribution { weights: uniform, denom: n as u64 };
        let mut it: usize = 0;
        while it < iterations
            invariant
                0 <= it <= iterations,
                n == self.matrix@.len(),
                m == self.rows(),
                nn == self.spec_dim() as nat,
                dm == self.denom as int,
                self.wf(),
                n >= 1,
                4 * self.spec_dim() * pow(dm, iterations as nat) <= u64::MAX as int,
                distribution.wf(),
                distribution.spec_len() == n,
                distribution.denom as int == self.spec_dim() * pow(dm, it as nat),
                ints_of(distribution.weights@) == power_dist(m, nn, it as nat),
                self.rows_exact() ==> seq_sum(ints_of(distribution.weights@))
                    == distribution.denom as int,
            decreases iterations - it,
        {
            proof {
                vstd::arithmetic::power::lemma_pow_increases(
                    self.denom as nat,
                    (it + 1) as nat,
                    iterations as nat,
                );
                assert(pow(dm, (it + 1) as nat) == dm * pow(dm, it as nat)) by {
                    reveal(pow);
                }
                assert(4 * (self.spec_dim() * pow(dm, it as nat)) * dm == 4 * self.spec_dim()
                    * pow(dm, (it + 1) as nat)) by (nonlinear_arith)
                    requires
                        pow(dm, (it + 1) as nat) == dm * pow(dm, it as nat),
                ;
                assert(4 * self.spec_dim() * pow(dm, (it + 1) as nat) <= 4 * self.spec_dim()
                    * pow(dm, iterations as nat)) by (nonlinear_arith)
                    requires
                        self.spec_dim() >= 1,
                        pow(dm, (it + 1) as nat) <= pow(dm, iterations as nat),
                ;
            }
            let next = match self.multiply_with_distribution(&distribution) {
                Ok(p) => p,
                Err(_) => {
                    return Err(SimulationError::InvalidDistribution);
                },
            };
            proof {
                assert(ints_of(next.weights@) =~= power_dist(m, nn, (it + 1) as nat));
                assert(next.denom as int == (self.spec_dim() * pow(dm, it as nat)) * dm);
                assert((self.spec_dim() * pow(dm, it as nat)) * dm == self.spec_dim() * pow(
                    dm,
                    (it + 1) as nat,
                )) by (nonlinear_arith)
                    requires
                        pow(dm, (it + 1) as nat) == dm * pow(dm, it as nat),
                ;
                assert(pow(dm, (it + 1) as nat) == dm * pow(dm, it as nat)) by {
                    reveal(pow);
                }
                if self.rows_exact() {
                    assert(seq_sum(ints_of(next.weights@)) == (self.spec_dim() * pow(
                        dm,
                        it as nat,
                    )) * dm) by (nonlinear_arith)
                        requires
                            seq_sum(ints_of(next.weights@)) == seq_sum(
                                ints_of(distribution.weights@),
                            ) * dm,
                            seq_sum(ints_of(distribution.weights@)) == self.spec_dim() * pow(
                                dm,
                                it as nat,
                            ),
                    ;
                }
            }
            distribution = next;
            it = it + 1;
        }
        Ok(distribution)
    }
}

} // verus!
