use vstd::prelude::*;

verus! {

/// The fixed relative tolerance of every sum-to-one check: a weight vector
/// over denominator `d` is accepted when its sum deviates from `d` by at most
/// `d` parts in a billion (the classical `1e-9` absolute tolerance on the
/// represented real value).
pub const TOLERANCE_DENOMINATOR: u64 = 1_000_000_000;

/// Sum of an integer sequence.
pub open spec fn seq_sum(s: Seq<int>) -> int
    decreases s.len(),
{
    if s.len() == 0 {
        0
    } else {
        seq_sum(s.drop_last()) + s.last()
    }
}

/// The mathematical weights of an executable weight vector.
pub open spec fn ints_of(s: Seq<u64>) -> Seq<int> {
    s.map_values(|x: u64| x as int)
}

/// The mathematical values of an executable signed observable table.
pub open spec fn ints_of_signed(s: Seq<i64>) -> Seq<int> {
    s.map_values(|x: i64| x as int)
}

/// Whether a weight sum `s` equals its denominator `d` within one part in a
/// billion of `d`.
pub open spec fn within_tolerance(s: int, d: int) -> bool {
    (if s >= d {
        s - d
    } else {
        d - s
    }) * (TOLERANCE_DENOMINATOR as int) <= d
}

/// Decides the normalization check: whether the weights add up to `denom`
/// within one part in a billion of it.
pub fn sum_within_tolerance(weights: &Vec<u64>, denom: u64) -> (r: bool)
    requires
        denom >= 1,
    ensures
        r == within_tolerance(seq_sum(ints_of(weights@)), denom as int),
{
    let ghost w = ints_of(weights@);
    let n = weights.len();
    let mut total: u128 = 0;
    let mut i: usize = 0;
    while i < n
        invariant
            n == weights@.len(),
            0 <= i <= n,
            w == ints_of(weights@),
            total == seq_sum(w.take(i as int)),
            total <= (i as int) * (u64::MAX as int),
        decreases n - i,
    {
        proof {
            lemma_seq_sum_take_succ(w, i as int);
        }
        total = total + weights[i] as u128;
        i = i + 1;
    }
    proof {
        lemma_seq_sum_full(w);
    }
    let diff: u128 = if total >= denom as u128 {
        total - denom as u128
    } else {
        denom as u128 - total
    };
    proof {
        lemma_mul_le_iff_div(diff as int, denom as int, TOLERANCE_DENOMINATOR as int);
    }
    diff <= (denom / TOLERANCE_DENOMINATOR) as u128
}

pub proof fn lemma_seq_sum_take_succ(s: Seq<int>, k: int)
    requires
        0 <= k < s.len(),
    ensures
        seq_sum(s.take(k + 1)) == seq_sum(s.take(k)) + s[k],
{
    assert(s.take(k + 1).drop_last() =~= s.take(k));
    assert(s.take(k + 1).last() == s[k]);
}

pub proof fn lemma_seq_sum_full(s: Seq<int>)
    ensures
        seq_sum(s.take(s.len() as int)) == seq_sum(s),
{
    assert(s.take(s.len() as int) =~= s);
}

pub proof fn lemma_seq_sum_nonneg(s: Seq<int>)
    requires
        forall|i: int| 0 <= i < s.len() ==> s[i] >= 0,
    ensures
        seq_sum(s) >= 0,
    decreases s.len(),
{
    if s.len() > 0 {
        lemma_seq_sum_nonneg(s.drop_last());
    }
}

pub proof fn lemma_seq_sum_zero(s: Seq<int>)
    requires
        forall|i: int| 0 <= i < s.len() ==> s[i] == 0,
    ensures
        seq_sum(s) == 0,
    decreases s.len(),
{
    if s.len() > 0 {
        lemma_seq_sum_zero(s.drop_last());
    }
}

pub proof fn lemma_seq_sum_take_le(s: Seq<int>, k: int)
    requires
        0 <= k <= s.len(),
        forall|i: int| 0 <= i < s.len() ==> s[i] >= 0,
    ensures
        seq_sum(s.take(k)) <= seq_sum(s),
    decreases s.len() - k,
{
    if k < s.len() {
        lemma_seq_sum_take_succ(s, k);
        lemma_seq_sum_take_le(s, k + 1);
    } else {
        lemma_seq_sum_full(s);
    }
}

/// Each element of a non-negative sequence is at most the whole sum.
pub proof fn lemma_seq_sum_element_le(s: Seq<int>, i: int)
    requires
        0 <= i < s.len(),
        forall|j: int| 0 <= j < s.len() ==> s[j] >= 0,
    ensures
        s[i] <= seq_sum(s),
    decreases s.len(),
{
    if i == s.len() - 1 {
        lemma_seq_sum_nonneg(s.drop_last());
    } else {
        lemma_seq_sum_element_le(s.drop_last(), i);
    }
}

/// Raising one entry by `c` raises the sum by `c`.
pub proof fn lemma_seq_sum_update(s: Seq<int>, i: int, v: int)
    requires
        0 <= i < s.len(),
    ensures
        seq_sum(s.update(i, v)) == seq_sum(s) - s[i] + v,
    decreases s.len(),
{
    if i == s.len() - 1 {
        assert(s.update(i, v).drop_last() =~= s.drop_last());
    } else {
        assert(s.update(i, v).drop_last() =~= s.drop_last().update(i, v));
        lemma_seq_sum_update(s.drop_last(), i, v);
    }
}

/// For positive `k`, `a * k <= d` is the same bound as `a <= d / k`.
pub proof fn lemma_mul_le_iff_div(a: int, d: int, k: int)
    requires
        k >= 1,
        a >= 0,
        d >= 0,
    ensures
        a * k <= d <==> a <= d / k,
{
    vstd::arithmetic::div_mod::lemma_fundamental_div_mod(d, k);
    vstd::arithmetic::div_mod::lemma_mod_bound(d, k);
    vstd::arithmetic::div_mod::lemma_div_pos_is_pos(d, k);
    if a <= d / k {
        assert(a * k <= d) by (nonlinear_arith)
            requires
                k >= 1,
                a <= d / k,
                d == k * (d / k) + d % k,
                0 <= d % k,
        ;
    }
    if a * k <= d {
        assert(a <= d / k) by (nonlinear_arith)
            requires
                k >= 1,
                a >= 0,
                a * k <= d,
                d == k * (d / k) + d % k,
                0 <= d % k < k,
        ;
    }
}

/// Scaling both the sum and the denominator preserves the tolerance check.
pub proof fn lemma_within_tolerance_scaled(s: int, d: int, t: int)
    requires
        within_tolerance(s, d),
        t >= 1,
    ensures
        within_tolerance(s * t, d * t),
{
    let k = TOLERANCE_DENOMINATOR as int;
    if s >= d {
        assert(s * t >= d * t && (s * t - d * t) * k <= d * t) by (nonlinear_arith)
            requires
                s >= d,
                (s - d) * k <= d,
                t >= 1,
        ;
    } else {
        assert(s * t <= d * t && (d * t - s * t) * k <= d * t) by (nonlinear_arith)
            requires
                s <= d,
                (d - s) * k <= d,
                t >= 1,
        ;
    }
}

/// A valid weight vector has a positive sum.
pub proof fn lemma_within_tolerance_positive(s: int, d: int)
    requires
        within_tolerance(s, d),
        d >= 1,
    ensures
        s >= 1,
{
    let k = TOLERANCE_DENOMINATOR as int;
    if s < 1 {
        assert((d - s) * k >= d * k) by (nonlinear_arith)
            requires
                s <= 0,
                d >= 1,
                k >= 1,
        ;
        assert(d * k > d) by (nonlinear_arith)
            requires
                d >= 1,
                k >= 2,
        ;
    }
}

/// The mathematical rows of an executable matrix.
pub open spec fn matrix_ints(m: Seq<Vec<u64>>) -> Seq<Seq<int>> {
    m.map_values(|r: Vec<u64>| ints_of(r@))
}

/// The dot product of `v` with column `j` of `m`, over the first `v.len()`
/// rows: the mass that flows into state `j`.
pub open spec fn dot(v: Seq<int>, m: Seq<Seq<int>>, j: int) -> int
    decreases v.len(),
{
    if v.len() == 0 {
        0
    } else {
        dot(v.drop_last(), m, j) + v.last() * m[v.len() - 1][j]
    }
}

/// The weighted sum of the row totals of `m`: `sum_i v[i] * seq_sum(m[i])`.
pub open spec fn wsum(v: Seq<int>, m: Seq<Seq<int>>) -> int
    decreases v.len(),
{
    if v.len() == 0 {
        0
    } else {
        wsum(v.drop_last(), m) + v.last() * seq_sum(m[v.len() - 1])
    }
}

pub proof fn lemma_dot_take_succ(v: Seq<int>, m: Seq<Seq<int>>, j: int, k: int)
    requires
        0 <= k < v.len(),
    ensures
        dot(v.take(k + 1), m, j) == dot(v.take(k), m, j) + v[k] * m[k][j],
{
    assert(v.take(k + 1).drop_last() =~= v.take(k));
}

pub proof fn lemma_dot_full(v: Seq<int>, m: Seq<Seq<int>>, j: int)
    ensures
        dot(v.take(v.len() as int), m, j) == dot(v, m, j),
{
    assert(v.take(v.len() as int) =~= v);
}

/// A dot product against entries bounded by `b` is at most `b` times the mass.
pub proof fn lemma_dot_bound(v: Seq<int>, m: Seq<Seq<int>>, j: int, b: int)
    requires
        v.len() <= m.len(),
        b >= 0,
        forall|i: int| 0 <= i < v.len() ==> v[i] >= 0,
        forall|i: int| 0 <= i < v.len() ==> 0 <= #[trigger] m[i][j] <= b,
    ensures
        dot(v, m, j) <= seq_sum(v) * b,
    decreases v.len(),
{
    if v.len() == 0 {
    } else {
        lemma_dot_bound(v.drop_last(), m, j, b);
        let l = v.len() - 1;
        lemma_seq_sum_nonneg(v.drop_last());
        assert(seq_sum(v) == seq_sum(v.drop_last()) + v[l]);
        assert(v[l] * m[l][j] <= v[l] * b) by (nonlinear_arith)
            requires
                v[l] >= 0,
                0 <= m[l][j] <= b,
        ;
        assert((seq_sum(v.drop_last()) + v[l]) * b == seq_sum(v.drop_last()) * b + v[l] * b)
            by (nonlinear_arith);
    }
}

/// The all-ones vector of length `n` has sum `n`.
pub proof fn lemma_seq_sum_ones(n: nat)
    ensures
        seq_sum(Seq::new(n, |i: int| 1int)) == n,
    decreases n,
{
    if n > 0 {
        lemma_seq_sum_ones((n - 1) as nat);
        assert(Seq::new(n, |i: int| 1int).drop_last() =~= Seq::new((n - 1) as nat, |i: int| 1int));
    }
}

/// Sum of a pointwise sum of two sequences.
pub proof fn lemma_seq_sum_add(a: Seq<int>, b: Seq<int>, c: Seq<int>)
    requires
        a.len() == b.len() == c.len(),
        forall|j: int| 0 <= j < c.len() ==> c[j] == a[j] + b[j],
    ensures
        seq_sum(c) == seq_sum(a) + seq_sum(b),
    decreases c.len(),
{
    if c.len() > 0 {
        lemma_seq_sum_add(a.drop_last(), b.drop_last(), c.drop_last());
    }
}

/// Sum of a pointwise scaling of a sequence.
pub proof fn lemma_seq_sum_scale(a: Seq<int>, b: Seq<int>, c: int)
    requires
        a.len() == b.len(),
        forall|j: int| 0 <= j < b.len() ==> b[j] == c * a[j],
    ensures
        seq_sum(b) == c * seq_sum(a),
    decreases a.len(),
{
    if a.len() == 0 {
        assert(c * 0 == 0) by (nonlinear_arith);
    } else {
        lemma_seq_sum_scale(a.drop_last(), b.drop_last(), c);
        assert(c * seq_sum(a.drop_last()) + c * a.last() == c * (seq_sum(a.drop_last())
            + a.last())) by (nonlinear_arith);
    }
}

/// Exchanging the order of summation: adding up all the column dot products
/// gives the row totals weighted by `v`.
pub proof fn lemma_sum_of_dots(v: Seq<int>, m: Seq<Seq<int>>, cols: Seq<int>)
    requires
        v.len() <= m.len(),
        forall|i: int| 0 <= i < v.len() ==> #[trigger] m[i].len() == cols.len(),
        forall|j: int| 0 <= j < cols.len() ==> cols[j] == dot(v, m, j),
    ensures
        seq_sum(cols) == wsum(v, m),
    decreases v.len(),
{
    let n = cols.len() as int;
    if v.len() == 0 {
        lemma_seq_sum_scale(cols, cols.map_values(|x: int| 0 * x), 0);
        assert(seq_sum(cols) == seq_sum(cols.map_values(|x: int| 0 * x))) by {
            assert(cols =~= cols.map_values(|x: int| 0 * x)) by {
                assert forall|j: int| 0 <= j < n implies cols[j] == 0 * cols[j] by {
                    assert(0 * cols[j] == 0) by (nonlinear_arith);
                    assert(cols[j] == dot(v, m, j));
                }
            }
        }
        assert(0 * seq_sum(cols) == 0) by (nonlinear_arith);
    } else {
        let l = v.len() - 1;
        let prev = Seq::new(n as nat, |j: int| dot(v.drop_last(), m, j));
        let delta = Seq::new(n as nat, |j: int| v[l] * m[l][j]);
        lemma_sum_of_dots(v.drop_last(), m, prev);
        lemma_seq_sum_scale(m[l], delta, v[l]);
        lemma_seq_sum_add(prev, delta, cols);
    }
}

/// When every row of `m` has the same total `t`, the weighted row total
/// collapses to `t` times the total mass of `v`.
pub proof fn lemma_wsum_uniform_rows(v: Seq<int>, m: Seq<Seq<int>>, t: int)
    requires
        v.len() <= m.len(),
        forall|i: int| 0 <= i < v.len() ==> seq_sum(#[trigger] m[i]) == t,
    ensures
        wsum(v, m) == seq_sum(v) * t,
    decreases v.len(),
{
    if v.len() == 0 {
        assert(0 * t == 0) by (nonlinear_arith);
    } else {
        lemma_wsum_uniform_rows(v.drop_last(), m, t);
        assert(seq_sum(v.drop_last()) * t + v.last() * t == (seq_sum(v.drop_last()) + v.last())
            * t) by (nonlinear_arith);
    }
}

/// Propagation is linear: pushing a convex combination of two weight vectors
/// through the matrix gives the same combination of the two pushforwards.
pub proof fn lemma_dot_linear(
    c: Seq<int>,
    v1: Seq<int>,
    v2: Seq<int>,
    m: Seq<Seq<int>>,
    p: int,
    q: int,
    j: int,
)
    requires
        c.len() == v1.len() == v2.len(),
        forall|i: int| 0 <= i < c.len() ==> c[i] == p * v1[i] + q * v2[i],
    ensures
        dot(c, m, j) == p * dot(v1, m, j) + q * dot(v2, m, j),
    decreases c.len(),
{
    if c.len() == 0 {
        assert(p * 0 + q * 0 == 0) by (nonlinear_arith);
    } else {
        lemma_dot_linear(c.drop_last(), v1.drop_last(), v2.drop_last(), m, p, q, j);
        let l = c.len() - 1;
        let e = m[l][j];
        assert((p * v1[l] + q * v2[l]) * e == p * (v1[l] * e) + q * (v2[l] * e))
            by (nonlinear_arith);
        assert(p * (dot(v1.drop_last(), m, j) + v1[l] * e) == p * dot(v1.drop_last(), m, j) + p
            * (v1[l] * e)) by (nonlinear_arith);
        assert(q * (dot(v2.drop_last(), m, j) + v2[l] * e) == q * dot(v2.drop_last(), m, j) + q
            * (v2[l] * e)) by (nonlinear_arith);
    }
}

/// Product of an integer sequence.
pub open spec fn seq_prod(s: Seq<int>) -> int
    decreases s.len(),
{
    if s.len() == 0 {
        1
    } else {
        seq_prod(s.drop_last()) * s.last()
    }
}

/// Product of an integer sequence with the entry at index `skip` left out
/// (replaced by a factor of one).
pub open spec fn prod_skip(s: Seq<int>, skip: int) -> int
    decreases s.len(),
{
    if s.len() == 0 {
        1
    } else {
        prod_skip(s.drop_last(), skip) * (if s.len() - 1 == skip {
            1
        } else {
            s.last()
        })
    }
}

/// The weighted tally `sum_s c[s] * f[s] * w[s]`: tallies `c` of each state,
/// an observable `f`, and per-state weights `w`.
pub open spec fn weighted_tally(c: Seq<int>, f: Seq<int>, w: Seq<int>) -> int
    decreases c.len(),
{
    if c.len() == 0 {
        0
    } else {
        weighted_tally(c.drop_last(), f, w) + c.last() * f[c.len() - 1] * w[c.len() - 1]
    }
}

/// The total weight `sum_s c[s] * w[s]` carried by the tallies `c`.
pub open spec fn tally_mass(c: Seq<int>, w: Seq<int>) -> int
    decreases c.len(),
{
    if c.len() == 0 {
        0
    } else {
        tally_mass(c.drop_last(), w) + c.last() * w[c.len() - 1]
    }
}

pub proof fn lemma_seq_prod_take_succ(s: Seq<int>, k: int)
    requires
        0 <= k < s.len(),
    ensures
        seq_prod(s.take(k + 1)) == seq_prod(s.take(k)) * s[k],
{
    assert(s.take(k + 1).drop_last() =~= s.take(k));
}

pub proof fn lemma_prod_skip_take_succ(s: Seq<int>, skip: int, k: int)
    requires
        0 <= k < s.len(),
    ensures
        prod_skip(s.take(k + 1), skip) == prod_skip(s.take(k), skip) * (if k == skip {
            1int
        } else {
            s[k]
        }),
{
    assert(s.take(k + 1).drop_last() =~= s.take(k));
}

pub proof fn lemma_seq_prod_ge_one(s: Seq<int>)
    requires
        forall|i: int| 0 <= i < s.len() ==> s[i] >= 1,
    ensures
        seq_prod(s) >= 1,
    decreases s.len(),
{
    if s.len() > 0 {
        lemma_seq_prod_ge_one(s.drop_last());
        assert(seq_prod(s.drop_last()) * s.last() >= 1) by (nonlinear_arith)
            requires
                seq_prod(s.drop_last()) >= 1,
                s.last() >= 1,
        ;
    }
}

pub proof fn lemma_seq_prod_take_le(s: Seq<int>, k: int)
    requires
        0 <= k <= s.len(),
        forall|i: int| 0 <= i < s.len() ==> s[i] >= 1,
    ensures
        seq_prod(s.take(k)) <= seq_prod(s),
    decreases s.len() - k,
{
    if k < s.len() {
        lemma_seq_prod_take_succ(s, k);
        lemma_seq_prod_take_le(s, k + 1);
        assert(forall|i: int| 0 <= i < s.take(k).len() ==> s.take(k)[i] >= 1);
        lemma_seq_prod_ge_one(s.take(k));
        assert(seq_prod(s.take(k)) <= seq_prod(s.take(k)) * s[k]) by (nonlinear_arith)
            requires
                seq_prod(s.take(k)) >= 1,
                s[k] >= 1,
        ;
    } else {
        assert(s.take(k) =~= s);
    }
}

pub proof fn lemma_prod_skip_ge_one(s: Seq<int>, skip: int)
    requires
        forall|i: int| 0 <= i < s.len() ==> s[i] >= 1,
    ensures
        prod_skip(s, skip) >= 1,
    decreases s.len(),
{
    if s.len() > 0 {
        lemma_prod_skip_ge_one(s.drop_last(), skip);
        let a = if s.len() - 1 == skip {
            1int
        } else {
            s.last()
        };
        assert(prod_skip(s.drop_last(), skip) * a >= 1) by (nonlinear_arith)
            requires
                prod_skip(s.drop_last(), skip) >= 1,
                a >= 1,
        ;
    }
}

/// Leaving a factor out of a product of entries that are at least one can
/// only shrink it.
pub proof fn lemma_prod_skip_le_prod(s: Seq<int>, skip: int)
    requires
        forall|i: int| 0 <= i < s.len() ==> s[i] >= 1,
    ensures
        prod_skip(s, skip) <= seq_prod(s),
    decreases s.len(),
{
    if s.len() > 0 {
        lemma_prod_skip_le_prod(s.drop_last(), skip);
        lemma_prod_skip_ge_one(s.drop_last(), skip);
        let a = if s.len() - 1 == skip {
            1int
        } else {
            s.last()
        };
        assert(prod_skip(s.drop_last(), skip) * a <= seq_prod(s.drop_last()) * s.last())
            by (nonlinear_arith)
            requires
                1 <= prod_skip(s.drop_last(), skip) <= seq_prod(s.drop_last()),
                1 <= a <= s.last(),
        ;
    }
}

pub proof fn lemma_tally_take_succ(c: Seq<int>, f: Seq<int>, w: Seq<int>, k: int)
    requires
        0 <= k < c.len(),
    ensures
        weighted_tally(c.take(k + 1), f, w) == weighted_tally(c.take(k), f, w) + c[k] * f[k]
            * w[k],
        tally_mass(c.take(k + 1), w) == tally_mass(c.take(k), w) + c[k] * w[k],
{
    assert(c.take(k + 1).drop_last() =~= c.take(k));
}

/// Bounds on the tallies: the numerator is bounded by the total tally count
/// times the largest magnitude a term can have, and the denominator lies
/// between the tally count and the count times the largest weight.
pub proof fn lemma_tally_bounds(c: Seq<int>, f: Seq<int>, w: Seq<int>, bf: int, bw: int)
    requires
        c.len() <= f.len(),
        c.len() <= w.len(),
        bf >= 0,
        bw >= 0,
        forall|s: int| 0 <= s < c.len() ==> c[s] >= 0,
        forall|s: int| 0 <= s < c.len() ==> -bf <= #[trigger] f[s] <= bf,
        forall|s: int| 0 <= s < c.len() ==> 1 <= #[trigger] w[s] <= bw,
    ensures
        -(seq_sum(c) * bf * bw) <= weighted_tally(c, f, w) <= seq_sum(c) * bf * bw,
        seq_sum(c) <= tally_mass(c, w) <= seq_sum(c) * bw,
    decreases c.len(),
{
    if c.len() > 0 {
        lemma_tally_bounds(c.drop_last(), f, w, bf, bw);
        let l = c.len() - 1;
        let sp = seq_sum(c.drop_last());
        assert(-(c[l] * bf * bw) <= c[l] * f[l] * w[l] <= c[l] * bf * bw) by (nonlinear_arith)
            requires
                c[l] >= 0,
                -bf <= f[l] <= bf,
                1 <= w[l] <= bw,
        ;
        assert((sp + c[l]) * bf * bw == sp * bf * bw + c[l] * bf * bw) by (nonlinear_arith);
        assert(c[l] <= c[l] * w[l] <= c[l] * bw) by (nonlinear_arith)
            requires
                c[l] >= 0,
                1 <= w[l] <= bw,
        ;
        assert((sp + c[l]) * bw == sp * bw + c[l] * bw) by (nonlinear_arith);
    }
}

/// Scaling every weight by a common factor scales both tallies by it.
pub proof fn lemma_tally_scale(c: Seq<int>, f: Seq<int>, w: Seq<int>, wb: Seq<int>, b: int)
    requires
        c.len() <= f.len(),
        c.len() <= w.len(),
        c.len() <= wb.len(),
        forall|s: int| 0 <= s < c.len() ==> #[trigger] wb[s] == b * w[s],
    ensures
        weighted_tally(c, f, wb) == b * weighted_tally(c, f, w),
        tally_mass(c, wb) == b * tally_mass(c, w),
    decreases c.len(),
{
    if c.len() == 0 {
        assert(b * 0 == 0) by (nonlinear_arith);
    } else {
        lemma_tally_scale(c.drop_last(), f, w, wb, b);
        let l = c.len() - 1;
        assert(c[l] * f[l] * (b * w[l]) == b * (c[l] * f[l] * w[l])) by (nonlinear_arith);
        assert(b * weighted_tally(c.drop_last(), f, w) + b * (c[l] * f[l] * w[l]) == b * (
        weighted_tally(c.drop_last(), f, w) + c[l] * f[l] * w[l])) by (nonlinear_arith);
        assert(c[l] * (b * w[l]) == b * (c[l] * w[l])) by (nonlinear_arith);
        assert(b * tally_mass(c.drop_last(), w) + b * (c[l] * w[l]) == b * (tally_mass(
            c.drop_last(),
            w,
        ) + c[l] * w[l])) by (nonlinear_arith);
    }
}

/// A sum within tolerance of `d` is at most `2 * d`.
pub proof fn lemma_within_tolerance_upper(s: int, d: int)
    requires
        within_tolerance(s, d),
        d >= 1,
    ensures
        s <= 2 * d,
{
    let k = TOLERANCE_DENOMINATOR as int;
    if s > 2 * d {
        assert((s - d) * k > d) by (nonlinear_arith)
            requires
                s - d > d,
                d >= 1,
                k >= 2,
        ;
    }
}

} // verus!
