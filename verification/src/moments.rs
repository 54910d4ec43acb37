//! Moment estimates.
use crate::reading::{exact, sum_reads_exactly, total};
use crate::scalar::{sum_to, Scalar};
use vstd::prelude::*;

verus! {

/// The entries of a sequence, as the terms of a sum.
pub open spec fn entries<S: Scalar>(y: Seq<S>) -> spec_fn(int) -> S {
    |i: int| y[i]
}

/// The squared distances from `center`, as the terms of a sum.
pub open spec fn squared_distances<S: Scalar>(y: Seq<S>, center: S) -> spec_fn(int) -> S {
    |i: int| y[i].less(center).product(y[i].less(center))
}

/// The mean.
pub open spec fn mean<S: Scalar>(y: Seq<S>) -> S {
    sum_to(y.len(), entries(y)).quotient(S::count_of(y.len() as usize))
}

/// The variance about the mean, over one less than the number of entries.
pub open spec fn variance<S: Scalar>(y: Seq<S>) -> S {
    sum_to(y.len(), squared_distances(y, mean(y))).quotient(S::count_of((y.len() - 1) as usize))
}

/// The dispersion that the mean and the variance of counts give a negative
/// binomial: the squared mean over the excess variance, where the excess is at
/// least `floor`, moved into the range from `lo` to `hi`.
pub fn nb_theta_moment_seed<S: Scalar>(y: &[S], n: usize, floor: S, lo: S, hi: S) -> (r: S)
    requires
        n == y@.len(),
        n >= 1,
    ensures
        r == mean(y@).product(mean(y@)).quotient(
            variance(y@).less(mean(y@)).larger(floor),
        ).clamped(lo, hi),
{
    let ghost f = entries(y@);
    let mut total: S = S::zero();
    let mut i: usize = 0;
    while i < n
        invariant
            i <= n,
            n == y@.len(),
            f == entries(y@),
            total == sum_to(i as nat, f),
        decreases n - i,
    {
        total = total.plus(y[i]);
        i = i + 1;
    }
    let mean: S = total.over(S::from_count(n));
    let ghost g = squared_distances(y@, mean);
    let mut squares: S = S::zero();
    let mut k: usize = 0;
    while k < n
        invariant
            k <= n,
            n == y@.len(),
            g == squared_distances(y@, mean),
            squares == sum_to(k as nat, g),
        decreases n - k,
    {
        let d: S = y[k].minus(mean);
        squares = squares.plus(d.times(d));
        k = k + 1;
    }
    let var: S = squares.over(S::from_count(n - 1));
    mean.times(mean).over(var.minus(mean).max_with(floor)).clamp_to(lo, hi)
}

/// Weighted squared Pearson residuals, as the terms of a sum: the distance of a
/// response from its mean over the root of its variance function.
pub open spec fn pearson_terms<S: Scalar>(
    y: Seq<S>,
    mu: Seq<S>,
    variance: Seq<S>,
    weights: Seq<S>,
) -> spec_fn(int) -> S {
    |i: int|
        weights[i].product(
            y[i].less(mu[i]).quotient(variance[i].root()).product(
                y[i].less(mu[i]).quotient(variance[i].root()),
            ),
        )
}

/// The sum of the weighted squared Pearson residuals of the first `n` rows.
pub fn pearson_sum<S: Scalar>(
    y: &[S],
    mu: &[S],
    variance: &[S],
    weights: &[S],
    n: usize,
) -> (r: S)
    requires
        n <= y@.len(),
        n <= mu@.len(),
        n <= variance@.len(),
        n <= weights@.len(),
    ensures
        r == sum_to(n as nat, pearson_terms(y@, mu@, variance@, weights@)),
{
    let ghost f = pearson_terms(y@, mu@, variance@, weights@);
    let mut total: S = S::zero();
    let mut i: usize = 0;
    while i < n
        invariant
            i <= n,
            n <= y@.len(),
            n <= mu@.len(),
            n <= variance@.len(),
            n <= weights@.len(),
            f == pearson_terms(y@, mu@, variance@, weights@),
            total == sum_to(i as nat, f),
        decreases n - i,
    {
        let d: S = y[i].minus(mu[i]).over(variance[i].sqrt());
        total = total.plus(weights[i].times(d.times(d)));
        i = i + 1;
    }
    total
}

/// Squares, as the terms of a sum.
pub open spec fn squares<S: Scalar>(u: Seq<S>) -> spec_fn(int) -> S {
    |i: int| u[i].product(u[i])
}

/// The sum of the first `n` squares.
pub fn square_sum<S: Scalar>(u: &[S], n: usize) -> (r: S)
    requires
        n <= u@.len(),
    ensures
        r == sum_to(n as nat, squares(u@)),
{
    let ghost f = squares(u@);
    let mut total: S = S::zero();
    let mut i: usize = 0;
    while i < n
        invariant
            i <= n,
            n <= u@.len(),
            f == squares(u@),
            total == sum_to(i as nat, f),
        decreases n - i,
    {
        total = total.plus(u[i].times(u[i]));
        i = i + 1;
    }
    total
}

/// The mean times the number of entries is their sum, and the variance times one less than
/// that number is the sum of the squared distances from the mean.
pub proof fn moments_are_averages<S: Scalar>(value: spec_fn(S) -> real, y: Seq<S>)
    requires
        exact(value),
        forall|i: int| 0 <= i < y.len() ==> (#[trigger] y[i]).finite(),
        1 <= y.len() <= usize::MAX,
    ensures
        mean(y).finite(),
        value(mean(y)) * (y.len() as real) == total(y.len(), |i: int| value(y[i])),
        y.len() >= 2 ==> variance(y).finite() && value(variance(y)) * ((y.len() - 1) as real)
            == total(
            y.len(),
            |i: int| (value(y[i]) - value(mean(y))) * (value(y[i]) - value(mean(y))),
        ),
{
    let n = y.len();
    let f = entries(y);
    let vf = |i: int| value(y[i]);
    assert forall|i: int| 0 <= i < n implies (#[trigger] f(i)).finite() && value(f(i)) == vf(i) by {
        assert(y[i].finite());
    }
    sum_reads_exactly(value, n, f, vf);
    let a = value(sum_to(n, f));
    let c = n as real;
    assert(c != 0real);
    assert((a / c) * c == a) by (nonlinear_arith)
        requires
            c != 0real,
    ;
    if n >= 2 {
        let m = mean(y);
        let g = squared_distances(y, m);
        let vg = |i: int| (value(y[i]) - value(m)) * (value(y[i]) - value(m));
        assert forall|i: int| 0 <= i < n implies (#[trigger] g(i)).finite() && value(g(i)) == vg(
            i,
        ) by {
            assert(y[i].finite());
        }
        sum_reads_exactly(value, n, g, vg);
        let b = value(sum_to(n, g));
        let k = (n - 1) as real;
        assert(k != 0real);
        assert((b / k) * k == b) by (nonlinear_arith)
            requires
                k != 0real,
        ;
    }
}

/// The numbers of a row are finite, its variance function is positive and has an exact
/// root.
pub open spec fn residual_reads<S: Scalar>(
    value: spec_fn(S) -> real,
    y: S,
    mu: S,
    variance: S,
    weight: S,
) -> bool {
    &&& y.finite() && mu.finite() && weight.finite()
    &&& variance.finite() && variance.root().finite()
    &&& value(variance) > 0real
    &&& value(variance.root()) * value(variance.root()) == value(variance)
}

/// The Pearson statistic: the squared distance of each response from its mean over its
/// variance function, times its weight, added up over the rows.
pub proof fn pearson_statistic_weighs_squared_residuals<S: Scalar>(
    value: spec_fn(S) -> real,
    y: Seq<S>,
    mu: Seq<S>,
    variance: Seq<S>,
    weights: Seq<S>,
    n: nat,
)
    requires
        exact(value),
        forall|i: int|
            0 <= i < n ==> #[trigger] residual_reads(
                value,
                y[i],
                mu[i],
                variance[i],
                weights[i],
            ),
    ensures
        sum_to(n, pearson_terms(y, mu, variance, weights)).finite(),
        value(sum_to(n, pearson_terms(y, mu, variance, weights))) == total(
            n,
            |i: int|
                value(weights[i]) * (value(y[i]) - value(mu[i])) * (value(y[i]) - value(mu[i]))
                    / value(variance[i]),
        ),
{
    let f = pearson_terms(y, mu, variance, weights);
    let g = |i: int|
        value(weights[i]) * (value(y[i]) - value(mu[i])) * (value(y[i]) - value(mu[i])) / value(
            variance[i],
        );
    assert forall|i: int| 0 <= i < n implies (#[trigger] f(i)).finite() && value(f(i)) == g(i) by {
        let s = variance[i].root();
        assert(residual_reads(value, y[i], mu[i], variance[i], weights[i]));
        let d = value(y[i]) - value(mu[i]);
        let w = value(weights[i]);
        let r = value(s);
        let v = value(variance[i]);
        assert(r != 0real) by (nonlinear_arith)
            requires
                r * r == v,
                v > 0real,
        ;
        assert(w * ((d / r) * (d / r)) == w * d * d / v) by (nonlinear_arith)
            requires
                r * r == v,
                v > 0real,
                r != 0real,
        ;
    }
    sum_reads_exactly(value, n, f, g);
}

/// A sum of squares is the squares added up.
pub proof fn squares_add_up<S: Scalar>(value: spec_fn(S) -> real, u: Seq<S>, n: nat)
    requires
        exact(value),
        n <= u.len(),
        forall|i: int| 0 <= i < n ==> (#[trigger] u[i]).finite(),
    ensures
        sum_to(n, squares(u)).finite(),
        value(sum_to(n, squares(u))) == total(n, |i: int| value(u[i]) * value(u[i])),
{
    let f = squares(u);
    let g = |i: int| value(u[i]) * value(u[i]);
    assert forall|i: int| 0 <= i < n implies (#[trigger] f(i)).finite() && value(f(i)) == g(i) by {
        assert(u[i].finite());
    }
    sum_reads_exactly(value, n, f, g);
}

} // verus!
