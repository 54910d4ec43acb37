//! Exact arithmetic: what the numbers of a fit are, read as real numbers.
use crate::scalar::{diff_from, sum_from, sum_to, Scalar};
use vstd::prelude::*;

verus! {

/// `value` reads the finite numbers as real numbers, and the operations on them are
/// exact: the type rounds nothing, and a number that it cannot hold is not finite.
pub open spec fn exact<S: Scalar>(value: spec_fn(S) -> real) -> bool {
    &&& S::zero_of().finite() && value(S::zero_of()) == 0real
    &&& S::one_of().finite() && value(S::one_of()) == 1real
    &&& forall|n: usize| (#[trigger] S::count_of(n)).finite() && value(S::count_of(n)) == n as real
    &&& forall|a: S, b: S|
        a.finite() && b.finite() ==> (#[trigger] a.sum_with(b)).finite() && value(a.sum_with(b))
            == value(a) + value(b)
    &&& forall|a: S, b: S|
        a.finite() && b.finite() ==> (#[trigger] a.less(b)).finite() && value(a.less(b))
            == value(a) - value(b)
    &&& forall|a: S, b: S|
        a.finite() && b.finite() ==> (#[trigger] a.product(b)).finite() && value(a.product(b))
            == value(a) * value(b)
    &&& forall|a: S, b: S|
        a.finite() && b.finite() && value(b) != 0real ==> (#[trigger] a.quotient(b)).finite()
            && value(a.quotient(b)) == value(a) / value(b)
    &&& forall|a: S|
        a.finite() ==> (#[trigger] a.minus_half()).finite() && value(a.minus_half()) == -value(a)
            / 2real
    &&& forall|a: S|
        a.finite() ==> (#[trigger] a.nought() <==> value(a) == 0real)
    &&& forall|a: S| a.finite() ==> (#[trigger] a.unit() <==> value(a) == 1real)
    &&& forall|a: S| a.finite() ==> (#[trigger] a.nonneg() <==> value(a) >= 0real)
}

/// `f(0) + f(1) + .. + f(n - 1)`.
pub open spec fn total(n: nat, f: spec_fn(int) -> real) -> real
    decreases n,
{
    if n == 0 {
        0real
    } else {
        total((n - 1) as nat, f) + f(n - 1)
    }
}

/// A sum reads as the sum of its terms.
pub proof fn sum_reads_exactly<S: Scalar>(
    value: spec_fn(S) -> real,
    n: nat,
    f: spec_fn(int) -> S,
    g: spec_fn(int) -> real,
)
    requires
        exact(value),
        forall|k: int| 0 <= k < n ==> (#[trigger] f(k)).finite() && value(f(k)) == g(k),
    ensures
        sum_to(n, f).finite(),
        value(sum_to(n, f)) == total(n, g),
    decreases n,
{
    if n > 0 {
        sum_reads_exactly(value, (n - 1) as nat, f, g);
        assert(f(n - 1).finite());
    }
}

/// A sum onto a start reads as the start and the sum of the terms.
pub proof fn sum_from_reads_exactly<S: Scalar>(
    value: spec_fn(S) -> real,
    start: S,
    n: nat,
    f: spec_fn(int) -> S,
    g: spec_fn(int) -> real,
)
    requires
        exact(value),
        start.finite(),
        forall|k: int| 0 <= k < n ==> (#[trigger] f(k)).finite() && value(f(k)) == g(k),
    ensures
        sum_from(start, n, f).finite(),
        value(sum_from(start, n, f)) == value(start) + total(n, g),
    decreases n,
{
    if n > 0 {
        sum_from_reads_exactly(value, start, (n - 1) as nat, f, g);
        assert(f(n - 1).finite());
    }
}

/// A difference reads as the start without the sum of the terms.
pub proof fn diff_from_reads_exactly<S: Scalar>(
    value: spec_fn(S) -> real,
    start: S,
    n: nat,
    f: spec_fn(int) -> S,
    g: spec_fn(int) -> real,
)
    requires
        exact(value),
        start.finite(),
        forall|k: int| 0 <= k < n ==> (#[trigger] f(k)).finite() && value(f(k)) == g(k),
    ensures
        diff_from(start, n, f).finite(),
        value(diff_from(start, n, f)) == value(start) - total(n, g),
    decreases n,
{
    if n > 0 {
        diff_from_reads_exactly(value, start, (n - 1) as nat, f, g);
        assert(f(n - 1).finite());
    }
}

/// Equal terms have equal sums, whatever the arithmetic.
pub proof fn lemma_sum_equal<S: Scalar>(n: nat, f: spec_fn(int) -> S, g: spec_fn(int) -> S)
    requires
        forall|k: int| 0 <= k < n ==> #[trigger] f(k) == g(k),
    ensures
        sum_to(n, f) == sum_to(n, g),
    decreases n,
{
    if n > 0 {
        lemma_sum_equal((n - 1) as nat, f, g);
        assert(f(n - 1) == g(n - 1));
    }
}

/// Equal terms have equal sums onto one start, whatever the arithmetic.
pub proof fn lemma_sum_from_equal<S: Scalar>(
    start: S,
    n: nat,
    f: spec_fn(int) -> S,
    g: spec_fn(int) -> S,
)
    requires
        forall|k: int| 0 <= k < n ==> #[trigger] f(k) == g(k),
    ensures
        sum_from(start, n, f) == sum_from(start, n, g),
    decreases n,
{
    if n > 0 {
        lemma_sum_from_equal(start, (n - 1) as nat, f, g);
        assert(f(n - 1) == g(n - 1));
    }
}

/// Equal terms have equal sums.
pub proof fn lemma_total_equal(n: nat, f: spec_fn(int) -> real, g: spec_fn(int) -> real)
    requires
        forall|k: int| 0 <= k < n ==> #[trigger] f(k) == g(k),
    ensures
        total(n, f) == total(n, g),
    decreases n,
{
    if n > 0 {
        lemma_total_equal((n - 1) as nat, f, g);
        assert(f(n - 1) == g(n - 1));
    }
}

/// A sum without terms other than zero is zero.
pub proof fn lemma_total_zero(n: nat, f: spec_fn(int) -> real)
    requires
        forall|k: int| 0 <= k < n ==> #[trigger] f(k) == 0real,
    ensures
        total(n, f) == 0real,
    decreases n,
{
    if n > 0 {
        lemma_total_zero((n - 1) as nat, f);
        assert(f(n - 1) == 0real);
    }
}

/// Terms past the first `m` that are zero add nothing.
pub proof fn lemma_total_prefix(m: nat, n: nat, f: spec_fn(int) -> real)
    requires
        m <= n,
        forall|k: int| m <= k < n ==> #[trigger] f(k) == 0real,
    ensures
        total(n, f) == total(m, f),
    decreases n,
{
    if m < n {
        lemma_total_prefix(m, (n - 1) as nat, f);
        assert(f(n - 1) == 0real);
    }
}

/// One term other than zero is the sum.
pub proof fn lemma_total_single(n: nat, at: int, f: spec_fn(int) -> real)
    requires
        0 <= at < n,
        forall|k: int| 0 <= k < n && k != at ==> #[trigger] f(k) == 0real,
    ensures
        total(n, f) == f(at),
    decreases n,
{
    if at < n - 1 {
        lemma_total_single((n - 1) as nat, at, f);
        assert(f(n - 1) == 0real);
    } else {
        lemma_total_zero((n - 1) as nat, f);
    }
}

/// Sums are added term by term.
pub proof fn lemma_total_add(
    n: nat,
    f: spec_fn(int) -> real,
    g: spec_fn(int) -> real,
    h: spec_fn(int) -> real,
)
    requires
        forall|k: int| 0 <= k < n ==> #[trigger] h(k) == f(k) + g(k),
    ensures
        total(n, h) == total(n, f) + total(n, g),
    decreases n,
{
    if n > 0 {
        lemma_total_add((n - 1) as nat, f, g, h);
        assert(h(n - 1) == f(n - 1) + g(n - 1));
    }
}

/// A sum of multiples is the multiple of the sum.
pub proof fn lemma_total_scaled(
    n: nat,
    c: real,
    f: spec_fn(int) -> real,
    g: spec_fn(int) -> real,
)
    requires
        forall|k: int| 0 <= k < n ==> #[trigger] g(k) == c * f(k),
    ensures
        total(n, g) == c * total(n, f),
    decreases n,
{
    if n > 0 {
        lemma_total_scaled((n - 1) as nat, c, f, g);
        assert(g(n - 1) == c * f(n - 1));
        let a = total((n - 1) as nat, f);
        let b = f(n - 1);
        assert(c * a + c * b == c * (a + b)) by (nonlinear_arith);
    } else {
        assert(c * 0real == 0real) by (nonlinear_arith);
    }
}

/// The order of two sums does not matter.
pub proof fn lemma_total_swap(m: nat, n: nat, f: spec_fn(int, int) -> real)
    ensures
        total(m, |i: int| total(n, |j: int| f(i, j))) == total(
            n,
            |j: int| total(m, |i: int| f(i, j)),
        ),
    decreases m,
{
    let rows = |i: int| total(n, |j: int| f(i, j));
    let cols = |j: int| total(m, |i: int| f(i, j));
    if m == 0 {
        lemma_total_zero(n, cols);
    } else {
        lemma_total_swap((m - 1) as nat, n, f);
        let before = |j: int| total((m - 1) as nat, |i: int| f(i, j));
        let last = |j: int| f(m - 1, j);
        lemma_total_add(n, before, last, cols);
    }
}

/// The product of two square matrices of `n` rows.
pub open spec fn matrix_product(
    n: nat,
    a: spec_fn(int, int) -> real,
    b: spec_fn(int, int) -> real,
) -> spec_fn(int, int) -> real {
    |i: int, j: int| total(n, |k: int| a(i, k) * b(k, j))
}

/// Products of matrices are associative.
pub proof fn lemma_matrix_associative(
    n: nat,
    a: spec_fn(int, int) -> real,
    b: spec_fn(int, int) -> real,
    c: spec_fn(int, int) -> real,
    i: int,
    j: int,
)
    ensures
        matrix_product(n, matrix_product(n, a, b), c)(i, j) == matrix_product(
            n,
            a,
            matrix_product(n, b, c),
        )(i, j),
{
    let f = |m: int, k: int| a(i, k) * b(k, m) * c(m, j);
    // By m, then by k.
    let left = |m: int| matrix_product(n, a, b)(i, m) * c(m, j);
    let rows = |m: int| total(n, |k: int| f(m, k));
    assert forall|m: int| 0 <= m < n implies #[trigger] left(m) == rows(m) by {
        let inner = |k: int| a(i, k) * b(k, m);
        let scaled = |k: int| f(m, k);
        let x = c(m, j);
        assert forall|k: int| 0 <= k < n implies #[trigger] scaled(k) == x * inner(k) by {
            let y = inner(k);
            assert(y * x == x * y) by (nonlinear_arith);
        }
        lemma_total_scaled(n, x, inner, scaled);
        let t = total(n, inner);
        assert(t * x == x * t) by (nonlinear_arith);
    }
    lemma_total_equal(n, left, rows);
    lemma_total_swap(n, n, f);
    let cols = |k: int| total(n, |m: int| f(m, k));
    let right = |k: int| a(i, k) * matrix_product(n, b, c)(k, j);
    assert forall|k: int| 0 <= k < n implies #[trigger] cols(k) == right(k) by {
        let inner = |m: int| b(k, m) * c(m, j);
        let scaled = |m: int| f(m, k);
        let x = a(i, k);
        assert forall|m: int| 0 <= m < n implies #[trigger] scaled(m) == x * inner(m) by {
            let y = b(k, m);
            let z = c(m, j);
            assert(x * y * z == x * (y * z)) by (nonlinear_arith);
        }
        lemma_total_scaled(n, x, inner, scaled);
    }
    lemma_total_equal(n, cols, right);
}

} // verus!
