//! The number type that fits are expressed in.
use vstd::prelude::*;

verus! {

/// A number as the fit bookkeeping uses it: a few arithmetic operations, an
/// undefined value, and the tests that decide what is reported.
///
/// Each operation is a function of its arguments and nothing else. No algebraic
/// law is asked for, so rounding arithmetic is a model as good as exact
/// arithmetic is.
pub trait Scalar: Copy {
    /// The value of [`Scalar::zero`].
    spec fn zero_of() -> Self;

    /// The value of [`Scalar::one`].
    spec fn one_of() -> Self;

    /// The value of [`Scalar::nan`].
    spec fn nan_of() -> Self;

    /// The value of [`Scalar::infinity`].
    spec fn infinity_of() -> Self;

    /// The value of [`Scalar::one_plus_ln_two_pi`].
    spec fn one_plus_ln_two_pi_of() -> Self;

    /// The number that [`Scalar::from_count`] makes of `n`.
    spec fn count_of(n: usize) -> Self;

    /// `self + rhs`.
    spec fn sum_with(self, rhs: Self) -> Self;

    /// `self - rhs`.
    spec fn less(self, rhs: Self) -> Self;

    /// `self * rhs`.
    spec fn product(self, rhs: Self) -> Self;

    /// `self / rhs`.
    spec fn quotient(self, rhs: Self) -> Self;

    /// The square root.
    spec fn root(self) -> Self;

    /// The natural logarithm.
    spec fn logarithm(self) -> Self;

    /// `-self / 2`.
    spec fn minus_half(self) -> Self;

    /// The larger of the two; the other one where one is undefined.
    spec fn larger(self, rhs: Self) -> Self;

    /// The number moved into the range from `lo` to `hi`.
    spec fn clamped(self, lo: Self, hi: Self) -> Self;

    /// Neither infinite nor undefined.
    spec fn finite(self) -> bool;

    /// At least zero; false of the undefined value.
    spec fn nonneg(self) -> bool;

    /// Equal to zero.
    spec fn nought(self) -> bool;

    /// Equal to one.
    spec fn unit(self) -> bool;

    /// The number 0.
    fn zero() -> (r: Self)
        ensures
            r == Self::zero_of(),
    ;

    /// The number 1.
    fn one() -> (r: Self)
        ensures
            r == Self::one_of(),
    ;

    /// The value that marks a quantity nobody computed.
    fn nan() -> (r: Self)
        ensures
            r == Self::nan_of(),
    ;

    /// What a criterion is at a point that cannot be reached.
    fn infinity() -> (r: Self)
        ensures
            r == Self::infinity_of(),
    ;

    /// The constant `1 + ln(2 pi)` of a Gaussian log-likelihood.
    fn one_plus_ln_two_pi() -> (r: Self)
        ensures
            r == Self::one_plus_ln_two_pi_of(),
    ;

    /// The number `n`.
    fn from_count(n: usize) -> (r: Self)
        ensures
            r == Self::count_of(n),
    ;

    /// Addition.
    fn plus(self, rhs: Self) -> (r: Self)
        ensures
            r == self.sum_with(rhs),
    ;

    /// Subtraction.
    fn minus(self, rhs: Self) -> (r: Self)
        ensures
            r == self.less(rhs),
    ;

    /// Multiplication.
    fn times(self, rhs: Self) -> (r: Self)
        ensures
            r == self.product(rhs),
    ;

    /// Division.
    fn over(self, rhs: Self) -> (r: Self)
        ensures
            r == self.quotient(rhs),
    ;

    /// Square root.
    fn sqrt(self) -> (r: Self)
        ensures
            r == self.root(),
    ;

    /// Natural logarithm.
    fn ln(self) -> (r: Self)
        ensures
            r == self.logarithm(),
    ;

    /// Half of the number, with the other sign.
    fn neg_half(self) -> (r: Self)
        ensures
            r == self.minus_half(),
    ;

    /// The larger of the two numbers.
    fn max_with(self, rhs: Self) -> (r: Self)
        ensures
            r == self.larger(rhs),
    ;

    /// The number moved into the range from `lo` to `hi`.
    fn clamp_to(self, lo: Self, hi: Self) -> (r: Self)
        ensures
            r == self.clamped(lo, hi),
    ;

    /// Whether the number is neither infinite nor undefined.
    fn is_finite(self) -> (r: bool)
        ensures
            r == self.finite(),
    ;

    /// Whether the number is at least zero.
    fn is_nonneg(self) -> (r: bool)
        ensures
            r == self.nonneg(),
    ;

    /// Whether the number is zero.
    fn is_zero(self) -> (r: bool)
        ensures
            r == self.nought(),
    ;

    /// Whether the number is one.
    fn is_one(self) -> (r: bool)
        ensures
            r == self.unit(),
    ;
}

/// `f(0) + f(1) + .. + f(n - 1)`, added from the left onto zero.
pub open spec fn sum_to<S: Scalar>(n: nat, f: spec_fn(int) -> S) -> S
    decreases n,
{
    if n == 0 {
        S::zero_of()
    } else {
        sum_to((n - 1) as nat, f).sum_with(f(n - 1))
    }
}

/// `start + f(0) + f(1) + .. + f(n - 1)`, added from the left.
pub open spec fn sum_from<S: Scalar>(start: S, n: nat, f: spec_fn(int) -> S) -> S
    decreases n,
{
    if n == 0 {
        start
    } else {
        sum_from(start, (n - 1) as nat, f).sum_with(f(n - 1))
    }
}

/// `start - f(0) - f(1) - .. - f(n - 1)`, subtracted from the left.
pub open spec fn diff_from<S: Scalar>(start: S, n: nat, f: spec_fn(int) -> S) -> S
    decreases n,
{
    if n == 0 {
        start
    } else {
        diff_from(start, (n - 1) as nat, f).less(f(n - 1))
    }
}

/// `n` copies of `v`.
pub open spec fn constant<T>(n: nat, v: T) -> Seq<T> {
    Seq::new(n, |i: int| v)
}

/// The contents of a vector of vectors.
pub open spec fn rows<T>(v: Seq<Vec<T>>) -> Seq<Seq<T>> {
    Seq::new(v.len(), |i: int| v[i]@)
}

/// A vector of `n` copies of `v`.
pub fn filled<T: Copy>(n: usize, v: T) -> (r: Vec<T>)
    ensures
        r@ == constant(n as nat, v),
{
    let mut out: Vec<T> = Vec::with_capacity(n);
    let mut i: usize = 0;
    while i < n
        invariant
            i <= n,
            out@ == constant(i as nat, v),
        decreases n - i,
    {
        out.push(v);
        i = i + 1;
    }
    out
}

/// A copy of a slice.
pub fn copied<T: Copy>(s: &[T]) -> (r: Vec<T>)
    ensures
        r@ == s@,
{
    let mut out: Vec<T> = Vec::with_capacity(s.len());
    let mut i: usize = 0;
    while i < s.len()
        invariant
            i <= s.len(),
            out@ == s@.take(i as int),
        decreases s.len() - i,
    {
        out.push(s[i]);
        i = i + 1;
    }
    assert(s@.take(s@.len() as int) == s@);
    out
}

/// A copy of a slice of vectors.
pub fn copied_rows<T: Copy>(s: &[Vec<T>]) -> (r: Vec<Vec<T>>)
    ensures
        rows(r@) == rows(s@),
{
    let mut out: Vec<Vec<T>> = Vec::with_capacity(s.len());
    let mut i: usize = 0;
    while i < s.len()
        invariant
            i <= s.len(),
            out@.len() == i,
            forall|k: int| 0 <= k < i ==> out@[k]@ == s@[k]@,
        decreases s.len() - i,
    {
        out.push(copied(s[i].as_slice()));
        i = i + 1;
    }
    out
}

/// Copies of a value are that many, and each is the value.
pub proof fn copies_repeat<T>(n: nat, v: T, i: int)
    ensures
        constant(n, v).len() == n,
        0 <= i < n ==> constant(n, v)[i] == v,
{
}

/// The contents of a vector of vectors stand in its order.
pub proof fn contents_keep_their_order<T>(v: Seq<Vec<T>>, i: int)
    ensures
        rows(v).len() == v.len(),
        0 <= i < v.len() ==> rows(v)[i] == v[i]@,
{
}

/// Sums and differences are taken from the left, one term at a time, from their start.
pub proof fn terms_are_taken_from_the_left<S: Scalar>(start: S, n: nat, f: spec_fn(int) -> S)
    ensures
        sum_to(0, f) == S::zero_of(),
        sum_from(start, 0, f) == start,
        diff_from(start, 0, f) == start,
        sum_to(n + 1, f) == sum_to(n, f).sum_with(f(n as int)),
        sum_from(start, n + 1, f) == sum_from(start, n, f).sum_with(f(n as int)),
        diff_from(start, n + 1, f) == diff_from(start, n, f).less(f(n as int)),
{
}

} // verus!
