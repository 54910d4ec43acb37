//! Exact arithmetic on whole numbers.
use crate::scalar::Scalar;
use vstd::prelude::*;

verus! {

/// A whole number, or undefined where an operation has no exact whole result
/// that fits in 64 bits.
#[derive(Clone, Copy, Debug, PartialEq, Eq, Structural)]
pub enum Exact {
    /// No exact whole result.
    Undefined,
    /// The number itself.
    Whole(i64),
}

/// The exact result `v`, where it fits.
pub open spec fn whole(v: int) -> Exact {
    if i64::MIN <= v <= i64::MAX {
        Exact::Whole(v as i64)
    } else {
        Exact::Undefined
    }
}

/// `r` is the square root of `v`.
pub open spec fn is_root(v: int, r: int) -> bool {
    r >= 0 && r * r == v
}

fn of_option(v: Option<i64>) -> (r: Exact)
    ensures
        r == (match v {
            Some(w) => Exact::Whole(w),
            None => Exact::Undefined,
        }),
{
    match v {
        Some(w) => Exact::Whole(w),
        None => Exact::Undefined,
    }
}

/// Two roots of one number are the same number.
proof fn lemma_one_root(v: int, a: int, b: int)
    requires
        is_root(v, a),
        is_root(v, b),
    ensures
        a == b,
{
    assert(a == b) by (nonlinear_arith)
        requires
            a >= 0,
            b >= 0,
            a * a == b * b,
    ;
}

/// The square root of `v`, where `v` is the square of a whole number.
fn exact_root(v: i64) -> (r: Option<i64>)
    ensures
        r matches Some(w) ==> is_root(v as int, w as int),
        r is None ==> forall|w: int| !is_root(v as int, w),
{
    if v < 0 {
        assert forall|w: int| !is_root(v as int, w) by {
            assert(w * w >= 0) by (nonlinear_arith);
        }
        return None;
    }
    // lo * lo <= v < hi * hi
    let mut lo: i64 = 0;
    let mut hi: i64 = 3037000500;
    while hi - lo > 1
        invariant
            0 <= lo < hi <= 3037000500,
            v >= 0,
            lo * lo <= v,
            v < hi * hi,
        decreases hi - lo,
    {
        let mid: i64 = lo + (hi - lo) / 2;
        assert(0 <= mid * mid <= 3037000499 * 3037000499) by (nonlinear_arith)
            requires
                0 <= mid <= 3037000499,
        ;
        if mid * mid <= v {
            lo = mid;
        } else {
            hi = mid;
        }
    }
    assert(0 <= lo * lo <= 3037000499 * 3037000499) by (nonlinear_arith)
        requires
            0 <= lo <= 3037000499,
    ;
    if lo * lo == v {
        Some(lo)
    } else {
        assert forall|w: int| !is_root(v as int, w) by {
            if is_root(v as int, w) {
                if w <= lo {
                    assert(w * w <= lo * lo) by (nonlinear_arith)
                        requires
                            0 <= w <= lo,
                    ;
                } else {
                    assert(hi * hi <= w * w) by (nonlinear_arith)
                        requires
                            0 <= hi <= w,
                    ;
                }
            }
        }
        None
    }
}

impl Scalar for Exact {
    open spec fn zero_of() -> Self {
        Exact::Whole(0)
    }

    open spec fn one_of() -> Self {
        Exact::Whole(1)
    }

    open spec fn nan_of() -> Self {
        Exact::Undefined
    }

    open spec fn infinity_of() -> Self {
        Exact::Undefined
    }

    open spec fn one_plus_ln_two_pi_of() -> Self {
        Exact::Undefined
    }

    open spec fn count_of(n: usize) -> Self {
        whole(n as int)
    }

    open spec fn sum_with(self, rhs: Self) -> Self {
        match (self, rhs) {
            (Exact::Whole(a), Exact::Whole(b)) => whole(a + b),
            _ => Exact::Undefined,
        }
    }

    open spec fn less(self, rhs: Self) -> Self {
        match (self, rhs) {
            (Exact::Whole(a), Exact::Whole(b)) => whole(a - b),
            _ => Exact::Undefined,
        }
    }

    open spec fn product(self, rhs: Self) -> Self {
        match (self, rhs) {
            (Exact::Whole(a), Exact::Whole(b)) => whole(a * b),
            _ => Exact::Undefined,
        }
    }

    open spec fn quotient(self, rhs: Self) -> Self {
        match (self, rhs) {
            (Exact::Whole(a), Exact::Whole(b)) => if b > 0 && a as int % b as int == 0 {
                whole(a as int / b as int)
            } else {
                Exact::Undefined
            },
            _ => Exact::Undefined,
        }
    }

    open spec fn root(self) -> Self {
        match self {
            Exact::Whole(a) => if exists|w: int| is_root(a as int, w) {
                whole(choose|w: int| is_root(a as int, w))
            } else {
                Exact::Undefined
            },
            Exact::Undefined => Exact::Undefined,
        }
    }

    open spec fn logarithm(self) -> Self {
        if self == Exact::Whole(1) {
            Exact::Whole(0)
        } else {
            Exact::Undefined
        }
    }

    open spec fn minus_half(self) -> Self {
        match self {
            Exact::Whole(a) => if a as int % 2 == 0 {
                whole(-(a as int / 2))
            } else {
                Exact::Undefined
            },
            Exact::Undefined => Exact::Undefined,
        }
    }

    open spec fn larger(self, rhs: Self) -> Self {
        match (self, rhs) {
            (Exact::Whole(a), Exact::Whole(b)) => if a < b {
                rhs
            } else {
                self
            },
            (Exact::Undefined, b) => b,
            (a, Exact::Undefined) => a,
        }
    }

    open spec fn clamped(self, lo: Self, hi: Self) -> Self {
        match (self, lo, hi) {
            (Exact::Whole(a), Exact::Whole(b), Exact::Whole(c)) => if a < b {
                lo
            } else if a > c {
                hi
            } else {
                self
            },
            _ => self,
        }
    }

    open spec fn finite(self) -> bool {
        self is Whole
    }

    open spec fn nonneg(self) -> bool {
        self matches Exact::Whole(a) && a >= 0
    }

    open spec fn nought(self) -> bool {
        self == Exact::Whole(0)
    }

    open spec fn unit(self) -> bool {
        self == Exact::Whole(1)
    }

    fn zero() -> (r: Self) {
        Exact::Whole(0)
    }

    fn one() -> (r: Self) {
        Exact::Whole(1)
    }

    fn nan() -> (r: Self) {
        Exact::Undefined
    }

    fn infinity() -> (r: Self) {
        Exact::Undefined
    }

    fn one_plus_ln_two_pi() -> (r: Self) {
        Exact::Undefined
    }

    fn from_count(n: usize) -> (r: Self) {
        if n as u64 <= 0x7fff_ffff_ffff_ffff {
            Exact::Whole(n as i64)
        } else {
            Exact::Undefined
        }
    }

    fn plus(self, rhs: Self) -> (r: Self) {
        match (self, rhs) {
            (Exact::Whole(a), Exact::Whole(b)) => of_option(a.checked_add(b)),
            _ => Exact::Undefined,
        }
    }

    fn minus(self, rhs: Self) -> (r: Self) {
        match (self, rhs) {
            (Exact::Whole(a), Exact::Whole(b)) => of_option(a.checked_sub(b)),
            _ => Exact::Undefined,
        }
    }

    fn times(self, rhs: Self) -> (r: Self) {
        match (self, rhs) {
            (Exact::Whole(a), Exact::Whole(b)) => of_option(a.checked_mul(b)),
            _ => Exact::Undefined,
        }
    }

    fn over(self, rhs: Self) -> (r: Self) {
        match (self, rhs) {
            (Exact::Whole(a), Exact::Whole(b)) => {
                if b <= 0 {
                    return Exact::Undefined;
                }
                match (a.checked_rem_euclid(b), a.checked_div_euclid(b)) {
                    (Some(m), Some(d)) => if m == 0 {
                        Exact::Whole(d)
                    } else {
                        Exact::Undefined
                    },
                    _ => Exact::Undefined,
                }
            },
            _ => Exact::Undefined,
        }
    }

    fn sqrt(self) -> (r: Self) {
        match self {
            Exact::Whole(a) => match exact_root(a) {
                Some(w) => {
                    proof {
                        let c = choose|w: int| is_root(a as int, w);
                        assert(is_root(a as int, w as int));
                        lemma_one_root(a as int, w as int, c);
                    }
                    Exact::Whole(w)
                },
                None => Exact::Undefined,
            },
            Exact::Undefined => Exact::Undefined,
        }
    }

    fn ln(self) -> (r: Self) {
        if self == Exact::Whole(1) {
            Exact::Whole(0)
        } else {
            Exact::Undefined
        }
    }

    fn neg_half(self) -> (r: Self) {
        match self {
            Exact::Whole(a) => {
                match (a.checked_rem_euclid(2), a.checked_div_euclid(2)) {
                    (Some(m), Some(d)) => if m == 0 {
                        Exact::Whole(-d)
                    } else {
                        Exact::Undefined
                    },
                    _ => Exact::Undefined,
                }
            },
            Exact::Undefined => Exact::Undefined,
        }
    }

    fn max_with(self, rhs: Self) -> (r: Self) {
        match (self, rhs) {
            (Exact::Whole(a), Exact::Whole(b)) => if a < b {
                rhs
            } else {
                self
            },
            (Exact::Undefined, b) => b,
            (a, Exact::Undefined) => a,
        }
    }

    fn clamp_to(self, lo: Self, hi: Self) -> (r: Self) {
        match (self, lo, hi) {
            (Exact::Whole(a), Exact::Whole(b), Exact::Whole(c)) => if a < b {
                lo
            } else if a > c {
                hi
            } else {
                self
            },
            _ => self,
        }
    }

    fn is_finite(self) -> (r: bool) {
        matches!(self, Exact::Whole(_))
    }

    fn is_nonneg(self) -> (r: bool) {
        match self {
            Exact::Whole(a) => a >= 0,
            Exact::Undefined => false,
        }
    }

    fn is_zero(self) -> (r: bool) {
        self == Exact::Whole(0)
    }

    fn is_one(self) -> (r: bool) {
        self == Exact::Whole(1)
    }
}

/// The whole number that a finite value is.
pub open spec fn number(v: Exact) -> int {
    match v {
        Exact::Whole(a) => a as int,
        Exact::Undefined => 0,
    }
}

/// `v` fits in 64 bits.
pub open spec fn fits(v: int) -> bool {
    -0x8000_0000_0000_0000 <= v <= 0x7fff_ffff_ffff_ffff
}

/// A whole number that fits is itself, and one that does not is undefined.
proof fn lemma_whole(v: int)
    ensures
        whole(v) is Whole <==> fits(v),
        fits(v) ==> number(whole(v)) == v,
{
}

/// Sums, differences and products of whole numbers are the integers' own where they fit,
/// and undefined otherwise; what is undefined stays so.
pub proof fn whole_arithmetic_is_that_of_the_integers(a: Exact, b: Exact)
    ensures
        a.finite() <==> a is Whole,
        a.sum_with(b).finite() <==> a.finite() && b.finite() && fits(number(a) + number(b)),
        a.sum_with(b).finite() ==> number(a.sum_with(b)) == number(a) + number(b),
        a.less(b).finite() <==> a.finite() && b.finite() && fits(number(a) - number(b)),
        a.less(b).finite() ==> number(a.less(b)) == number(a) - number(b),
        a.product(b).finite() <==> a.finite() && b.finite() && fits(number(a) * number(b)),
        a.product(b).finite() ==> number(a.product(b)) == number(a) * number(b),
        !Exact::nan_of().finite() && !Exact::infinity_of().finite(),
        !Exact::one_plus_ln_two_pi_of().finite(),
        Exact::zero_of().finite() && number(Exact::zero_of()) == 0,
        Exact::one_of().finite() && number(Exact::one_of()) == 1,
        a.nought() <==> a.finite() && number(a) == 0,
        a.unit() <==> a.finite() && number(a) == 1,
        a.nonneg() <==> a.finite() && number(a) >= 0,
{
    lemma_whole(number(a) + number(b));
    lemma_whole(number(a) - number(b));
    lemma_whole(number(a) * number(b));
}

/// A count is the whole number that it is, where that fits.
pub proof fn counts_are_whole(n: usize)
    ensures
        Exact::count_of(n).finite() <==> fits(n as int),
        fits(n as int) ==> number(Exact::count_of(n)) == n,
{
    lemma_whole(n as int);
}

/// A quotient by a positive number, a square root, and minus a half are undone by a
/// product: times the divisor, times itself, and times minus two. Where no whole number
/// does that, they are undefined.
pub proof fn quotients_and_roots_are_undone_by_products(a: Exact, b: Exact, w: int)
    ensures
        a.quotient(b).finite() ==> a.finite() && b.finite() && number(b) > 0 && number(
            a.quotient(b),
        ) * number(b) == number(a),
        a.finite() && b.finite() && number(b) > 0 && w * number(b) == number(a)
            ==> a.quotient(b).finite(),
        a.root().finite() ==> a.finite() && number(a.root()) >= 0 && number(a.root()) * number(
            a.root(),
        ) == number(a),
        a.finite() && w * w == number(a) ==> a.root().finite(),
        a.minus_half().finite() ==> a.finite() && -2 * number(a.minus_half()) == number(a),
        a.finite() && -2 * w == number(a) ==> a.minus_half().finite(),
        a.logarithm().finite() <==> a.finite() && number(a) == 1,
        a.logarithm().finite() ==> number(a.logarithm()) == 0,
{
    let x = number(a);
    let y = number(b);
    if a.finite() && b.finite() && y > 0 {
        lemma_whole(x / y);
        if x % y == 0 {
            assert((x / y) * y == x) by (nonlinear_arith)
                requires
                    y > 0,
                    x % y == 0,
            ;
            assert(fits(x / y)) by (nonlinear_arith)
                requires
                    y > 0,
                    (x / y) * y == x,
                    -0x8000_0000_0000_0000 <= x <= 0x7fff_ffff_ffff_ffff,
            ;
        }
        if w * y == x {
            assert(x % y == 0) by (nonlinear_arith)
                requires
                    y > 0,
                    w * y == x,
            ;
        }
    }
    if a.finite() {
        lemma_whole(-(x / 2));
        if w * w == x {
            let v = if w >= 0 {
                w
            } else {
                -w
            };
            assert(v * v == w * w) by (nonlinear_arith)
                requires
                    v == w || v == -w,
            ;
            assert(is_root(x, v));
        }
        if exists|r: int| is_root(x, r) {
            let r = choose|r: int| is_root(x, r);
            lemma_whole(r);
            assert(r <= x) by (nonlinear_arith)
                requires
                    r >= 0,
                    r * r == x,
            ;
        }
    }
}

/// The larger of two numbers is one of them and below neither, an undefined one giving
/// way; a number moved into a range lies in it, and moves no further than to its end.
pub proof fn larger_and_clamped_numbers(a: Exact, lo: Exact, hi: Exact)
    ensures
        a.larger(lo) == a || a.larger(lo) == lo,
        a.finite() || lo.finite() ==> a.larger(lo).finite(),
        a.finite() && lo.finite() ==> number(a.larger(lo)) >= number(a) && number(a.larger(lo))
            >= number(lo),
        a.clamped(lo, hi) == a || a.clamped(lo, hi) == lo || a.clamped(lo, hi) == hi,
        !a.finite() ==> a.clamped(lo, hi) == a,
        a.finite() && lo.finite() && hi.finite() && number(lo) <= number(hi) ==> {
            let c = a.clamped(lo, hi);
            &&& c.finite() && number(lo) <= number(c) <= number(hi)
            &&& number(lo) <= number(a) <= number(hi) ==> c == a
        },
{
}

} // verus!
