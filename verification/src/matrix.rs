//! Dense matrices.
use crate::layout::{lemma_cell, lemma_cells_apart};
use crate::reading::{exact, sum_reads_exactly, total};
use crate::scalar::{filled, sum_to, Scalar};
use vstd::prelude::*;

verus! {

/// A matrix whose columns stand one after the other.
#[derive(Debug)]
pub struct ColMajor<S: Scalar> {
    nrows: usize,
    ncols: usize,
    data: Vec<S>,
}

impl<S: Scalar> ColMajor<S> {
    /// One entry for each cell.
    pub closed spec fn wf(&self) -> bool {
        self.data@.len() == self.nrows * self.ncols
    }

    /// Number of rows.
    pub closed spec fn height(&self) -> nat {
        self.nrows as nat
    }

    /// Number of columns.
    pub closed spec fn width(&self) -> nat {
        self.ncols as nat
    }

    /// Entry of row `i` in column `j`.
    pub closed spec fn cell(&self, i: int, j: int) -> S {
        self.data@[j * self.nrows + i]
    }

    /// A matrix of `nrows` rows and `ncols` columns with `v` in every cell.
    pub fn new(nrows: usize, ncols: usize, v: S) -> (r: ColMajor<S>)
        requires
            nrows * ncols <= usize::MAX,
        ensures
            r.wf(),
            r.height() == nrows,
            r.width() == ncols,
            forall|i: int, j: int| 0 <= i < nrows && 0 <= j < ncols ==> #[trigger] r.cell(i, j) == v,
    {
        let r: ColMajor<S> = ColMajor { nrows, ncols, data: filled(nrows * ncols, v) };
        proof {
            assert forall|i: int, j: int| 0 <= i < nrows && 0 <= j < ncols implies #[trigger] r.cell(
                i,
                j,
            ) == v by {
                lemma_cell(j, i, ncols as int, nrows as int);
                assert(ncols * nrows == nrows * ncols) by (nonlinear_arith);
            }
        }
        r
    }

    /// Number of rows.
    pub fn nrows(&self) -> (r: usize)
        ensures
            r == self.height(),
    {
        self.nrows
    }

    /// Number of columns.
    pub fn ncols(&self) -> (r: usize)
        ensures
            r == self.width(),
    {
        self.ncols
    }

    /// Entry of row `i` in column `j`.
    pub fn get(&self, i: usize, j: usize) -> (r: S)
        requires
            self.wf(),
            i < self.height(),
            j < self.width(),
        ensures
            r == self.cell(i as int, j as int),
    {
        proof {
            lemma_cell(j as int, i as int, self.ncols as int, self.nrows as int);
            assert(self.ncols * self.nrows == self.nrows * self.ncols) by (nonlinear_arith);
            assert(self.data.len() == self.data@.len());
        }
        self.data[j * self.nrows + i]
    }

    /// Put `v` into row `i` of column `j`.
    pub fn set(&mut self, i: usize, j: usize, v: S)
        requires
            old(self).wf(),
            i < old(self).height(),
            j < old(self).width(),
        ensures
            final(self).wf(),
            final(self).height() == old(self).height(),
            final(self).width() == old(self).width(),
            forall|a: int, b: int|
                0 <= a < old(self).height() && 0 <= b < old(self).width()
                    ==> #[trigger] final(self).cell(a, b) == (if a == i && b == j {
                    v
                } else {
                    old(self).cell(a, b)
                }),
    {
        proof {
            lemma_cell(j as int, i as int, self.ncols as int, self.nrows as int);
            assert(self.ncols * self.nrows == self.nrows * self.ncols) by (nonlinear_arith);
            assert(self.data.len() == self.data@.len());
        }
        let at: usize = j * self.nrows + i;
        self.data[at] = v;
        proof {
            assert forall|a: int, b: int|
                0 <= a < old(self).height() && 0 <= b < old(
                    self,
                ).width() implies #[trigger] self.cell(a, b) == (if a == i && b == j {
                v
            } else {
                old(self).cell(a, b)
            }) by {
                lemma_cell(b, a, self.ncols as int, self.nrows as int);
                if b * self.nrows + a == at {
                    lemma_cells_apart(b, a, j as int, i as int, self.nrows as int);
                }
            }
        }
    }
}

/// Fill the first `n` rows of the first `p` columns from the row-major `x`; the
/// other cells stay as they are.
pub fn fill_col_major<S: Scalar>(dst: &mut ColMajor<S>, x: &[S], n: usize, p: usize)
    requires
        old(dst).wf(),
        n <= old(dst).height(),
        p <= old(dst).width(),
        x@.len() == n * p,
    ensures
        final(dst).wf(),
        final(dst).height() == old(dst).height(),
        final(dst).width() == old(dst).width(),
        forall|a: int, b: int|
            0 <= a < old(dst).height() && 0 <= b < old(dst).width()
                ==> #[trigger] final(dst).cell(a, b) == (if a < n && b < p {
                x@[a * p + b]
            } else {
                old(dst).cell(a, b)
            }),
{
    let ghost start = *dst;
    let mut i: usize = 0;
    while i < n
        invariant
            i <= n,
            dst.wf(),
            dst.height() == start.height(),
            dst.width() == start.width(),
            n <= start.height(),
            p <= start.width(),
            x@.len() == n * p,
            forall|a: int, b: int|
                0 <= a < start.height() && 0 <= b < start.width() ==> #[trigger] dst.cell(a, b) == (
                if a < i && b < p {
                    x@[a * p + b]
                } else {
                    start.cell(a, b)
                }),
        decreases n - i,
    {
        let mut j: usize = 0;
        while j < p
            invariant
                j <= p,
                i < n,
                dst.wf(),
                dst.height() == start.height(),
                dst.width() == start.width(),
                n <= start.height(),
                p <= start.width(),
                x@.len() == n * p,
                forall|a: int, b: int|
                    0 <= a < start.height() && 0 <= b < start.width() ==> #[trigger] dst.cell(a, b)
                        == (if (a < i && b < p) || (a == i && b < j) {
                        x@[a * p + b]
                    } else {
                        start.cell(a, b)
                    }),
            decreases p - j,
        {
            proof {
                lemma_cell(i as int, j as int, n as int, p as int);
                assert(x.len() == x@.len());
            }
            dst.set(i, j, x[i * p + j]);
            j = j + 1;
        }
        i = i + 1;
    }
}

/// The larger of `n` and 1.
pub open spec fn at_least_one(n: nat) -> nat {
    if n == 0 {
        1
    } else {
        n
    }
}

/// A zero matrix of `n` rows and `p` columns, at least one of each.
pub fn zeros<S: Scalar>(n: usize, p: usize) -> (r: ColMajor<S>)
    requires
        n * p <= usize::MAX,
    ensures
        r.wf(),
        r.height() == at_least_one(n as nat),
        r.width() == at_least_one(p as nat),
        forall|i: int, j: int|
            0 <= i < r.height() && 0 <= j < r.width() ==> #[trigger] r.cell(i, j) == S::zero_of(),
{
    let rows: usize = if n == 0 {
        1
    } else {
        n
    };
    let cols: usize = if p == 0 {
        1
    } else {
        p
    };
    ColMajor::new(rows, cols, S::zero())
}

/// The row-major `n x p` design `x`, by columns.
pub fn to_col_major<S: Scalar>(x: &[S], n: usize, p: usize) -> (r: ColMajor<S>)
    requires
        x@.len() == n * p,
    ensures
        r.wf(),
        r.height() == at_least_one(n as nat),
        r.width() == at_least_one(p as nat),
        forall|i: int, j: int|
            0 <= i < r.height() && 0 <= j < r.width() ==> #[trigger] r.cell(i, j) == (if i < n && j
                < p {
                x@[i * p + j]
            } else {
                S::zero_of()
            }),
{
    assert(x.len() == x@.len());
    let mut r: ColMajor<S> = zeros(n, p);
    fill_col_major(&mut r, x, n, p);
    r
}

/// Products of columns `a` and `b` of a row-major design, as the terms of a sum.
pub open spec fn column_products<S: Scalar>(
    x: Seq<S>,
    p: int,
    a: int,
    b: int,
) -> spec_fn(int) -> S {
    |i: int| x[i * p + a].product(x[i * p + b])
}

/// The lower triangle of `X' X` for the row-major `n x p` design `x`, over zeros:
/// what the search for redundant columns reads.
pub fn lower_gram<S: Scalar>(x: &[S], n: usize, p: usize) -> (gram: ColMajor<S>)
    requires
        x@.len() == n * p,
        p * p <= usize::MAX,
    ensures
        gram.wf(),
        gram.height() == p,
        gram.width() == p,
        forall|a: int, b: int|
            0 <= a < p && 0 <= b < p ==> #[trigger] gram.cell(a, b) == (if b <= a {
                sum_to(n as nat, column_products(x@, p as int, a, b))
            } else {
                S::zero_of()
            }),
{
    let mut gram: ColMajor<S> = ColMajor::new(p, p, S::zero());
    let mut i: usize = 0;
    while i < n
        invariant
            i <= n,
            gram.wf(),
            gram.height() == p,
            gram.width() == p,
            x@.len() == n * p,
            forall|a: int, b: int|
                0 <= a < p && 0 <= b < p ==> #[trigger] gram.cell(a, b) == (if b <= a {
                    sum_to(i as nat, column_products(x@, p as int, a, b))
                } else {
                    S::zero_of()
                }),
        decreases n - i,
    {
        let mut a: usize = 0;
        while a < p
            invariant
                a <= p,
                i < n,
                gram.wf(),
                gram.height() == p,
                gram.width() == p,
                x@.len() == n * p,
                forall|r: int, c: int|
                    0 <= r < p && 0 <= c < p ==> #[trigger] gram.cell(r, c) == (if c <= r {
                        sum_to(
                            if r < a {
                                (i + 1) as nat
                            } else {
                                i as nat
                            },
                            column_products(x@, p as int, r, c),
                        )
                    } else {
                        S::zero_of()
                    }),
            decreases p - a,
        {
            proof {
                lemma_cell(i as int, a as int, n as int, p as int);
                assert(x.len() == x@.len());
            }
            let xa: S = x[i * p + a];
            let mut b: usize = 0;
            while b <= a
                invariant
                    b <= a + 1,
                    a < p,
                    i < n,
                    xa == x@[i * p + a],
                    gram.wf(),
                    gram.height() == p,
                    gram.width() == p,
                    x@.len() == n * p,
                    forall|r: int, c: int|
                        0 <= r < p && 0 <= c < p ==> #[trigger] gram.cell(r, c) == (if c <= r {
                            sum_to(
                                if r < a || (r == a && c < b) {
                                    (i + 1) as nat
                                } else {
                                    i as nat
                                },
                                column_products(x@, p as int, r, c),
                            )
                        } else {
                            S::zero_of()
                        }),
                decreases a + 1 - b,
            {
                proof {
                    lemma_cell(i as int, b as int, n as int, p as int);
                    assert(x.len() == x@.len());
                    assert(gram.cell(a as int, b as int) == sum_to(
                        i as nat,
                        column_products(x@, p as int, a as int, b as int),
                    ));
                }
                let v: S = gram.get(a, b).plus(xa.times(x[i * p + b]));
                gram.set(a, b, v);
                b = b + 1;
            }
            a = a + 1;
        }
        i = i + 1;
    }
    gram
}

/// The entries of the lower triangle of `X' X` are the products of two columns, added up
/// over the rows.
pub proof fn gram_entries_multiply_columns<S: Scalar>(
    value: spec_fn(S) -> real,
    x: Seq<S>,
    n: nat,
    p: int,
    a: int,
    b: int,
)
    requires
        exact(value),
        forall|i: int| 0 <= i < n ==> (#[trigger] x[i * p + a]).finite(),
        forall|i: int| 0 <= i < n ==> (#[trigger] x[i * p + b]).finite(),
    ensures
        sum_to(n, column_products(x, p, a, b)).finite(),
        value(sum_to(n, column_products(x, p, a, b))) == total(
            n,
            |i: int| value(x[i * p + a]) * value(x[i * p + b]),
        ),
{
    let f = column_products(x, p, a, b);
    let g = |i: int| value(x[i * p + a]) * value(x[i * p + b]);
    assert forall|i: int| 0 <= i < n implies (#[trigger] f(i)).finite() && value(f(i)) == g(i) by {
        assert(x[i * p + a].finite() && x[i * p + b].finite());
    }
    sum_reads_exactly(value, n, f, g);
}

/// A buffer holds what it is asked for, and at least one row and one column.
pub proof fn buffers_are_never_empty(n: nat)
    ensures
        at_least_one(n) >= 1,
        at_least_one(n) >= n,
        n >= 1 ==> at_least_one(n) == n,
        n == 0 ==> at_least_one(n) == 1,
{
}

} // verus!
