//! The two orders in which blocks are laid out flat: the lower triangle of a
//! matrix by columns, and a block of effects by levels.
use crate::model::{lemma_vech, vech};
use crate::scalar::Scalar;
use vstd::prelude::*;

verus! {

/// Entries of a `q x q` lower triangle before column `c`.
pub open spec fn col_start(q: nat, c: nat) -> int
    decreases c,
{
    if c == 0 {
        0
    } else {
        col_start(q, (c - 1) as nat) + (q - (c - 1))
    }
}

/// Place of entry `(r, c)` in the lower triangle of a `q x q` matrix, laid out by
/// columns.
pub open spec fn vech_index(q: nat, r: int, c: int) -> int {
    col_start(q, c as nat) + (r - c)
}

/// Column `c` of the lower triangle of the `q x q` matrix `f`.
pub open spec fn column<T>(q: nat, c: int, f: spec_fn(int, int) -> T) -> Seq<T> {
    Seq::new((q - c) as nat, |i: int| f(c + i, c))
}

/// The first `c` columns of the lower triangle of the `q x q` matrix `f`.
pub open spec fn packed_cols<T>(q: nat, c: nat, f: spec_fn(int, int) -> T) -> Seq<T>
    decreases c,
{
    if c == 0 {
        Seq::empty()
    } else {
        packed_cols(q, (c - 1) as nat, f) + column(q, c - 1, f)
    }
}

/// The lower triangle of the `q x q` matrix `f`, by columns.
pub open spec fn packed<T>(q: nat, f: spec_fn(int, int) -> T) -> Seq<T> {
    packed_cols(q, q, f)
}

/// Twice the number of entries before column `c`.
proof fn lemma_col_start(q: nat, c: nat)
    requires
        c <= q,
    ensures
        2 * col_start(q, c) == c * (2 * q + 1 - c),
        col_start(q, c) >= 0,
    decreases c,
{
    if c > 0 {
        lemma_col_start(q, (c - 1) as nat);
        assert((c - 1) * (2 * q + 1 - (c - 1)) + 2 * (q - (c - 1)) == c * (2 * q + 1 - c))
            by (nonlinear_arith);
    } else {
        assert(0 * (2 * q + 1 - 0) == 0) by (nonlinear_arith);
    }
}

/// The whole triangle has `vech(q)` entries, and every entry has its place among
/// them.
pub proof fn lemma_vech_index(q: nat, r: int, c: int)
    requires
        0 <= c <= r < q,
    ensures
        0 <= vech_index(q, r, c) < vech(q),
        vech_index(q, r, c) >= r,
        c < r ==> vech_index(q, r, c + 1) == vech_index(q, r, c) + (q - c - 1),
{
    lemma_packed_len::<int>(q, (c + 1) as nat, |i: int, j: int| 0);
    lemma_col_start(q, c as nat);
    lemma_col_start(q, q);
    lemma_vech(q);
    assert(q * (2 * q + 1 - q) == q * (q + 1)) by (nonlinear_arith);
    lemma_col_monotone(q, (c + 1) as nat, q);
    lemma_col_lower(q, c as nat);
}

/// Later columns start later.
proof fn lemma_col_monotone(q: nat, a: nat, b: nat)
    requires
        a <= b <= q,
    ensures
        col_start(q, a) <= col_start(q, b),
    decreases b,
{
    if a < b {
        lemma_col_monotone(q, a, (b - 1) as nat);
    }
}

/// Each column before the last adds at least one entry.
proof fn lemma_col_lower(q: nat, c: nat)
    requires
        c <= q,
    ensures
        col_start(q, c) >= c,
    decreases c,
{
    if c > 0 {
        lemma_col_lower(q, (c - 1) as nat);
    }
}

/// Length of the first `c` columns.
pub proof fn lemma_packed_len<T>(q: nat, c: nat, f: spec_fn(int, int) -> T)
    requires
        c <= q,
    ensures
        packed_cols(q, c, f).len() == col_start(q, c),
    decreases c,
{
    if c > 0 {
        lemma_packed_len(q, (c - 1) as nat, f);
    }
}

/// Entry `(r, c)` stands at its place among the first `k` columns.
proof fn lemma_packed_entry<T>(q: nat, k: nat, f: spec_fn(int, int) -> T, r: int, c: int)
    requires
        0 <= c <= r < q,
        c < k <= q,
    ensures
        0 <= vech_index(q, r, c) < packed_cols(q, k, f).len(),
        packed_cols(q, k, f)[vech_index(q, r, c)] == f(r, c),
    decreases k,
{
    lemma_packed_len(q, (k - 1) as nat, f);
    lemma_packed_len(q, k, f);
    lemma_col_lower(q, c as nat);
    if c < k - 1 {
        lemma_packed_entry(q, (k - 1) as nat, f, r, c);
    } else {
        assert(f(c + (r - c), c) == f(r, c));
    }
}

/// A packed triangle has `vech(q)` entries, and holds entry `(r, c)` at its place.
pub proof fn packed_holds_every_entry<T>(q: nat, f: spec_fn(int, int) -> T)
    ensures
        packed(q, f).len() == vech(q),
        forall|r: int, c: int|
            0 <= c <= r < q ==> packed(q, f)[#[trigger] vech_index(q, r, c)] == f(r, c),
{
    lemma_packed_len(q, q, f);
    lemma_col_start(q, q);
    lemma_vech(q);
    assert(q * (2 * q + 1 - q) == q * (q + 1)) by (nonlinear_arith);
    assert forall|r: int, c: int| 0 <= c <= r < q implies packed(q, f)[#[trigger] vech_index(
        q,
        r,
        c,
    )] == f(r, c) by {
        lemma_packed_entry(q, q, f, r, c);
    }
}

/// The first `n` levels of a block with `q` effects per level, level by level.
pub open spec fn level_major<T>(n: nat, q: nat, f: spec_fn(int, int) -> T) -> Seq<T>
    decreases n,
{
    if n == 0 {
        Seq::empty()
    } else {
        level_major((n - 1) as nat, q, f) + Seq::new(q, |r: int| f(n - 1, r))
    }
}

/// A block laid out by levels has `n * q` entries, and holds effect `r` of level
/// `l` at `l * q + r`.
pub proof fn level_major_holds_every_effect<T>(n: nat, q: nat, f: spec_fn(int, int) -> T)
    ensures
        level_major(n, q, f).len() == n * q,
        forall|l: int, r: int|
            0 <= l < n && 0 <= r < q ==> level_major(n, q, f)[l * q + r] == #[trigger] f(l, r),
    decreases n,
{
    if n == 0 {
        assert(0 * q == 0) by (nonlinear_arith);
    } else {
        level_major_holds_every_effect((n - 1) as nat, q, f);
        assert((n - 1) * q + q == n * q) by (nonlinear_arith);
        assert forall|l: int, r: int| 0 <= l < n && 0 <= r < q implies level_major(n, q, f)[l * q
            + r] == #[trigger] f(l, r) by {
            if l < n - 1 {
                assert(l * q + r < (n - 1) * q && l * q + r >= 0) by (nonlinear_arith)
                    requires
                        0 <= l < n - 1,
                        0 <= r < q,
                ;
            }
        }
    }
}

/// Cell `(i, j)` of a row-major `n x p` matrix lies within it.
pub proof fn lemma_cell(i: int, j: int, n: int, p: int)
    requires
        0 <= i < n,
        0 <= j < p,
    ensures
        0 <= i * p,
        i * p + j < n * p,
        i * p + p <= n * p,
{
    assert(0 <= i * p && i * p + p <= n * p) by (nonlinear_arith)
        requires
            0 <= i < n,
            0 <= p,
    ;
}

/// Two cells of a row-major matrix are in one place only where they are one cell.
pub proof fn lemma_cells_apart(i: int, j: int, k: int, l: int, p: int)
    requires
        0 <= j < p,
        0 <= l < p,
        0 <= i,
        0 <= k,
        i * p + j == k * p + l,
    ensures
        i == k,
        j == l,
{
    if i < k {
        assert(i * p + p <= k * p) by (nonlinear_arith)
            requires
                i < k,
                0 <= p,
        ;
    } else if k < i {
        assert(k * p + p <= i * p) by (nonlinear_arith)
            requires
                k < i,
                0 <= p,
        ;
    }
}

/// Entry `(r, c)` of the lower-triangular factor whose parameters start at
/// `start`, with row `r` divided by its scale.
pub open spec fn factor_entry<S: Scalar>(
    theta: Seq<S>,
    start: int,
    q: nat,
    scales: Seq<S>,
    r: int,
    c: int,
) -> S {
    theta[start + vech_index(q, r, c)].quotient(scales[r])
}

/// The rows of a lower-triangular factor, each up to its diagonal.
pub open spec fn is_factor<S: Scalar>(
    lam: Seq<Vec<S>>,
    theta: Seq<S>,
    start: int,
    q: nat,
    scales: Seq<S>,
) -> bool {
    &&& lam.len() == q
    &&& forall|r: int| 0 <= r < q ==> (#[trigger] lam[r])@.len() == r + 1
    &&& forall|r: int, c: int|
        0 <= c <= r < q ==> #[trigger] lam[r]@[c] == factor_entry(theta, start, q, scales, r, c)
}

/// The lower-triangular factor whose parameters start at `start`, row by row,
/// with each row divided by its scale.
pub fn scaled_factor<S: Scalar>(
    theta: &[S],
    start: usize,
    q: usize,
    scales: &[S],
) -> (lam: Vec<Vec<S>>)
    requires
        start + vech(q as nat) <= theta@.len(),
        scales@.len() == q,
    ensures
        is_factor(lam@, theta@, start as int, q as nat, scales@),
{
    let mut lam: Vec<Vec<S>> = Vec::with_capacity(q);
    let mut r: usize = 0;
    while r < q
        invariant
            r <= q,
            start + vech(q as nat) <= theta@.len(),
            scales@.len() == q,
            lam@.len() == r,
            forall|i: int| 0 <= i < r ==> (#[trigger] lam@[i])@.len() == i + 1,
            forall|i: int, c: int|
                0 <= c <= i < r ==> #[trigger] lam@[i]@[c] == factor_entry(
                    theta@,
                    start as int,
                    q as nat,
                    scales@,
                    i,
                    c,
                ),
        decreases q - r,
    {
        let mut row: Vec<S> = Vec::with_capacity(r);
        let mut at: usize = r;
        let mut c: usize = 0;
        while c <= r
            invariant
                c <= r + 1,
                r < q,
                start + vech(q as nat) <= theta@.len(),
                scales@.len() == q,
                c <= r ==> at == vech_index(q as nat, r as int, c as int),
                row@.len() == c,
                forall|k: int|
                    0 <= k < c ==> #[trigger] row@[k] == factor_entry(
                        theta@,
                        start as int,
                        q as nat,
                        scales@,
                        r as int,
                        k,
                    ),
            decreases r + 1 - c,
        {
            proof {
                lemma_vech_index(q as nat, r as int, c as int);
                if c < r {
                    lemma_vech_index(q as nat, r as int, c + 1);
                }
            }
            assert(theta.len() == theta@.len());
            row.push(theta[start + at].over(scales[r]));
            if c < r {
                at = at + (q - c - 1);
            }
            c = c + 1;
        }
        lam.push(row);
        r = r + 1;
    }
    lam
}

/// Where entry `(r, c)` of a triangle stands, counted out: the columns before it hold
/// `q`, `q - 1` and so on entries, and in its own column it comes `r - c` after the
/// diagonal.
pub proof fn packed_by_columns(q: nat, r: int, c: int)
    requires
        0 <= c <= r < q,
    ensures
        2 * vech_index(q, r, c) == c * (2 * q + 1 - c) + 2 * (r - c),
        vech_index(q, 0, 0) == 0,
        r + 1 < q ==> vech_index(q, r + 1, c) == vech_index(q, r, c) + 1,
        c + 1 < q ==> vech_index(q, c + 1, c + 1) == vech_index(q, q - 1, c) + 1,
{
    lemma_col_start(q, c as nat);
}

} // verus!
