//! Standard errors and the covariance of the fixed effects.
use crate::matrix::ColMajor;
use crate::reading::{
    diff_from_reads_exactly, exact, lemma_matrix_associative, lemma_total_add, lemma_total_equal,
    lemma_total_prefix, lemma_total_scaled, lemma_total_single, lemma_total_zero, matrix_product,
    sum_reads_exactly, total,
};
use crate::scalar::{constant, diff_from, filled, rows, sum_to, Scalar};
use vstd::prelude::*;

verus! {

/// The variance has a square root to report.
pub open spec fn usable<S: Scalar>(v: S) -> bool {
    v.finite() && v.nonneg()
}

/// Standard errors after the first `k` targets are filled from target-ordered
/// variances.
pub open spec fn se_compact<S: Scalar>(
    se: Seq<S>,
    var_diag: Seq<S>,
    targets: Seq<u32>,
    k: nat,
) -> Seq<S>
    decreases k,
{
    if k == 0 {
        se
    } else {
        let before = se_compact(se, var_diag, targets, (k - 1) as nat);
        if usable(var_diag[k - 1]) {
            before.update(targets[k - 1] as int, var_diag[k - 1].root())
        } else {
            before
        }
    }
}

/// Fill the standard errors of the targets from variances in target order:
/// `var_diag[i]` belongs to coefficient `target_indices[i]`. A variance that is
/// negative or not finite leaves its slot as it is.
pub fn fill_se_compact<S: Scalar>(var_diag: &[S], target_indices: &[u32], se: &mut Vec<S>)
    requires
        target_indices@.len() <= var_diag@.len(),
        forall|i: int|
            0 <= i < target_indices@.len() ==> #[trigger] target_indices@[i] < old(se)@.len(),
    ensures
        final(se)@ == se_compact(
            old(se)@,
            var_diag@,
            target_indices@,
            target_indices@.len(),
        ),
        final(se)@.len() == old(se)@.len(),
{
    let ghost start = se@;
    let mut i: usize = 0;
    while i < target_indices.len()
        invariant
            i <= target_indices.len(),
            target_indices@.len() <= var_diag@.len(),
            se@.len() == start.len(),
            forall|k: int|
                0 <= k < target_indices@.len() ==> #[trigger] target_indices@[k] < start.len(),
            se@ == se_compact(start, var_diag@, target_indices@, i as nat),
        decreases target_indices.len() - i,
    {
        let vd: S = var_diag[i];
        if vd.is_finite() && vd.is_nonneg() {
            let at: usize = target_indices[i] as usize;
            se[at] = vd.sqrt();
        }
        i = i + 1;
    }
}

/// Coefficient `j` is a target.
pub open spec fn is_target(targets: Seq<u32>, j: int) -> bool {
    exists|i: int| 0 <= i < targets.len() && #[trigger] targets[i] == j
}

/// Fill the standard errors of the targets from variances in coefficient order:
/// `var_diag[j]` belongs to coefficient `j`. A variance that is negative or not
/// finite leaves its slot as it is, as does a coefficient that is no target.
pub fn fill_se_by_predictor<S: Scalar>(var_diag: &[S], target_indices: &[u32], se: &mut Vec<S>)
    requires
        forall|i: int|
            0 <= i < target_indices@.len() ==> {
                &&& #[trigger] target_indices@[i] < old(se)@.len()
                &&& target_indices@[i] < var_diag@.len()
            },
    ensures
        final(se)@.len() == old(se)@.len(),
        forall|j: int|
            0 <= j < final(se)@.len() ==> #[trigger] final(se)@[j] == (if is_target(
                target_indices@,
                j,
            ) && usable(var_diag@[j]) {
                var_diag@[j].root()
            } else {
                old(se)@[j]
            }),
{
    let ghost start = se@;
    let ghost targets = target_indices@;
    let mut i: usize = 0;
    while i < target_indices.len()
        invariant
            i <= target_indices.len(),
            targets == target_indices@,
            se@.len() == start.len(),
            forall|k: int|
                0 <= k < targets.len() ==> {
                    &&& #[trigger] targets[k] < start.len()
                    &&& targets[k] < var_diag@.len()
                },
            forall|j: int|
                0 <= j < se@.len() ==> #[trigger] se@[j] == (if is_target(
                    targets.take(i as int),
                    j,
                ) && usable(var_diag@[j]) {
                    var_diag@[j].root()
                } else {
                    start[j]
                }),
        decreases target_indices.len() - i,
    {
        let at: usize = target_indices[i] as usize;
        let vd: S = var_diag[at];
        let ghost before = se@;
        if vd.is_finite() && vd.is_nonneg() {
            se[at] = vd.sqrt();
        }
        proof {
            let then = targets.take(i as int);
            let now = targets.take(i + 1);
            assert forall|j: int| 0 <= j < se@.len() implies #[trigger] se@[j] == (if is_target(
                now,
                j,
            ) && usable(var_diag@[j]) {
                var_diag@[j].root()
            } else {
                start[j]
            }) by {
                assert(before[j] == (if is_target(then, j) && usable(var_diag@[j]) {
                    var_diag@[j].root()
                } else {
                    start[j]
                }));
                assert(is_target(now, j) == (is_target(then, j) || j == at)) by {
                    if is_target(then, j) {
                        let k = choose|k: int| 0 <= k < then.len() && #[trigger] then[k] == j;
                        assert(now[k] == j);
                    }
                    if j == at {
                        assert(now[i as int] == j);
                    }
                    if is_target(now, j) && j != at {
                        let k = choose|k: int| 0 <= k < now.len() && #[trigger] now[k] == j;
                        assert(then[k] == j);
                    }
                }
            }
        }
        i = i + 1;
    }
    assert(targets.take(i as int) =~= targets);
}

/// A square matrix of `p` rows.
pub open spec fn is_square<S>(m: Seq<Vec<S>>, p: nat) -> bool {
    &&& m.len() == p
    &&& forall|i: int| 0 <= i < p ==> (#[trigger] m[i])@.len() == p
}

/// A `p x p` matrix without a defined entry: what a fit reports where nothing was
/// estimated.
pub fn nan_vcov<S: Scalar>(p: usize) -> (r: Vec<Vec<S>>)
    ensures
        is_square(r@, p as nat),
        forall|i: int| 0 <= i < p ==> (#[trigger] r@[i])@ == constant(p as nat, S::nan_of()),
{
    let mut r: Vec<Vec<S>> = Vec::with_capacity(p);
    let mut i: usize = 0;
    while i < p
        invariant
            i <= p,
            r@.len() == i,
            forall|k: int| 0 <= k < i ==> (#[trigger] r@[k])@ == constant(p as nat, S::nan_of()),
        decreases p - i,
    {
        r.push(filled(p, S::nan()));
        i = i + 1;
    }
    r
}

/// Put `v` into cell `(i, j)` of a square matrix.
pub fn set_cell<S: Copy>(m: &mut Vec<Vec<S>>, p: usize, i: usize, j: usize, v: S)
    requires
        is_square(old(m)@, p as nat),
        i < p,
        j < p,
    ensures
        is_square(final(m)@, p as nat),
        forall|a: int, b: int|
            0 <= a < p && 0 <= b < p ==> #[trigger] final(m)@[a]@[b] == (if a == i && b == j {
                v
            } else {
                old(m)@[a]@[b]
            }),
{
    let ghost start = m@;
    let row: &mut Vec<S> = &mut m[i];
    row[j] = v;
    assert(m@ =~= start.update(i as int, m@[i as int]));
}

/// Row `r` of a factor times the solution so far, as the terms of a difference.
pub open spec fn solve_terms<S: Scalar>(l: ColMajor<S>, r: int, u: Seq<S>) -> spec_fn(int) -> S {
    |k: int| l.cell(r, k).product(u[k])
}

/// The first `n` entries of the solution `u` of `L u = e_t`, for the
/// lower-triangular `L` and the unit vector of coefficient `t`: by forward
/// substitution, undefined where the pivot is zero.
pub open spec fn forward_solve<S: Scalar>(l: ColMajor<S>, t: int, n: nat) -> Seq<S>
    decreases n,
{
    if n == 0 {
        Seq::empty()
    } else {
        let u = forward_solve(l, t, (n - 1) as nat);
        let r = n - 1;
        let unit = if r == t {
            S::one_of()
        } else {
            S::zero_of()
        };
        let acc = diff_from(unit, r as nat, solve_terms(l, r, u));
        u.push(
            if l.cell(r, r).nought() {
                S::nan_of()
            } else {
                acc.quotient(l.cell(r, r))
            },
        )
    }
}

/// Products of two solutions, as the terms of a sum.
pub open spec fn solution_products<S: Scalar>(a: Seq<S>, b: Seq<S>) -> spec_fn(int) -> S {
    |k: int| a[k].product(b[k])
}

/// `scale * (u_i . u_j)`: entry `(i, j)` of `scale * (L L')^-1`.
pub open spec fn inverse_entry<S: Scalar>(
    l: ColMajor<S>,
    p: nat,
    scale: S,
    i: int,
    j: int,
) -> S {
    scale.product(
        sum_to(p, solution_products(forward_solve(l, i, p), forward_solve(l, j, p))),
    )
}

/// The last mention of target `i` does not come after the last mention of target
/// `j`.
pub open spec fn settled_first(targets: Seq<u32>, i: int, j: int) -> bool
    decreases targets.len(),
{
    if targets.len() == 0 || targets.last() == j {
        true
    } else if targets.last() == i {
        false
    } else {
        settled_first(targets.drop_last(), i, j)
    }
}

/// The covariance of two targets: the entry of `scale * (L L')^-1`, with the
/// solution of the target that is settled first as the first factor of each
/// product.
pub open spec fn covariance_entry<S: Scalar>(
    l: ColMajor<S>,
    p: nat,
    scale: S,
    targets: Seq<u32>,
    i: int,
    j: int,
) -> S {
    if settled_first(targets, i, j) {
        inverse_entry(l, p, scale, i, j)
    } else {
        inverse_entry(l, p, scale, j, i)
    }
}

/// No later position holds the same target.
spec fn last_mention(targets: Seq<u32>, c: int) -> bool {
    forall|k: int| c < k < targets.len() ==> #[trigger] targets[k] != targets[c]
}

/// Every target has a last mention.
proof fn lemma_last_mention(targets: Seq<u32>, j: int) -> (c: int)
    requires
        is_target(targets, j),
    ensures
        0 <= c < targets.len(),
        targets[c] == j,
        last_mention(targets, c),
    decreases targets.len(),
{
    let w = targets.drop_last();
    if targets.last() == j {
        targets.len() - 1
    } else {
        let i = choose|i: int| 0 <= i < targets.len() && #[trigger] targets[i] == j;
        assert(w[i] == j);
        let c = lemma_last_mention(w, j);
        assert forall|k: int| c < k < targets.len() implies #[trigger] targets[k]
            != targets[c] by {
            if k < w.len() {
                assert(w[k] != w[c]);
            }
        }
        c
    }
}

/// Which of two targets is settled first is read off their last mentions.
proof fn lemma_settled_first(targets: Seq<u32>, c: int, d: int)
    requires
        0 <= c < targets.len(),
        0 <= d < targets.len(),
        last_mention(targets, c),
        last_mention(targets, d),
    ensures
        settled_first(targets, targets[c] as int, targets[d] as int) <==> c <= d,
    decreases targets.len(),
{
    let w = targets.drop_last();
    let end = targets.len() - 1;
    if d < end && c < end {
        assert(targets[end] != targets[c] && targets[end] != targets[d]);
        assert forall|k: int| c < k < w.len() implies #[trigger] w[k] != w[c] by {
            assert(targets[k] != targets[c]);
        }
        assert forall|k: int| d < k < w.len() implies #[trigger] w[k] != w[d] by {
            assert(targets[k] != targets[d]);
        }
        lemma_settled_first(w, c, d);
    } else if d < end {
        assert(targets[end] != targets[d]);
    }
}

/// The solutions behind the covariance do not run out.
proof fn lemma_solve_len<S: Scalar>(l: ColMajor<S>, t: int, n: nat)
    ensures
        forward_solve(l, t, n).len() == n,
    decreases n,
{
    if n > 0 {
        lemma_solve_len(l, t, (n - 1) as nat);
    }
}

/// The solution `u` of `L u = e_t`.
fn solve_unit<S: Scalar>(l: &ColMajor<S>, p: usize, t: usize) -> (u: Vec<S>)
    requires
        l.wf(),
        p <= l.height(),
        p <= l.width(),
    ensures
        u@ == forward_solve(*l, t as int, p as nat),
        u@.len() == p,
{
    let mut u: Vec<S> = Vec::with_capacity(p);
    let mut i: usize = 0;
    while i < p
        invariant
            i <= p,
            l.wf(),
            p <= l.height(),
            p <= l.width(),
            u@.len() == i,
            u@ == forward_solve(*l, t as int, i as nat),
        decreases p - i,
    {
        let mut acc: S = if i == t {
            S::one()
        } else {
            S::zero()
        };
        let ghost unit = acc;
        let ghost terms = solve_terms(*l, i as int, u@);
        let mut k: usize = 0;
        while k < i
            invariant
                k <= i,
                i < p,
                l.wf(),
                p <= l.height(),
                p <= l.width(),
                u@.len() == i,
                terms == solve_terms(*l, i as int, u@),
                acc == diff_from(unit, k as nat, terms),
            decreases i - k,
        {
            acc = acc.minus(l.get(i, k).times(u[k]));
            k = k + 1;
        }
        let pivot: S = l.get(i, i);
        if pivot.is_zero() {
            u.push(S::nan());
        } else {
            u.push(acc.over(pivot));
        }
        i = i + 1;
    }
    u
}

/// `scale * (a . b)`.
fn scaled_dot<S: Scalar>(a: &[S], b: &[S], scale: S) -> (r: S)
    requires
        a@.len() == b@.len(),
    ensures
        r == scale.product(sum_to(a@.len(), solution_products(a@, b@))),
{
    let ghost terms = solution_products(a@, b@);
    let mut d: S = S::zero();
    let mut k: usize = 0;
    while k < a.len()
        invariant
            k <= a.len(),
            a@.len() == b@.len(),
            terms == solution_products(a@, b@),
            d == sum_to(k as nat, terms),
        decreases a.len() - k,
    {
        d = d.plus(a[k].times(b[k]));
        k = k + 1;
    }
    scale.times(d)
}

/// The targets that are coefficients of a design with `p` columns.
pub open spec fn valid_targets(targets: Seq<u32>, p: nat) -> Seq<u32>
    decreases targets.len(),
{
    if targets.len() == 0 {
        Seq::empty()
    } else {
        let before = valid_targets(targets.drop_last(), p);
        if targets.last() < p {
            before.push(targets.last())
        } else {
            before
        }
    }
}

/// A coefficient is a target exactly if it is among the valid ones.
proof fn lemma_valid_targets(targets: Seq<u32>, p: nat)
    ensures
        forall|j: int|
            0 <= j < p ==> (#[trigger] is_target(targets, j) <==> is_target(
                valid_targets(targets, p),
                j,
            )),
        forall|a: int|
            0 <= a < valid_targets(targets, p).len() ==> #[trigger] valid_targets(targets, p)[a]
                < p,
        forall|i: int, j: int|
            0 <= i < p && 0 <= j < p ==> #[trigger] settled_first(valid_targets(targets, p), i, j)
                == settled_first(targets, i, j),
    decreases targets.len(),
{
    if targets.len() > 0 {
        let w = targets.drop_last();
        let t = targets.last();
        let valid = valid_targets(targets, p);
        let before = valid_targets(w, p);
        lemma_valid_targets(w, p);
        assert forall|j: int| 0 <= j < p implies (#[trigger] is_target(targets, j) <==> is_target(
            valid,
            j,
        )) by {
            assert(is_target(w, j) <==> is_target(before, j));
            if is_target(targets, j) {
                let i = choose|i: int| 0 <= i < targets.len() && #[trigger] targets[i] == j;
                if i < w.len() {
                    assert(w[i] == j);
                    let k = choose|k: int| 0 <= k < before.len() && #[trigger] before[k] == j;
                    assert(valid[k] == j);
                } else {
                    assert(valid[valid.len() - 1] == j);
                }
            }
            if is_target(valid, j) {
                let i = choose|i: int| 0 <= i < valid.len() && #[trigger] valid[i] == j;
                if i < before.len() {
                    assert(before[i] == j);
                    let k = choose|k: int| 0 <= k < w.len() && #[trigger] w[k] == j;
                    assert(targets[k] == j);
                } else {
                    assert(targets[targets.len() - 1] == j);
                }
            }
        }
        assert forall|a: int| 0 <= a < valid.len() implies #[trigger] valid[a] < p by {
            if a < before.len() {
                assert(before[a] < p);
            }
        }
        assert forall|i: int, j: int| 0 <= i < p && 0 <= j < p implies #[trigger] settled_first(
            valid,
            i,
            j,
        ) == settled_first(targets, i, j) by {
            assert(settled_first(before, i, j) == settled_first(w, i, j));
            if t < p {
                assert(valid.drop_last() =~= before);
            }
        }
    }
}

/// The covariance of the targets: an entry off the targets is undefined, and the
/// entry of two targets is that of `scale * (L L')^-1`.
pub open spec fn is_target_covariance<S: Scalar>(
    vcov: Seq<Seq<S>>,
    l: ColMajor<S>,
    p: nat,
    targets: Seq<u32>,
    scale: S,
) -> bool {
    &&& vcov.len() == p
    &&& forall|i: int| 0 <= i < p ==> (#[trigger] vcov[i]).len() == p
    &&& forall|i: int, j: int|
        0 <= i < p && 0 <= j < p ==> #[trigger] vcov[i][j] == (if is_target(targets, i)
            && is_target(targets, j) {
            covariance_entry(l, p, scale, targets, i, j)
        } else {
            S::nan_of()
        })
}

/// The order in which two targets are settled depends on the targets alone, so the
/// covariance is symmetric.
pub proof fn covariance_is_symmetric<S: Scalar>(
    vcov: Seq<Seq<S>>,
    l: ColMajor<S>,
    p: nat,
    targets: Seq<u32>,
    scale: S,
    i: int,
    j: int,
)
    requires
        is_target_covariance(vcov, l, p, targets, scale),
        0 <= i < p,
        0 <= j < p,
    ensures
        vcov[i][j] == vcov[j][i],
{
    if is_target(targets, i) && is_target(targets, j) {
        let c = lemma_last_mention(targets, i);
        let d = lemma_last_mention(targets, j);
        lemma_settled_first(targets, c, d);
        lemma_settled_first(targets, d, c);
    }
    assert(vcov[j][i] == vcov[i][j]);
}

/// The pairs of target positions that come before the pair `(a, b)`.
spec fn pair_done(a: int, b: int, i: int, j: int) -> bool {
    i < a || (i == a && j < b)
}

/// Cells written so far: those of the pairs before `(a, b)`.
spec fn written_upto<S: Scalar>(
    vcov: Seq<Vec<S>>,
    l: ColMajor<S>,
    p: nat,
    valid: Seq<u32>,
    scale: S,
    a: int,
    b: int,
) -> bool {
    &&& forall|i: int, j: int|
        0 <= i < p && 0 <= j < p ==> #[trigger] vcov[i]@[j] == vcov[j]@[i]
    &&& forall|i: int, j: int|
        0 <= i < p && 0 <= j < p && (!is_target(valid, i) || !is_target(valid, j))
            ==> #[trigger] vcov[i]@[j] == S::nan_of()
    &&& forall|c: int, d: int|
        0 <= c <= d < valid.len() && pair_done(a, b, c, d) && last_mention(valid, c)
            && last_mention(valid, d) ==> #[trigger] vcov[valid[c] as int]@[valid[d] as int]
            == inverse_entry(l, p, scale, valid[c] as int, valid[d] as int)
}

/// Writing the pair `(a, b)` moves the frontier past it.
proof fn lemma_write_pair<S: Scalar>(
    old_m: Seq<Vec<S>>,
    new_m: Seq<Vec<S>>,
    l: ColMajor<S>,
    p: nat,
    valid: Seq<u32>,
    scale: S,
    a: int,
    b: int,
)
    requires
        is_square(old_m, p),
        is_square(new_m, p),
        0 <= a <= b < valid.len(),
        forall|c: int| 0 <= c < valid.len() ==> #[trigger] valid[c] < p,
        written_upto(old_m, l, p, valid, scale, a, b),
        forall|i: int, j: int|
            0 <= i < p && 0 <= j < p ==> #[trigger] new_m[i]@[j] == (if (i == valid[a] && j
                == valid[b]) || (i == valid[b] && j == valid[a]) {
                inverse_entry(l, p, scale, valid[a] as int, valid[b] as int)
            } else {
                old_m[i]@[j]
            }),
    ensures
        written_upto(new_m, l, p, valid, scale, a, b + 1),
{
    let va = valid[a] as int;
    let vb = valid[b] as int;
    assert forall|i: int, j: int| 0 <= i < p && 0 <= j < p implies #[trigger] new_m[i]@[j]
        == new_m[j]@[i] by {
        assert(old_m[i]@[j] == old_m[j]@[i]);
    }
    assert forall|i: int, j: int|
        0 <= i < p && 0 <= j < p && (!is_target(valid, i) || !is_target(
            valid,
            j,
        )) implies #[trigger] new_m[i]@[j] == S::nan_of() by {
        assert(is_target(valid, va)) by {
            assert(valid[a] == va);
        }
        assert(is_target(valid, vb)) by {
            assert(valid[b] == vb);
        }
        assert(old_m[i]@[j] == S::nan_of());
    }
    assert forall|c: int, d: int|
        0 <= c <= d < valid.len() && pair_done(a, b + 1, c, d) && last_mention(valid, c)
            && last_mention(
            valid,
            d,
        ) implies #[trigger] new_m[valid[c] as int]@[valid[d] as int] == inverse_entry(
        l,
        p,
        scale,
        valid[c] as int,
        valid[d] as int,
    ) by {
        assert(valid[c] < p && valid[d] < p);
        if pair_done(a, b, c, d) {
            let w = old_m[valid[c] as int]@[valid[d] as int];
            // A later pair of the same two targets would stand past their last
            // mentions.
            if valid[c] == va && valid[d] == vb {
                assert(a <= c) by {
                    if c < a {
                        assert(valid[a] != valid[c]);
                    }
                }
                assert(b <= d) by {
                    if d < b {
                        assert(valid[b] != valid[d]);
                    }
                }
            } else if valid[c] == vb && valid[d] == va {
                assert(b <= c) by {
                    if c < b {
                        assert(valid[b] != valid[c]);
                    }
                }
            }
        } else {
            assert(c == a && d == b);
        }
    }
}

/// The covariance `scale * (L L')^-1` of the targets, from the lower-triangular
/// Cholesky factor `L` of a precision matrix: the dot products of the solutions
/// of `L u = e_j`. Rows and columns of other coefficients stay undefined, and a
/// target that is no coefficient is passed over.
#[verifier::spinoff_prover]
#[verifier::rlimit(40)]
pub fn vcov_from_chol<S: Scalar>(
    l: &ColMajor<S>,
    p: usize,
    target_indices: &[u32],
    scale: S,
) -> (vcov: Vec<Vec<S>>)
    requires
        l.wf(),
        p <= l.height(),
        p <= l.width(),
    ensures
        is_target_covariance(rows(vcov@), *l, p as nat, target_indices@, scale),
{
    let ghost targets = target_indices@;
    let ghost valid = valid_targets(targets, p as nat);
    let mut vcov: Vec<Vec<S>> = nan_vcov(p);
    let mut idx: Vec<usize> = Vec::new();
    let mut us: Vec<Vec<S>> = Vec::new();
    let mut t: usize = 0;
    while t < target_indices.len()
        invariant
            t <= target_indices.len(),
            targets == target_indices@,
            l.wf(),
            p <= l.height(),
            p <= l.width(),
            idx@.len() == valid_targets(targets.take(t as int), p as nat).len(),
            us@.len() == idx@.len(),
            forall|k: int|
                0 <= k < idx@.len() ==> {
                    &&& #[trigger] idx@[k] == valid_targets(targets.take(t as int), p as nat)[k]
                    &&& us@[k]@ == forward_solve(*l, idx@[k] as int, p as nat)
                },
        decreases target_indices.len() - t,
    {
        let tj: usize = target_indices[t] as usize;
        assert(targets.take(t + 1).drop_last() =~= targets.take(t as int));
        if tj < p {
            us.push(solve_unit(l, p, tj));
            idx.push(tj);
        }
        t = t + 1;
    }
    proof {
        assert(targets.take(t as int) =~= targets);
        lemma_valid_targets(targets, p as nat);
        assert forall|k: int| 0 <= k < idx@.len() implies idx@[k] == #[trigger] valid[k] by {
            let w = idx@[k];
        }
    }
    let m: usize = idx.len();
    let mut a: usize = 0;
    while a < m
        invariant
            a <= m,
            m == idx@.len(),
            m == us@.len(),
            m == valid.len(),
            is_square(vcov@, p as nat),
            forall|k: int| 0 <= k < m ==> idx@[k] == #[trigger] valid[k],
            forall|k: int| 0 <= k < m ==> #[trigger] valid[k] < p,
            forall|k: int|
                0 <= k < m ==> (#[trigger] us@[k])@ == forward_solve(
                    *l,
                    valid[k] as int,
                    p as nat,
                ),
            written_upto(vcov@, *l, p as nat, valid, scale, a as int, a as int),
        decreases m - a,
    {
        let i: usize = idx[a];
        let mut b: usize = a;
        while b < m
            invariant
                a <= b <= m,
                a < m,
                m == idx@.len(),
                m == us@.len(),
                m == valid.len(),
                i == valid[a as int],
                is_square(vcov@, p as nat),
                forall|k: int| 0 <= k < m ==> idx@[k] == #[trigger] valid[k],
                forall|k: int| 0 <= k < m ==> #[trigger] valid[k] < p,
                forall|k: int|
                    0 <= k < m ==> (#[trigger] us@[k])@ == forward_solve(
                        *l,
                        valid[k] as int,
                        p as nat,
                    ),
                written_upto(vcov@, *l, p as nat, valid, scale, a as int, b as int),
            decreases m - b,
        {
            let j: usize = idx[b];
            proof {
                lemma_solve_len(*l, i as int, p as nat);
                lemma_solve_len(*l, j as int, p as nat);
                assert(us@[a as int]@ == forward_solve(*l, i as int, p as nat));
                assert(us@[b as int]@ == forward_solve(*l, j as int, p as nat));
                assert(valid[b as int] < p);
                assert(valid[a as int] < p);
            }
            let v: S = scaled_dot(us[a].as_slice(), us[b].as_slice(), scale);
            let ghost before = vcov@;
            set_cell(&mut vcov, p, i, j, v);
            set_cell(&mut vcov, p, j, i, v);
            proof {
                lemma_write_pair(
                    before,
                    vcov@,
                    *l,
                    p as nat,
                    valid,
                    scale,
                    a as int,
                    b as int,
                );
            }
            b = b + 1;
        }
        assert(written_upto(vcov@, *l, p as nat, valid, scale, a + 1, a + 1));
        a = a + 1;
    }
    proof {
        let r = rows(vcov@);
        assert forall|i: int, j: int| 0 <= i < p && 0 <= j < p implies #[trigger] r[i][j] == (
        if is_target(targets, i) && is_target(targets, j) {
            covariance_entry(*l, p as nat, scale, targets, i, j)
        } else {
            S::nan_of()
        }) by {
            assert(is_target(targets, i) <==> is_target(valid, i));
            assert(is_target(targets, j) <==> is_target(valid, j));
            assert(vcov@[i]@[j] == vcov@[j]@[i]);
            if is_target(targets, i) && is_target(targets, j) {
                assert(settled_first(valid, i, j) == settled_first(targets, i, j));
                let c = lemma_last_mention(valid, i);
                let d = lemma_last_mention(valid, j);
                lemma_settled_first(valid, c, d);
                if c <= d {
                    assert(pair_done(m as int, m as int, c, d));
                    let v = vcov@[valid[c] as int]@[valid[d] as int];
                } else {
                    assert(pair_done(m as int, m as int, d, c));
                    let v = vcov@[valid[d] as int]@[valid[c] as int];
                }
            }
        }
    }
    vcov
}

/// The first `p` rows of the factor can be solved with: every entry up to the diagonal
/// is finite, and no pivot is zero.
pub open spec fn solvable<S: Scalar>(value: spec_fn(S) -> real, l: ColMajor<S>, p: nat) -> bool {
    &&& forall|r: int, c: int| 0 <= c <= r < p ==> (#[trigger] l.cell(r, c)).finite()
    &&& forall|r: int| 0 <= r < p ==> value(#[trigger] l.cell(r, r)) != 0real
}

/// The entries of a solution are finite.
proof fn lemma_solution_finite<S: Scalar>(
    value: spec_fn(S) -> real,
    l: ColMajor<S>,
    p: nat,
    t: int,
)
    requires
        exact(value),
        solvable(value, l, p),
    ensures
        forward_solve(l, t, p).len() == p,
        forall|r: int| 0 <= r < p ==> (#[trigger] forward_solve(l, t, p)[r]).finite(),
    decreases p,
{
    lemma_solve_len(l, t, p);
    if p > 0 {
        let last = p - 1;
        let v = forward_solve(l, t, last as nat);
        let u = forward_solve(l, t, p);
        lemma_solution_finite(value, l, last as nat, t);
        let unit = if last == t {
            S::one_of()
        } else {
            S::zero_of()
        };
        let terms = solve_terms(l, last, v);
        let known = |k: int| value(terms(k));
        assert forall|k: int| 0 <= k < last implies (#[trigger] terms(k)).finite() && value(
            terms(k),
        ) == known(k) by {
            assert(v[k].finite());
        }
        diff_from_reads_exactly(value, unit, last as nat, terms, known);
        assert forall|r: int| 0 <= r < p implies (#[trigger] u[r]).finite() by {
            if r < last {
                assert(u[r] == v[r]);
            } else {
                assert(value(l.cell(last, last)) != 0real);
            }
        }
    }
}

/// The solution behind the covariance of coefficient `t` solves its system: row `r` of
/// the factor times the solution is 1 for `r = t` and 0 for every other row.
pub proof fn solution_solves_its_system<S: Scalar>(
    value: spec_fn(S) -> real,
    l: ColMajor<S>,
    p: nat,
    t: int,
    r: int,
)
    requires
        exact(value),
        solvable(value, l, p),
        0 <= r < p,
    ensures
        forward_solve(l, t, p)[r].finite(),
        total((r + 1) as nat, |k: int| value(l.cell(r, k)) * value(forward_solve(l, t, p)[k])) == (
        if r == t {
            1real
        } else {
            0real
        }),
    decreases p,
{
    let last = p - 1;
    let v = forward_solve(l, t, last as nat);
    let u = forward_solve(l, t, p);
    lemma_solution_finite(value, l, p, t);
    lemma_solution_finite(value, l, last as nat, t);
    let now = |k: int| value(l.cell(r, k)) * value(u[k]);
    let then = |k: int| value(l.cell(r, k)) * value(v[k]);
    if r < last {
        solution_solves_its_system(value, l, last as nat, t, r);
        lemma_total_equal((r + 1) as nat, now, then);
    } else {
        let unit = if last == t {
            S::one_of()
        } else {
            S::zero_of()
        };
        let terms = solve_terms(l, last, v);
        assert forall|k: int| 0 <= k < last implies (#[trigger] terms(k)).finite() && value(
            terms(k),
        ) == then(k) by {
            assert(v[k].finite());
        }
        diff_from_reads_exactly(value, unit, last as nat, terms, then);
        let x = value(diff_from(unit, last as nat, terms));
        let y = value(l.cell(last, last));
        assert(y != 0real);
        assert(value(u[last]) == x / y);
        assert(y * (x / y) == x) by (nonlinear_arith)
            requires
                y != 0real,
        ;
        lemma_total_equal(last as nat, now, then);
    }
}

/// The lower triangle of a factor over zeros, as real numbers.
pub open spec fn lower_part<S: Scalar>(
    value: spec_fn(S) -> real,
    l: ColMajor<S>,
) -> spec_fn(int, int) -> real {
    |r: int, c: int|
        if c <= r {
            value(l.cell(r, c))
        } else {
            0real
        }
}

/// Entry `(i, j)` of the unit matrix.
pub open spec fn unit_entry(i: int, j: int) -> real {
    if i == j {
        1real
    } else {
        0real
    }
}

/// The solutions, side by side.
spec fn solutions<S: Scalar>(
    value: spec_fn(S) -> real,
    l: ColMajor<S>,
    p: nat,
) -> spec_fn(int, int) -> real {
    |k: int, j: int| value(forward_solve(l, j, p)[k])
}

/// The factor times the solutions is the unit matrix.
proof fn lemma_right_inverse<S: Scalar>(
    value: spec_fn(S) -> real,
    l: ColMajor<S>,
    p: nat,
    i: int,
    j: int,
)
    requires
        exact(value),
        solvable(value, l, p),
        0 <= i < p,
        0 <= j < p,
    ensures
        matrix_product(p, lower_part(value, l), solutions(value, l, p))(i, j) == unit_entry(i, j),
{
    solution_solves_its_system(value, l, p, j, i);
    let u = forward_solve(l, j, p);
    let whole = |k: int| lower_part(value, l)(i, k) * solutions(value, l, p)(k, j);
    let part = |k: int| value(l.cell(i, k)) * value(u[k]);
    assert forall|k: int| i + 1 <= k < p implies #[trigger] whole(k) == 0real by {
        let y = value(u[k]);
        assert(0real * y == 0real) by (nonlinear_arith);
    }
    lemma_total_prefix((i + 1) as nat, p, whole);
    lemma_total_equal((i + 1) as nat, whole, part);
    assert(total((i + 1) as nat, part) == unit_entry(i, j));
}

/// Row `i` of the factor times `w`.
spec fn row_times<S: Scalar>(
    value: spec_fn(S) -> real,
    l: ColMajor<S>,
    p: nat,
    w: spec_fn(int) -> real,
    i: int,
) -> real {
    total(p, |k: int| lower_part(value, l)(i, k) * w(k))
}

/// A factor with pivots takes nothing but zero to zero.
proof fn lemma_only_zero<S: Scalar>(
    value: spec_fn(S) -> real,
    l: ColMajor<S>,
    p: nat,
    w: spec_fn(int) -> real,
    r: int,
)
    requires
        solvable(value, l, p),
        0 <= r < p,
        forall|i: int| 0 <= i < p ==> #[trigger] row_times(value, l, p, w, i) == 0real,
    ensures
        w(r) == 0real,
    decreases r,
{
    let row = |k: int| lower_part(value, l)(r, k) * w(k);
    assert forall|k: int| 0 <= k < p && k != r implies #[trigger] row(k) == 0real by {
        if k < r {
            lemma_only_zero(value, l, p, w, k);
            let x = lower_part(value, l)(r, k);
            assert(x * 0real == 0real) by (nonlinear_arith);
        } else {
            let y = w(k);
            assert(0real * y == 0real) by (nonlinear_arith);
        }
    }
    lemma_total_single(p, r, row);
    let x = value(l.cell(r, r));
    let y = w(r);
    assert(row_times(value, l, p, w, r) == 0real);
    assert(x * y == 0real);
    assert(y == 0real) by (nonlinear_arith)
        requires
            x * y == 0real,
            x != 0real,
    ;
}

/// The solutions times the factor are the unit matrix too.
proof fn lemma_left_inverse<S: Scalar>(
    value: spec_fn(S) -> real,
    l: ColMajor<S>,
    p: nat,
    i: int,
    j: int,
)
    requires
        exact(value),
        solvable(value, l, p),
        0 <= i < p,
        0 <= j < p,
    ensures
        matrix_product(p, solutions(value, l, p), lower_part(value, l))(i, j) == unit_entry(i, j),
{
    let a = lower_part(value, l);
    let u = solutions(value, l, p);
    let w = matrix_product(p, u, a);
    let off = |k: int| w(k, j) - unit_entry(k, j);
    assert forall|r: int| 0 <= r < p implies #[trigger] row_times(value, l, p, off, r) == 0real by {
        let zero = |k: int| lower_part(value, l)(r, k) * off(k);
        let moved = |k: int| a(r, k) * w(k, j);
        let unit = |k: int| a(r, k) * unit_entry(k, j);
        assert forall|k: int| 0 <= k < p implies #[trigger] moved(k) == zero(k) + unit(k) by {
            let x = a(r, k);
            let y = w(k, j);
            let z = unit_entry(k, j);
            assert(x * y == x * (y - z) + x * z) by (nonlinear_arith);
        }
        lemma_total_add(p, zero, unit, moved);
        assert forall|k: int| 0 <= k < p && k != j implies #[trigger] unit(k) == 0real by {
            let x = a(r, k);
            assert(x * 0real == 0real) by (nonlinear_arith);
        }
        lemma_total_single(p, j, unit);
        let x = a(r, j);
        assert(x * 1real == x) by (nonlinear_arith);
        // L (U L) = (L U) L = L
        lemma_matrix_associative(p, a, u, a, r, j);
        let left = |k: int| matrix_product(p, a, u)(r, k) * a(k, j);
        assert forall|k: int| 0 <= k < p && k != r implies #[trigger] left(k) == 0real by {
            lemma_right_inverse(value, l, p, r, k);
            let y = a(k, j);
            assert(0real * y == 0real) by (nonlinear_arith);
        }
        lemma_total_single(p, r, left);
        lemma_right_inverse(value, l, p, r, r);
        assert(1real * x == x) by (nonlinear_arith);
        assert(matrix_product(p, matrix_product(p, a, u), a)(r, j) == total(p, left));
        assert(matrix_product(p, a, w)(r, j) == total(p, moved));
    }
    lemma_only_zero(value, l, p, off, i);
}

/// An entry of the covariance, as a real number: whichever of the two targets is
/// settled first.
proof fn lemma_entry_value<S: Scalar>(
    value: spec_fn(S) -> real,
    l: ColMajor<S>,
    p: nat,
    scale: S,
    targets: Seq<u32>,
    i: int,
    j: int,
)
    requires
        exact(value),
        solvable(value, l, p),
        scale.finite(),
    ensures
        covariance_entry(l, p, scale, targets, i, j).finite(),
        value(covariance_entry(l, p, scale, targets, i, j)) == value(scale) * total(
            p,
            |k: int| solutions(value, l, p)(k, i) * solutions(value, l, p)(k, j),
        ),
{
    let u = forward_solve(l, i, p);
    let v = forward_solve(l, j, p);
    lemma_solution_finite(value, l, p, i);
    lemma_solution_finite(value, l, p, j);
    let g = |k: int| solutions(value, l, p)(k, i) * solutions(value, l, p)(k, j);
    let uv = solution_products(u, v);
    let vu = solution_products(v, u);
    assert forall|k: int| 0 <= k < p implies (#[trigger] uv(k)).finite() && value(uv(k)) == g(k) by {
        assert(u[k].finite() && v[k].finite());
    }
    assert forall|k: int| 0 <= k < p implies (#[trigger] vu(k)).finite() && value(vu(k)) == g(k) by {
        assert(u[k].finite() && v[k].finite());
        let x = value(u[k]);
        let y = value(v[k]);
        assert(x * y == y * x) by (nonlinear_arith);
    }
    sum_reads_exactly(value, p, uv, g);
    sum_reads_exactly(value, p, vu, g);
}

/// Entry `(i, k)` of the precision whose factor is `l`: rows `i` and `k` of the factor
/// multiplied entry by entry and added up.
pub open spec fn precision_entry<S: Scalar>(
    value: spec_fn(S) -> real,
    l: ColMajor<S>,
    p: nat,
    i: int,
    k: int,
) -> real {
    total(
        p,
        |m: int|
            if m <= i && m <= k {
                value(l.cell(i, m)) * value(l.cell(k, m))
            } else {
                0real
            },
    )
}

/// The covariance is what its name says: in exact arithmetic, and with every
/// coefficient a target, the precision `L L'` times the covariance is the scale times
/// the unit matrix.
pub proof fn covariance_inverts_the_precision<S: Scalar>(
    value: spec_fn(S) -> real,
    vcov: Seq<Seq<S>>,
    l: ColMajor<S>,
    p: nat,
    targets: Seq<u32>,
    scale: S,
    i: int,
    j: int,
)
    requires
        exact(value),
        solvable(value, l, p),
        scale.finite(),
        is_target_covariance(vcov, l, p, targets, scale),
        p <= u32::MAX,
        forall|t: u32| t < p ==> #[trigger] targets.contains(t),
        0 <= i < p,
        0 <= j < p,
    ensures
        vcov[i][j].finite(),
        total(p, |k: int| precision_entry(value, l, p, i, k) * value(vcov[k][j])) == (if i == j {
            value(scale)
        } else {
            0real
        }),
{
    let a = lower_part(value, l);
    let u = solutions(value, l, p);
    let at = |r: int, c: int| a(c, r);
    let ut = |r: int, c: int| u(c, r);
    let s = value(scale);
    let prec = matrix_product(p, a, at);
    let inv = matrix_product(p, ut, u);
    // What the two products hold.
    assert forall|k: int| 0 <= k < p implies precision_entry(value, l, p, i, k) == #[trigger] prec(
        i,
        k,
    ) by {
        let f = |m: int|
            if m <= i && m <= k {
                value(l.cell(i, m)) * value(l.cell(k, m))
            } else {
                0real
            };
        let g = |m: int| a(i, m) * at(m, k);
        assert forall|m: int| 0 <= m < p implies #[trigger] f(m) == g(m) by {
            let x = a(i, m);
            let y = at(m, k);
            assert(x == 0real || y == 0real ==> x * y == 0real) by (nonlinear_arith);
        }
        lemma_total_equal(p, f, g);
    }
    assert forall|k: int| 0 <= k < p implies (#[trigger] vcov[k][j]).finite() && value(vcov[k][j])
        == s * inv(k, j) by {
        assert(targets.contains(k as u32) && targets.contains(j as u32));
        lemma_contained(targets, k);
        lemma_contained(targets, j);
        lemma_entry_value(value, l, p, scale, targets, k, j);
        let f = |m: int| u(m, k) * u(m, j);
        let g = |m: int| ut(k, m) * u(m, j);
        lemma_total_equal(p, f, g);
        assert(vcov[k][j] == covariance_entry(l, p, scale, targets, k, j));
    }
    assert(vcov[i][j].finite());
    let got = |k: int| precision_entry(value, l, p, i, k) * value(vcov[k][j]);
    let plain = |k: int| prec(i, k) * inv(k, j);
    assert forall|k: int| 0 <= k < p implies #[trigger] got(k) == s * plain(k) by {
        let x = prec(i, k);
        let y = inv(k, j);
        let w = vcov[k][j];
        assert(x * (s * y) == s * (x * y)) by (nonlinear_arith);
    }
    lemma_total_scaled(p, s, plain, got);
    // (L L') (U' U) = L ((L' U') U) = L U
    lemma_matrix_associative(p, a, at, inv, i, j);
    let inner = matrix_product(p, at, inv);
    let step = |k: int| a(i, k) * inner(k, j);
    let end = |k: int| a(i, k) * u(k, j);
    assert forall|k: int| 0 <= k < p implies #[trigger] step(k) == end(k) by {
        lemma_matrix_associative(p, at, ut, u, k, j);
        let mid = |m: int| matrix_product(p, at, ut)(k, m) * u(m, j);
        assert forall|m: int| 0 <= m < p implies matrix_product(p, at, ut)(k, m)
            == #[trigger] unit_entry(k, m) by {
            // Entry (k, m) of L' U' is entry (m, k) of U L.
            lemma_left_inverse(value, l, p, m, k);
            let f = |b: int| at(k, b) * ut(b, m);
            let g = |b: int| u(m, b) * a(b, k);
            assert forall|b: int| 0 <= b < p implies #[trigger] f(b) == g(b) by {
                let x = a(b, k);
                let y = u(m, b);
                assert(x * y == y * x) by (nonlinear_arith);
            }
            lemma_total_equal(p, f, g);
        }
        assert forall|m: int| 0 <= m < p && m != k implies #[trigger] mid(m) == 0real by {
            assert(unit_entry(k, m) == 0real);
            let y = u(m, j);
            assert(0real * y == 0real) by (nonlinear_arith);
        }
        lemma_total_single(p, k, mid);
        assert(unit_entry(k, k) == 1real);
        let y = u(k, j);
        assert(1real * y == y) by (nonlinear_arith);
        assert(matrix_product(p, matrix_product(p, at, ut), u)(k, j) == total(p, mid));
    }
    lemma_total_equal(p, step, end);
    lemma_right_inverse(value, l, p, i, j);
    assert(matrix_product(p, prec, inv)(i, j) == total(p, plain));
    assert(matrix_product(p, a, inner)(i, j) == total(p, step));
    assert(matrix_product(p, a, u)(i, j) == total(p, end));
    assert(s * 1real == s && s * 0real == 0real) by (nonlinear_arith);
}

/// The covariance of two targets is theirs alone: in exact arithmetic it does not depend
/// on which other coefficients are targets, nor on the order of the targets.
pub proof fn covariance_ignores_other_targets<S: Scalar>(
    value: spec_fn(S) -> real,
    first: Seq<Seq<S>>,
    second: Seq<Seq<S>>,
    l: ColMajor<S>,
    p: nat,
    targets_first: Seq<u32>,
    targets_second: Seq<u32>,
    scale: S,
    i: int,
    j: int,
)
    requires
        exact(value),
        solvable(value, l, p),
        scale.finite(),
        is_target_covariance(first, l, p, targets_first, scale),
        is_target_covariance(second, l, p, targets_second, scale),
        0 <= i < p,
        0 <= j < p,
        targets_first.contains(i as u32) && targets_first.contains(j as u32),
        targets_second.contains(i as u32) && targets_second.contains(j as u32),
        i <= u32::MAX && j <= u32::MAX,
    ensures
        value(first[i][j]) == value(second[i][j]),
        first[i][j].finite() && second[i][j].finite(),
{
    lemma_entry_value(value, l, p, scale, targets_first, i, j);
    lemma_entry_value(value, l, p, scale, targets_second, i, j);
    lemma_contained(targets_first, i);
    lemma_contained(targets_first, j);
    lemma_contained(targets_second, i);
    lemma_contained(targets_second, j);
    let a = first[i][j];
    let b = second[i][j];
}

/// What a list of targets contains is a target.
proof fn lemma_contained(targets: Seq<u32>, i: int)
    requires
        0 <= i <= u32::MAX,
        targets.contains(i as u32),
    ensures
        is_target(targets, i),
{
    let k = choose|k: int| 0 <= k < targets.len() && targets[k] == i as u32;
    assert(targets[k] == i);
}

/// A coefficient that the targets do not name has no covariance with anything.
pub proof fn other_coefficients_have_no_covariance<S: Scalar>(
    vcov: Seq<Seq<S>>,
    l: ColMajor<S>,
    p: nat,
    targets: Seq<u32>,
    scale: S,
    i: int,
    j: int,
)
    requires
        is_target_covariance(vcov, l, p, targets, scale),
        0 <= i < p,
        0 <= j < p,
        forall|a: int| 0 <= a < targets.len() ==> #[trigger] targets[a] != i,
    ensures
        vcov[i][j] == S::nan_of(),
        vcov[j][i] == S::nan_of(),
{
    assert(!is_target(targets, i));
    assert(vcov[i][j] == S::nan_of());
    assert(vcov[j][i] == S::nan_of());
}

/// Standard errors in target order: the error of coefficient `j` is the root of the last
/// usable variance among those of its mentions, and a coefficient without one keeps what
/// it had.
pub proof fn compact_errors_belong_to_their_targets<S: Scalar>(
    se: Seq<S>,
    var_diag: Seq<S>,
    targets: Seq<u32>,
    k: nat,
    j: int,
    i: int,
)
    requires
        k <= targets.len(),
        forall|a: int| 0 <= a < targets.len() ==> #[trigger] targets[a] < se.len(),
        0 <= j < se.len(),
        0 <= i < k ==> targets[i] == j && var_diag[i].finite() && var_diag[i].nonneg(),
        forall|a: int|
            i < a < k && 0 <= a && #[trigger] targets[a] == j ==> !(var_diag[a].finite()
                && var_diag[a].nonneg()),
        i < k,
    ensures
        se_compact(se, var_diag, targets, k).len() == se.len(),
        0 <= i ==> se_compact(se, var_diag, targets, k)[j] == var_diag[i].root(),
        i < 0 ==> se_compact(se, var_diag, targets, k)[j] == se[j],
    decreases k,
{
    if k > 0 {
        let last = k - 1;
        assert(targets[last] < se.len());
        if i == last {
            lemma_compact_len(se, var_diag, targets, last as nat);
        } else {
            compact_errors_belong_to_their_targets(se, var_diag, targets, last as nat, j, i);
            if targets[last] == j {
                assert(!(var_diag[last].finite() && var_diag[last].nonneg()));
            }
        }
    }
}

/// Filling errors in leaves their number as it is.
proof fn lemma_compact_len<S: Scalar>(se: Seq<S>, var_diag: Seq<S>, targets: Seq<u32>, k: nat)
    requires
        k <= targets.len(),
        forall|a: int| 0 <= a < targets.len() ==> #[trigger] targets[a] < se.len(),
    ensures
        se_compact(se, var_diag, targets, k).len() == se.len(),
    decreases k,
{
    if k > 0 {
        lemma_compact_len(se, var_diag, targets, (k - 1) as nat);
    }
}

} // verus!
