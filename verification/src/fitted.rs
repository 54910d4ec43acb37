//! Fitted means of the linear mixed model.
use crate::groupings::{effect_index_in_bounds, effects_at, lemma_first_block, LmmGroupings};
use crate::layout::lemma_cell;
use crate::reading::{
    exact, lemma_sum_from_equal, lemma_total_add, lemma_total_scaled, lemma_total_single,
    sum_from_reads_exactly, total,
};
use crate::scalar::{rows, sum_from, Scalar};
use vstd::prelude::*;

verus! {

/// Row `i` of a row-major design of `p` columns times the coefficients, as the
/// terms of a sum.
pub open spec fn design_terms<S: Scalar>(
    x: Seq<S>,
    p: int,
    i: int,
    beta: Seq<S>,
) -> spec_fn(int) -> S {
    |j: int| x[i * p + j].product(beta[j])
}

/// The slope effects that follow `base`, each times its column in row `i`, as the
/// terms of a sum.
pub open spec fn slope_terms<S: Scalar>(
    x: Seq<S>,
    p: int,
    i: int,
    ranef: Seq<S>,
    base: int,
    cols: Seq<usize>,
) -> spec_fn(int) -> S {
    |d: int| ranef[base + 1 + d].product(x[i * p + cols[d]])
}

/// Level of row `i` in grouping `e`, primary first.
pub open spec fn row_level(primary: Seq<u32>, extra: Seq<Seq<u32>>, e: int, i: int) -> int {
    if e == 0 {
        primary[i] as int
    } else {
        extra[e - 1][i] as int
    }
}

/// Offset of row `i`; zero where there is none.
pub open spec fn offset_at<S: Scalar>(offset: Option<Seq<S>>, i: int) -> S {
    match offset {
        Some(o) => o[i],
        None => S::zero_of(),
    }
}

/// Mean of row `i` from its offset, the fixed effects and the first `e`
/// groupings: each grouping adds the intercept of the row's own level, then each
/// slope of that level times the row's own covariate.
pub open spec fn row_mean<S: Scalar>(
    x: Seq<S>,
    p: int,
    i: int,
    beta: Seq<S>,
    ranef: Seq<S>,
    g: LmmGroupings<S>,
    primary: Seq<u32>,
    extra: Seq<Seq<u32>>,
    offset: Option<Seq<S>>,
    e: nat,
) -> S
    decreases e,
{
    if e == 0 {
        sum_from(offset_at(offset, i), beta.len(), design_terms(x, p, i, beta))
    } else {
        let before = row_mean(
            x,
            p,
            i,
            beta,
            ranef,
            g,
            primary,
            extra,
            offset,
            (e - 1) as nat,
        );
        let base = effects_at(g.widths(), g.levels(), (e - 1) as nat) + row_level(
            primary,
            extra,
            e - 1,
            i,
        ) * g.widths()[e - 1];
        let cols = g.slope_cols()[e - 1];
        sum_from(
            before.sum_with(ranef[base]),
            cols.len(),
            slope_terms(x, p, i, ranef, base, cols),
        )
    }
}

/// What an optional slice holds.
pub open spec fn option_view<S>(o: Option<&[S]>) -> Option<Seq<S>> {
    match o {
        Some(s) => Some(s@),
        None => None,
    }
}

/// Every row of every given grouping names a level of the layout.
pub open spec fn rows_in_levels<S: Scalar>(
    g: LmmGroupings<S>,
    primary: Seq<u32>,
    extra: Seq<Seq<u32>>,
    n: int,
) -> bool {
    &&& extra.len() <= g.extra_q@.len()
    &&& n <= primary.len()
    &&& forall|e: int| 0 <= e < extra.len() ==> n <= (#[trigger] extra[e]).len()
    &&& forall|e: int, i: int|
        0 <= e <= extra.len() && 0 <= i < n ==> #[trigger] row_level(primary, extra, e, i)
            < g.levels()[e]
}

/// Every slope names a column of a design with `p` columns.
pub open spec fn slopes_in_design<S: Scalar>(g: LmmGroupings<S>, p: int) -> bool {
    forall|e: int, d: int|
        0 <= e < g.slope_cols().len() && 0 <= d < g.slope_cols()[e].len()
            ==> #[trigger] g.slope_cols()[e][d] < p
}

/// Add a grouping's effects at one level to the mean of row `i`.
fn add_block<S: Scalar>(
    eta: S,
    x: &[S],
    n: usize,
    p: usize,
    i: usize,
    ranef: &[S],
    base: usize,
    cols: &[usize],
) -> (r: S)
    requires
        x@.len() == n * p,
        i < n,
        base + cols@.len() < ranef@.len(),
        forall|d: int| 0 <= d < cols@.len() ==> #[trigger] cols@[d] < p,
    ensures
        r == sum_from(
            eta.sum_with(ranef@[base as int]),
            cols@.len(),
            slope_terms(x@, p as int, i as int, ranef@, base as int, cols@),
        ),
{
    let ghost terms = slope_terms(x@, p as int, i as int, ranef@, base as int, cols@);
    let mut out: S = eta.plus(ranef[base]);
    let ghost first = out;
    let mut d: usize = 0;
    while d < cols.len()
        invariant
            d <= cols.len(),
            x@.len() == n * p,
            i < n,
            base + cols@.len() < ranef@.len(),
            forall|k: int| 0 <= k < cols@.len() ==> #[trigger] cols@[k] < p,
            terms == slope_terms(x@, p as int, i as int, ranef@, base as int, cols@),
            out == sum_from(first, d as nat, terms),
        decreases cols.len() - d,
    {
        proof {
            lemma_cell(i as int, cols@[d as int] as int, n as int, p as int);
            assert(x.len() == x@.len());
            assert(ranef.len() == ranef@.len());
        }
        out = out.plus(ranef[base + 1 + d].times(x[i * p + cols[d]]));
        d = d + 1;
    }
    out
}

/// Mean of row `i`.
fn fitted_row<S: Scalar>(
    x: &[S],
    n: usize,
    p: usize,
    i: usize,
    beta: &[S],
    ranef: &[S],
    g: &LmmGroupings<S>,
    primary_ids: &[u32],
    extra_ids: &[Vec<u32>],
    offset: Option<&[S]>,
) -> (r: S)
    requires
        g.wf(),
        x@.len() == n * p,
        i < n,
        beta@.len() <= p,
        g.k_total <= ranef@.len(),
        rows_in_levels(*g, primary_ids@, rows(extra_ids@), n as int),
        slopes_in_design(*g, p as int),
        offset matches Some(o) ==> n <= o@.len(),
    ensures
        r == row_mean(
            x@,
            p as int,
            i as int,
            beta@,
            ranef@,
            *g,
            primary_ids@,
            rows(extra_ids@),
            option_view(offset),
            (1 + extra_ids@.len()) as nat,
        ),
{
    let ghost primary = primary_ids@;
    let ghost extra = rows(extra_ids@);
    let ghost off = option_view(offset);
    let ghost m = g.widths().len();
    let mut eta: S = match offset {
        Some(o) => o[i],
        None => S::zero(),
    };
    let ghost start = eta;
    let ghost terms = design_terms(x@, p as int, i as int, beta@);
    let mut j: usize = 0;
    while j < beta.len()
        invariant
            j <= beta.len(),
            i < n,
            x@.len() == n * p,
            beta@.len() <= p,
            terms == design_terms(x@, p as int, i as int, beta@),
            eta == sum_from(start, j as nat, terms),
        decreases beta.len() - j,
    {
        proof {
            lemma_cell(i as int, j as int, n as int, p as int);
            assert(x.len() == x@.len());
        }
        eta = eta.plus(x[i * p + j].times(beta[j]));
        j = j + 1;
    }
    let level: usize = primary_ids[i] as usize;
    proof {
        assert(row_level(primary, extra, 0, i as int) == level);
        effect_index_in_bounds(
            g.widths(),
            g.levels(),
            0,
            m,
            level as int,
            g.widths()[0] - 1,
        );
        lemma_first_block(g.widths(), g.levels());
        assert(g.slope_cols()[0] == g.primary_slope_cols@);
        assert(ranef.len() == ranef@.len());
        lemma_cell(level as int, 0, g.levels()[0] as int, g.widths()[0] as int);
    }
    eta =
    add_block(
        eta,
        x,
        n,
        p,
        i,
        ranef,
        level * g.primary_q,
        g.primary_slope_cols.as_slice(),
    );
    assert(eta == row_mean(
        x@,
        p as int,
        i as int,
        beta@,
        ranef@,
        *g,
        primary,
        extra,
        off,
        1,
    )) by {
        reveal_with_fuel(row_mean, 2);
    }
    let mut e: usize = 0;
    while e < extra_ids.len()
        invariant
            e <= extra_ids.len(),
            i < n,
            g.wf(),
            x@.len() == n * p,
            g.k_total <= ranef@.len(),
            extra == rows(extra_ids@),
            m == g.widths().len(),
            rows_in_levels(*g, primary, extra, n as int),
            slopes_in_design(*g, p as int),
            eta == row_mean(
                x@,
                p as int,
                i as int,
                beta@,
                ranef@,
                *g,
                primary,
                extra,
                off,
                (1 + e) as nat,
            ),
        decreases extra_ids.len() - e,
    {
        assert(extra[e as int] == extra_ids@[e as int]@);
        let level: usize = extra_ids[e][i] as usize;
        let ghost q = g.widths()[e + 1];
        proof {
            assert(row_level(primary, extra, e + 1, i as int) == level);
            assert(g.extra_in_place(e as int));
            effect_index_in_bounds(
                g.widths(),
                g.levels(),
                (e + 1) as nat,
                m,
                level as int,
                q - 1,
            );
            assert(g.slope_cols()[e + 1] == g.extra_slope_cols@[e as int]@);
            assert(ranef.len() == ranef@.len());
            lemma_cell(level as int, 0, g.levels()[e + 1] as int, q as int);
        }
        let base: usize = g.extra_offsets[e] + level * g.extra_q[e];
        eta = add_block(eta, x, n, p, i, ranef, base, g.extra_slope_cols[e].as_slice());
        e = e + 1;
    }
    eta
}

/// Fitted means of a linear mixed model: offset, fixed effects and random effects
/// of each row, the latter read off the reported effects at the row's own levels.
/// The random-effect design is never formed.
pub fn lmm_fitted<S: Scalar>(
    x: &[S],
    n: usize,
    p: usize,
    beta: &[S],
    ranef: &[S],
    g: &LmmGroupings<S>,
    primary_ids: &[u32],
    extra_ids: &[Vec<u32>],
    offset: Option<&[S]>,
) -> (out: Vec<S>)
    requires
        g.wf(),
        x@.len() == n * p,
        beta@.len() <= p,
        g.k_total <= ranef@.len(),
        rows_in_levels(*g, primary_ids@, rows(extra_ids@), n as int),
        slopes_in_design(*g, p as int),
        offset matches Some(o) ==> n <= o@.len(),
    ensures
        out@ == Seq::new(
            n as nat,
            |i: int|
                row_mean(
                    x@,
                    p as int,
                    i,
                    beta@,
                    ranef@,
                    *g,
                    primary_ids@,
                    rows(extra_ids@),
                    option_view(offset),
                    (1 + extra_ids@.len()) as nat,
                ),
        ),
{
    let ghost primary = primary_ids@;
    let ghost extra = rows(extra_ids@);
    let ghost off = option_view(offset);
    let mut out: Vec<S> = Vec::with_capacity(n);
    let mut i: usize = 0;
    while i < n
        invariant
            i <= n,
            g.wf(),
            x@.len() == n * p,
            beta@.len() <= p,
            g.k_total <= ranef@.len(),
            primary == primary_ids@,
            extra == rows(extra_ids@),
            off == option_view(offset),
            rows_in_levels(*g, primary, extra, n as int),
            slopes_in_design(*g, p as int),
            offset matches Some(o) ==> n <= o@.len(),
            out@.len() == i,
            forall|k: int|
                0 <= k < i ==> #[trigger] out@[k] == row_mean(
                    x@,
                    p as int,
                    k,
                    beta@,
                    ranef@,
                    *g,
                    primary,
                    extra,
                    off,
                    (1 + extra.len()) as nat,
                ),
        decreases n - i,
    {
        let eta: S = fitted_row(
            x,
            n,
            p,
            i,
            beta,
            ranef,
            g,
            primary_ids,
            extra_ids,
            offset,
        );
        out.push(eta);
        i = i + 1;
    }
    out
}

/// Everything that the mean of row `i` is made of is finite.
pub open spec fn row_is_finite<S: Scalar>(
    x: Seq<S>,
    p: int,
    i: int,
    beta: Seq<S>,
    ranef: Seq<S>,
    offset: Option<Seq<S>>,
) -> bool {
    &&& forall|j: int| 0 <= j < p ==> (#[trigger] x[i * p + j]).finite()
    &&& forall|j: int| 0 <= j < beta.len() ==> (#[trigger] beta[j]).finite()
    &&& forall|k: int| 0 <= k < ranef.len() ==> (#[trigger] ranef[k]).finite()
    &&& offset matches Some(o) ==> o[i].finite()
}

/// Effect `r` of row `i` in grouping `e`: that of the level that the row has there.
pub open spec fn own_effect<S: Scalar>(
    value: spec_fn(S) -> real,
    ranef: Seq<S>,
    g: LmmGroupings<S>,
    primary: Seq<u32>,
    extra: Seq<Seq<u32>>,
    i: int,
    e: int,
    r: int,
) -> real {
    let level = if e == 0 {
        primary[i] as int
    } else {
        extra[e - 1][i] as int
    };
    value(ranef[effects_at(g.widths(), g.levels(), e as nat) + level * g.widths()[e] + r])
}

/// What grouping `e` adds to the mean of row `i`: the intercept of the row's level, and
/// every slope of that level times the row's entry in the slope's own column.
pub open spec fn own_part<S: Scalar>(
    value: spec_fn(S) -> real,
    x: Seq<S>,
    p: int,
    ranef: Seq<S>,
    g: LmmGroupings<S>,
    primary: Seq<u32>,
    extra: Seq<Seq<u32>>,
    i: int,
    e: int,
) -> real {
    own_effect(value, ranef, g, primary, extra, i, e, 0) + total(
        g.slope_cols()[e].len(),
        |d: int|
            own_effect(value, ranef, g, primary, extra, i, e, 1 + d) * value(
                x[i * p + g.slope_cols()[e][d]],
            ),
    )
}

/// The mean of a row, in exact arithmetic: its offset, the fixed effects times its
/// entries, and for each grouping the effects of its own level, each slope on its own
/// column.
pub proof fn means_add_up<S: Scalar>(
    value: spec_fn(S) -> real,
    x: Seq<S>,
    n: int,
    p: int,
    i: int,
    beta: Seq<S>,
    ranef: Seq<S>,
    g: LmmGroupings<S>,
    primary: Seq<u32>,
    extra: Seq<Seq<u32>>,
    offset: Option<Seq<S>>,
    m: nat,
)
    requires
        exact(value),
        g.wf(),
        0 <= i < n,
        beta.len() <= p,
        m <= 1 + extra.len(),
        g.k_total <= ranef.len(),
        rows_in_levels(g, primary, extra, n),
        slopes_in_design(g, p),
        row_is_finite(x, p, i, beta, ranef, offset),
    ensures
        row_mean(x, p, i, beta, ranef, g, primary, extra, offset, m).finite(),
        value(row_mean(x, p, i, beta, ranef, g, primary, extra, offset, m)) == (match offset {
            Some(o) => value(o[i]),
            None => 0real,
        }) + total(beta.len(), |j: int| value(x[i * p + j]) * value(beta[j])) + total(
            m,
            |e: int| own_part(value, x, p, ranef, g, primary, extra, i, e),
        ),
    decreases m,
{
    let start = offset_at(offset, i);
    let parts = |e: int| own_part(value, x, p, ranef, g, primary, extra, i, e);
    if m == 0 {
        let terms = design_terms(x, p, i, beta);
        let want = |j: int| value(x[i * p + j]) * value(beta[j]);
        assert forall|j: int| 0 <= j < beta.len() implies (#[trigger] terms(j)).finite() && value(
            terms(j),
        ) == want(j) by {
            assert(x[i * p + j].finite() && beta[j].finite());
        }
        sum_from_reads_exactly(value, start, beta.len(), terms, want);
    } else {
        let e = m - 1;
        means_add_up(value, x, n, p, i, beta, ranef, g, primary, extra, offset, e as nat);
        let before = row_mean(x, p, i, beta, ranef, g, primary, extra, offset, e as nat);
        let level = row_level(primary, extra, e, i);
        let w = g.widths();
        let k = g.levels();
        let q = w[e];
        let cols = g.slope_cols()[e];
        assert(g.widths().len() == 1 + g.extra_q@.len());
        assert(level < k[e]);
        if e > 0 {
            assert(g.extra_in_place(e - 1));
        }
        assert(q == 1 + cols.len());
        let base = effects_at(w, k, e as nat) + level * q;
        effect_index_in_bounds(w, k, e as nat, w.len(), level, 0);
        assert(ranef[base].finite());
        let first = before.sum_with(ranef[base]);
        let terms = slope_terms(x, p, i, ranef, base, cols);
        let want = |d: int|
            own_effect(value, ranef, g, primary, extra, i, e, 1 + d) * value(
                x[i * p + g.slope_cols()[e][d]],
            );
        assert forall|d: int| 0 <= d < cols.len() implies (#[trigger] terms(d)).finite() && value(
            terms(d),
        ) == want(d) by {
            effect_index_in_bounds(w, k, e as nat, w.len(), level, 1 + d);
            assert(g.slope_cols()[e][d] < p);
            assert(ranef[base + 1 + d].finite());
            assert(x[i * p + cols[d]].finite());
        }
        sum_from_reads_exactly(value, first, cols.len(), terms, want);
        assert(total(m, parts) == total(e as nat, parts) + parts(e));
    }
}

/// The two designs agree but for the entry of row `i` in column `c`, which is `h` larger
/// in the second.
pub open spec fn raised_at<S: Scalar>(
    value: spec_fn(S) -> real,
    x: Seq<S>,
    y: Seq<S>,
    p: int,
    i: int,
    c: int,
    h: real,
) -> bool {
    &&& forall|j: int|
        0 <= j < p && j != c ==> #[trigger] x[i * p + j] == y[i * p + j]
    &&& value(y[i * p + c]) == value(x[i * p + c]) + h
}

/// The slopes of grouping `e` at the level of row `i`, those on other columns than `c`
/// left out.
pub open spec fn slopes_on_column<S: Scalar>(
    value: spec_fn(S) -> real,
    ranef: Seq<S>,
    g: LmmGroupings<S>,
    primary: Seq<u32>,
    extra: Seq<Seq<u32>>,
    i: int,
    e: int,
    c: int,
) -> spec_fn(int) -> real {
    |d: int|
        if g.slope_cols()[e][d] == c {
            own_effect(value, ranef, g, primary, extra, i, e, 1 + d)
        } else {
            0real
        }
}

/// Raising one entry of a row by `h` moves the row's mean by `h` times the fixed effect of
/// that column and the slopes that stand on it, of every grouping and at the row's own
/// levels. A column with neither moves nothing.
pub proof fn means_follow_their_columns<S: Scalar>(
    value: spec_fn(S) -> real,
    x: Seq<S>,
    y: Seq<S>,
    n: int,
    p: int,
    i: int,
    beta: Seq<S>,
    ranef: Seq<S>,
    g: LmmGroupings<S>,
    primary: Seq<u32>,
    extra: Seq<Seq<u32>>,
    offset: Option<Seq<S>>,
    c: int,
    h: real,
)
    requires
        exact(value),
        g.wf(),
        0 <= i < n,
        0 <= c < p,
        beta.len() == p,
        g.k_total <= ranef.len(),
        rows_in_levels(g, primary, extra, n),
        slopes_in_design(g, p),
        row_is_finite(x, p, i, beta, ranef, offset),
        row_is_finite(y, p, i, beta, ranef, offset),
        raised_at(value, x, y, p, i, c, h),
    ensures
        value(
            row_mean(y, p, i, beta, ranef, g, primary, extra, offset, (1 + extra.len()) as nat),
        ) == value(
            row_mean(x, p, i, beta, ranef, g, primary, extra, offset, (1 + extra.len()) as nat),
        ) + h * (value(beta[c]) + total(
            (1 + extra.len()) as nat,
            |e: int|
                total(
                    g.slope_cols()[e].len(),
                    slopes_on_column(value, ranef, g, primary, extra, i, e, c),
                ),
        )),
{
    let m = (1 + extra.len()) as nat;
    means_add_up(value, x, n, p, i, beta, ranef, g, primary, extra, offset, m);
    means_add_up(value, y, n, p, i, beta, ranef, g, primary, extra, offset, m);
    // Fixed effects.
    let fx = |j: int| value(x[i * p + j]) * value(beta[j]);
    let fy = |j: int| value(y[i * p + j]) * value(beta[j]);
    let fd = |j: int|
        if j == c {
            h * value(beta[c])
        } else {
            0real
        };
    assert forall|j: int| 0 <= j < p implies #[trigger] fy(j) == fx(j) + fd(j) by {
        if j == c {
            let a = value(x[i * p + c]);
            let b = value(beta[c]);
            assert((a + h) * b == a * b + h * b) by (nonlinear_arith);
        } else {
            assert(x[i * p + j] == y[i * p + j]);
        }
    }
    lemma_total_add(p as nat, fx, fd, fy);
    lemma_total_single(p as nat, c, fd);
    // Groupings.
    let gx = |e: int| own_part(value, x, p, ranef, g, primary, extra, i, e);
    let gy = |e: int| own_part(value, y, p, ranef, g, primary, extra, i, e);
    let on = |e: int|
        total(
            g.slope_cols()[e].len(),
            slopes_on_column(value, ranef, g, primary, extra, i, e, c),
        );
    let gd = |e: int| h * on(e);
    assert(g.slope_cols().len() == 1 + g.extra_q@.len());
    assert forall|e: int| 0 <= e < m implies #[trigger] gy(e) == gx(e) + gd(e) by {
        let cols = g.slope_cols()[e];
        let sx = |d: int|
            own_effect(value, ranef, g, primary, extra, i, e, 1 + d) * value(
                x[i * p + g.slope_cols()[e][d]],
            );
        let sy = |d: int|
            own_effect(value, ranef, g, primary, extra, i, e, 1 + d) * value(
                y[i * p + g.slope_cols()[e][d]],
            );
        let so = slopes_on_column(value, ranef, g, primary, extra, i, e, c);
        let sd = |d: int| h * so(d);
        assert forall|d: int| 0 <= d < cols.len() implies #[trigger] sy(d) == sx(d) + sd(d) by {
            let b = own_effect(value, ranef, g, primary, extra, i, e, 1 + d);
            assert(g.slope_cols()[e][d] < p);
            if cols[d] == c {
                let a = value(x[i * p + c]);
                assert(b * (a + h) == b * a + h * b) by (nonlinear_arith);
            } else {
                assert(x[i * p + cols[d]] == y[i * p + cols[d]]);
                assert(h * 0real == 0real) by (nonlinear_arith);
            }
        }
        lemma_total_add(cols.len(), sx, sd, sy);
        lemma_total_scaled(cols.len(), h, so, sd);
        let first = own_effect(value, ranef, g, primary, extra, i, e, 0);
        assert(own_part(value, x, p, ranef, g, primary, extra, i, e) == first + total(
            cols.len(),
            sx,
        ));
        assert(own_part(value, y, p, ranef, g, primary, extra, i, e) == first + total(
            cols.len(),
            sy,
        ));
        assert(gd(e) == h * total(cols.len(), so));
    }
    lemma_total_add(m, gx, gd, gy);
    lemma_total_scaled(m, h, on, gd);
    let b = value(beta[c]);
    let t = total(m, on);
    assert(h * b + h * t == h * (b + t)) by (nonlinear_arith);
}

/// The mean of a row is added up from the left, whatever the arithmetic: the offset, or
/// zero, then the fixed effects, then grouping by grouping the intercept of the row's
/// level and its slopes, each on its own column.
pub proof fn means_are_added_from_the_left<S: Scalar>(
    x: Seq<S>,
    p: int,
    i: int,
    beta: Seq<S>,
    ranef: Seq<S>,
    g: LmmGroupings<S>,
    primary: Seq<u32>,
    extra: Seq<Seq<u32>>,
    offset: Option<Seq<S>>,
    e: nat,
)
    ensures
        row_mean(x, p, i, beta, ranef, g, primary, extra, offset, 0) == sum_from(
            match offset {
                Some(o) => o[i],
                None => S::zero_of(),
            },
            beta.len(),
            |j: int| x[i * p + j].product(beta[j]),
        ),
        ({
            let level = if e == 0 {
                primary[i] as int
            } else {
                extra[e - 1][i] as int
            };
            let base = effects_at(g.widths(), g.levels(), e) + level * g.widths()[e as int];
            row_mean(x, p, i, beta, ranef, g, primary, extra, offset, (e + 1) as nat) == sum_from(
                row_mean(x, p, i, beta, ranef, g, primary, extra, offset, e).sum_with(ranef[base]),
                g.slope_cols()[e as int].len(),
                |d: int| ranef[base + 1 + d].product(x[i * p + g.slope_cols()[e as int][d]]),
            )
        }),
{
    let fixed = |j: int| x[i * p + j].product(beta[j]);
    lemma_sum_from_equal(
        offset_at(offset, i),
        beta.len(),
        design_terms(x, p, i, beta),
        fixed,
    );
    let level = row_level(primary, extra, e as int, i);
    let base = effects_at(g.widths(), g.levels(), e) + level * g.widths()[e as int];
    let cols = g.slope_cols()[e as int];
    let slopes = |d: int| ranef[base + 1 + d].product(x[i * p + g.slope_cols()[e as int][d]]);
    let before = row_mean(x, p, i, beta, ranef, g, primary, extra, offset, e);
    lemma_sum_from_equal(
        before.sum_with(ranef[base]),
        cols.len(),
        slope_terms(x, p, i, ranef, base, cols),
        slopes,
    );
}

} // verus!
