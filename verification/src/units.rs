//! Units of a design column: what a report says of a random slope whose column is
//! measured in other units.
use crate::fit::Fit;
use crate::glmm::{component_scale, is_glmm_report, GlmmAside, GlmmResultView};
use crate::groupings::{
    effects_at, every_parameter_has_a_scale, parameters_take_the_scale_of_their_row, theta_at,
    theta_scales, LmmGroupings,
};
use crate::layout::{factor_entry, packed_holds_every_entry, vech_index};
use crate::model::Family;
use crate::options::FitOptions;
use crate::ranef::{
    block_effects, effect, effect_terms, reported_effects_follow_the_layout, ModeLayout,
};
use crate::scalar::{rows, sum_to, Scalar};
use crate::varcorr::{covariance, covariance_of, gram_terms};
use vstd::prelude::*;

verus! {

/// Division by `c` passes through products and sums, as it does in exact arithmetic,
/// and in binary floating point for a power of two.
pub open spec fn divides_through<S: Scalar>(c: S) -> bool {
    &&& S::zero_of().quotient(c) == S::zero_of()
    &&& forall|a: S, b: S| #[trigger]
        a.quotient(c).product(b) == a.product(b).quotient(c)
    &&& forall|a: S, b: S| #[trigger]
        b.product(a.quotient(c)) == b.product(a).quotient(c)
    &&& forall|a: S, b: S| #[trigger]
        a.quotient(c).sum_with(b.quotient(c)) == a.sum_with(b).quotient(c)
    &&& forall|a: S, s: S| #[trigger]
        a.quotient(s.product(c)) == a.quotient(s).quotient(c)
}

/// The layout `h` is the layout `g` with the scale of row `r0` of grouping `e0`
/// multiplied by `c`: the column of that effect is measured in units `c` times
/// smaller.
pub open spec fn rescales<S: Scalar>(
    h: LmmGroupings<S>,
    g: LmmGroupings<S>,
    e0: int,
    r0: int,
    c: S,
) -> bool {
    &&& h.widths() == g.widths()
    &&& h.levels() == g.levels()
    &&& forall|e: int, r: int|
        0 <= e < g.widths().len() && 0 <= r < g.widths()[e] ==> #[trigger] h.scales()[e][r] == (
        if e == e0 && r == r0 {
            g.scales()[e][r].product(c)
        } else {
            g.scales()[e][r]
        })
}

/// A number divided by `c` where it belongs to the rescaled row.
pub open spec fn moved<S: Scalar>(v: S, c: S, rescaled: bool) -> S {
    if rescaled {
        v.quotient(c)
    } else {
        v
    }
}

/// A sum of divided terms is the divided sum.
proof fn lemma_divided_sum<S: Scalar>(
    n: nat,
    f: spec_fn(int) -> S,
    g: spec_fn(int) -> S,
    c: S,
    rescaled: bool,
)
    requires
        divides_through(c),
        forall|k: int| 0 <= k < n ==> #[trigger] f(k) == moved(g(k), c, rescaled),
    ensures
        sum_to(n, f) == moved(sum_to(n, g), c, rescaled),
    decreases n,
{
    if n > 0 {
        lemma_divided_sum((n - 1) as nat, f, g, c, rescaled);
        assert(f(n - 1) == moved(g(n - 1), c, rescaled));
    }
}

/// The entries of the rescaled row of a factor are divided.
proof fn lemma_factor<S: Scalar>(
    theta: Seq<S>,
    start: int,
    q: nat,
    hs: Seq<S>,
    gs: Seq<S>,
    r: int,
    k: int,
    c: S,
    rescaled: bool,
)
    requires
        divides_through(c),
        hs[r] == (if rescaled {
            gs[r].product(c)
        } else {
            gs[r]
        }),
    ensures
        factor_entry(theta, start, q, hs, r, k) == moved(
            factor_entry(theta, start, q, gs, r, k),
            c,
            rescaled,
        ),
{
}

/// An effect of the rescaled row is divided.
proof fn lemma_effect<S: Scalar>(
    theta: Seq<S>,
    start: int,
    q: nat,
    hs: Seq<S>,
    gs: Seq<S>,
    u: Seq<S>,
    base: int,
    step: int,
    r: int,
    c: S,
    rescaled: bool,
)
    requires
        divides_through(c),
        0 <= r,
        hs[r] == (if rescaled {
            gs[r].product(c)
        } else {
            gs[r]
        }),
    ensures
        effect(theta, start, q, hs, u, base, step, r) == moved(
            effect(theta, start, q, gs, u, base, step, r),
            c,
            rescaled,
        ),
{
    let f = effect_terms(theta, start, q, hs, u, base, step, r);
    let g = effect_terms(theta, start, q, gs, u, base, step, r);
    assert forall|k: int| 0 <= k < r + 1 implies #[trigger] f(k) == moved(g(k), c, rescaled) by {
        lemma_factor(theta, start, q, hs, gs, r, k, c, rescaled);
    }
    lemma_divided_sum((r + 1) as nat, f, g, c, rescaled);
}

/// A covariance is divided once for each of its two effects that is rescaled.
proof fn lemma_covariance<S: Scalar>(
    theta: Seq<S>,
    start: int,
    q: nat,
    scale: S,
    hs: Seq<S>,
    gs: Seq<S>,
    r: int,
    s: int,
    c: S,
    rescaled_r: bool,
    rescaled_s: bool,
)
    requires
        divides_through(c),
        0 <= s,
        hs[r] == (if rescaled_r {
            gs[r].product(c)
        } else {
            gs[r]
        }),
        hs[s] == (if rescaled_s {
            gs[s].product(c)
        } else {
            gs[s]
        }),
    ensures
        covariance(theta, start, q, scale, hs)(r, s) == moved(
            moved(covariance(theta, start, q, scale, gs)(r, s), c, rescaled_r),
            c,
            rescaled_s,
        ),
{
    let f = gram_terms(theta, start, q, hs, r, s);
    let g = gram_terms(theta, start, q, gs, r, s);
    let half = |k: int| moved(g(k), c, rescaled_r);
    assert forall|k: int| 0 <= k < s + 1 implies #[trigger] f(k) == moved(
        half(k),
        c,
        rescaled_s,
    ) by {
        lemma_factor(theta, start, q, hs, gs, r, k, c, rescaled_r);
        lemma_factor(theta, start, q, hs, gs, s, k, c, rescaled_s);
        let a = factor_entry(theta, start, q, gs, r, k);
        let b = factor_entry(theta, start, q, gs, s, k);
        assert(moved(a, c, rescaled_r).product(moved(b, c, rescaled_s)) == moved(
            moved(a.product(b), c, rescaled_r),
            c,
            rescaled_s,
        ));
    }
    lemma_divided_sum((s + 1) as nat, f, half, c, rescaled_s);
    lemma_divided_sum((s + 1) as nat, half, g, c, rescaled_r);
    let total = sum_to((s + 1) as nat, g);
    assert(scale.product(moved(moved(total, c, rescaled_r), c, rescaled_s)) == moved(
        moved(scale.product(total), c, rescaled_r),
        c,
        rescaled_s,
    ));
}

/// Parameter `(r, s)` of grouping `e`, among all parameters.
pub open spec fn parameter_index(widths: Seq<nat>, e: int, r: int, s: int) -> int {
    theta_at(widths, e as nat) + vech_index(widths[e], r, s)
}

/// A random slope is reported in the units of its own design column. Where the
/// kernel finds the same parameters, standard errors, modes and means on its own scales,
/// and the column of one effect is measured in units `c` times smaller, then the
/// squared parameters of that effect's row are divided by `c` twice, their standard
/// errors and the effects of every level once, and a covariance once for each of its
/// two effects that is the rescaled one; nothing else moves. Entry `(r, s)` is any
/// entry of the lower triangle of grouping `e`, and `l` any of its levels.
pub proof fn slopes_are_reported_in_their_own_units<S: Scalar>(
    f: Fit<S>,
    v: GlmmResultView<S>,
    g: Fit<S>,
    w: GlmmResultView<S>,
    y: Seq<S>,
    n: nat,
    p: nat,
    family: Family,
    opts: FitOptions<S>,
    aside: GlmmAside<S>,
    e0: int,
    r0: int,
    c: S,
    e: int,
    l: int,
    r: int,
    s: int,
)
    requires
        divides_through(c),
        v.wf(),
        w.wf(),
        v.fit.converged,
        w.fit.converged,
        rescales(w.groupings, v.groupings, e0, r0, c),
        w.theta@ == v.theta@,
        w.theta_se@ == v.theta_se@,
        w.u@ == v.u@,
        w.mu@ == v.mu@,
        w.prior_w@ == v.prior_w@,
        w.layout == v.layout,
        is_glmm_report(f, v, y, n, p, family, opts, aside),
        is_glmm_report(g, w, y, n, p, family, opts, aside),
        0 <= e < v.groupings.widths().len(),
        0 <= s <= r < v.groupings.widths()[e],
        0 <= l < v.groupings.levels()[e],
    ensures
        ({
            let widths = v.groupings.widths();
            let k = parameter_index(widths, e, r, s);
            let at = vech_index(widths[e], r, s);
            let b = effects_at(widths, v.groupings.levels(), e as nat) + l * widths[e] + r;
            let row = e == e0 && r == r0;
            let col = e == e0 && s == r0;
            &&& g.tau2@[k] == moved(moved(f.tau2@[k], c, row), c, row)
            &&& g.stddev_se@[k] == moved(f.stddev_se@[k], c, row)
            &&& rows(g.varcorr@)[e][at] == moved(moved(rows(f.varcorr@)[e][at], c, row), c, col)
            &&& g.ranef@[b] == moved(f.ranef@[b], c, row)
            &&& g.ranef_levels@ == f.ranef_levels@
        }),
{
    let gv = v.groupings;
    let gw = w.groupings;
    let widths = gv.widths();
    let m = widths.len();
    let q = widths[e];
    let row = e == e0 && r == r0;
    let col = e == e0 && s == r0;
    let scale = component_scale(v, y, n, family, aside);
    let start = theta_at(widths, e as nat) as int;
    let hs = gw.scales()[e];
    let gs = gv.scales()[e];
    assert(gv.widths().len() == 1 + gv.extra_q@.len());
    assert(gw.widths().len() == 1 + gw.extra_q@.len());
    assert(gw.k_total == gv.k_total);
    assert(component_scale(w, y, n, family, aside) == scale);
    let k = parameter_index(widths, e, r, s);
    let sv = theta_scales(widths, gv.scales(), m);
    let sw = theta_scales(widths, gw.scales(), m);
    assert(gw.scales()[e][r] == hs[r]);
    assert(gw.scales()[e][s] == hs[s]);
    parameters_take_the_scale_of_their_row(widths, gv.scales(), m, e, r, s);
    parameters_take_the_scale_of_their_row(widths, gw.scales(), m, e, r, s);
    every_parameter_has_a_scale(widths, gv.scales(), m);
    assert(m == 1 + gv.extra_q@.len());
    assert(v.theta@.len() == sv.len());
    // Parameters.
    let t = v.theta@[k].quotient(sv[k]);
    assert(v.theta@[k].quotient(sw[k]) == moved(t, c, row));
    assert(f.tau2@[k] == t.product(t).product(scale));
    assert(g.tau2@[k] == moved(t, c, row).product(moved(t, c, row)).product(scale));
    assert(g.tau2@[k] == moved(moved(f.tau2@[k], c, row), c, row));
    assert(g.stddev_se@[k] == moved(f.stddev_se@[k], c, row));
    // Covariance.
    lemma_covariance(v.theta@, start, q, scale, hs, gs, r, s, c, row, col);
    packed_holds_every_entry(q, covariance(v.theta@, start, q, scale, hs));
    packed_holds_every_entry(q, covariance(v.theta@, start, q, scale, gs));
    assert(rows(f.varcorr@)[e] == covariance_of(v.theta@, gv, scale, e));
    assert(rows(g.varcorr@)[e] == covariance_of(v.theta@, gw, scale, e));
    // Effects.
    reported_effects_follow_the_layout(v.theta@, gv, v.u@, v.mode_layout(), m);
    reported_effects_follow_the_layout(v.theta@, gw, v.u@, v.mode_layout(), m);
    if v.mode_layout() is Dense && e != 0 {
        assert(gv.extra_in_place(e - 1));
        assert(gv.extra_slope_cols@[e - 1]@.len() == 0);
    }
    lemma_block(v.theta@, gw, gv, v.u@, v.mode_layout(), e, l, r, c, row);
}

/// The effects of the rescaled row of a grouping are divided, in either order of the
/// modes.
proof fn lemma_block<S: Scalar>(
    theta: Seq<S>,
    h: LmmGroupings<S>,
    g: LmmGroupings<S>,
    u: Seq<S>,
    layout: ModeLayout,
    e: int,
    l: int,
    r: int,
    c: S,
    rescaled: bool,
)
    requires
        divides_through(c),
        h.widths() == g.widths(),
        h.levels() == g.levels(),
        0 <= r < g.widths()[e],
        layout is Dense && e != 0 ==> g.widths()[e] == 1,
        h.scales()[e][r] == (if rescaled {
            g.scales()[e][r].product(c)
        } else {
            g.scales()[e][r]
        }),
    ensures
        block_effects(theta, h, u, layout, e)(l, r) == moved(
            block_effects(theta, g, u, layout, e)(l, r),
            c,
            rescaled,
        ),
{
    let start = theta_at(g.widths(), e as nat) as int;
    let off = effects_at(g.widths(), g.levels(), e as nat) as int;
    let q = g.widths()[e];
    let hs = h.scales()[e];
    let gs = g.scales()[e];
    assert(h.levels()[0] == h.n_primary && g.levels()[0] == g.n_primary);
    match layout {
        ModeLayout::Dense => if e == 0 {
            lemma_effect(theta, start, q, hs, gs, u, 0 + l * q, 1, r, c, rescaled);
        } else {
            lemma_factor(theta, start, 1, hs, gs, 0, 0, c, rescaled);
        },
        ModeLayout::Sparse => if e == 0 {
            lemma_effect(theta, start, q, hs, gs, u, l, g.n_primary as int, r, c, rescaled);
        } else {
            lemma_effect(theta, start, q, hs, gs, u, off + l * q, 1, r, c, rescaled);
        },
    }
}

} // verus!
