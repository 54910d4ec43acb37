//! Conditional modes of the random effects, and the means that they give.
use crate::groupings::{
    effect_index_in_bounds, effects_at, extra_vech_start, lemma_effects_at, lemma_first_block,
    lemma_theta_at,
    ranef_level_counts, theta_at, LmmGroupings,
};
use crate::layout::{
    factor_entry, is_factor, lemma_cell, level_major, level_major_holds_every_effect,
    scaled_factor, vech_index,
};
use crate::model::{lemma_vech, vech};
use crate::reading::{exact, sum_reads_exactly, total};
use crate::scalar::{sum_to, Scalar};
use crate::varcorr::readable;
use vstd::prelude::*;

verus! {

/// Row `r` of a factor times the modes that start at `base`, `step` apart, as the
/// terms of a sum.
pub open spec fn effect_terms<S: Scalar>(
    theta: Seq<S>,
    start: int,
    q: nat,
    scales: Seq<S>,
    u: Seq<S>,
    base: int,
    step: int,
    r: int,
) -> spec_fn(int) -> S {
    |c: int| factor_entry(theta, start, q, scales, r, c).product(u[base + c * step])
}

/// Effect `r` of a level whose modes start at `base`, `step` apart: row `r` of the
/// factor times the modes.
pub open spec fn effect<S: Scalar>(
    theta: Seq<S>,
    start: int,
    q: nat,
    scales: Seq<S>,
    u: Seq<S>,
    base: int,
    step: int,
    r: int,
) -> S {
    sum_to((r + 1) as nat, effect_terms(theta, start, q, scales, u, base, step, r))
}

/// Effects of a grouping whose modes are laid out level by level from `off` on.
pub open spec fn by_level<S: Scalar>(
    theta: Seq<S>,
    start: int,
    q: nat,
    scales: Seq<S>,
    u: Seq<S>,
    off: int,
) -> spec_fn(int, int) -> S {
    |l: int, r: int| effect(theta, start, q, scales, u, off + l * q, 1, r)
}

/// Effects of a grouping of `n` levels whose modes are laid out component by
/// component.
pub open spec fn by_component<S: Scalar>(
    theta: Seq<S>,
    start: int,
    q: nat,
    scales: Seq<S>,
    u: Seq<S>,
    n: int,
) -> spec_fn(int, int) -> S {
    |l: int, r: int| effect(theta, start, q, scales, u, l, n, r)
}

/// Effects of a grouping with an intercept alone.
pub open spec fn intercepts<S: Scalar>(
    theta: Seq<S>,
    start: int,
    scales: Seq<S>,
    u: Seq<S>,
    off: int,
) -> spec_fn(int, int) -> S {
    |l: int, r: int| factor_entry(theta, start, 1, scales, 0, 0).product(u[off + l])
}

/// How the modes of a fit are laid out.
#[derive(Clone, Copy, Debug, PartialEq, Eq, Structural)]
pub enum ModeLayout {
    /// The primary block level by level, the extras with an intercept each.
    Dense,
    /// The primary block component by component, the extras level by level.
    Sparse,
}

/// Effects of grouping `e`: effect `r` of level `l`.
pub open spec fn block_effects<S: Scalar>(
    theta: Seq<S>,
    g: LmmGroupings<S>,
    u: Seq<S>,
    layout: ModeLayout,
    e: int,
) -> spec_fn(int, int) -> S {
    let start = theta_at(g.widths(), e as nat) as int;
    let off = effects_at(g.widths(), g.levels(), e as nat) as int;
    let q = g.widths()[e];
    let scales = g.scales()[e];
    match layout {
        ModeLayout::Dense => if e == 0 {
            by_level(theta, start, q, scales, u, 0)
        } else {
            intercepts(theta, start, scales, u, off)
        },
        ModeLayout::Sparse => if e == 0 {
            by_component(theta, start, q, scales, u, g.n_primary as int)
        } else {
            by_level(theta, start, q, scales, u, off)
        },
    }
}

/// The effects of the first `e` groupings, each level by level.
pub open spec fn effects_of<S: Scalar>(
    theta: Seq<S>,
    g: LmmGroupings<S>,
    u: Seq<S>,
    layout: ModeLayout,
    e: nat,
) -> Seq<S>
    decreases e,
{
    if e == 0 {
        Seq::empty()
    } else {
        effects_of(theta, g, u, layout, (e - 1) as nat) + level_major(
            g.levels()[e - 1],
            g.widths()[e - 1],
            block_effects(theta, g, u, layout, e - 1),
        )
    }
}

/// The effects of the primary grouping.
proof fn lemma_first_effects<S: Scalar>(
    theta: Seq<S>,
    g: LmmGroupings<S>,
    u: Seq<S>,
    layout: ModeLayout,
)
    ensures
        effects_of(theta, g, u, layout, 1) == level_major(
            g.levels()[0],
            g.widths()[0],
            block_effects(theta, g, u, layout, 0),
        ),
{
    reveal_with_fuel(effects_of, 2);
    assert(effects_of(theta, g, u, layout, 1) =~= level_major(
        g.levels()[0],
        g.widths()[0],
        block_effects(theta, g, u, layout, 0),
    ));
}

/// The reported effects are as many as the layout has, grouping by grouping and
/// level by level: effect `r` of level `l` of grouping `e` stands in grouping
/// `e`'s block, at `l * q + r`.
pub proof fn reported_effects_follow_the_layout<S: Scalar>(
    theta: Seq<S>,
    g: LmmGroupings<S>,
    u: Seq<S>,
    layout: ModeLayout,
    n: nat,
)
    requires
        n <= g.widths().len(),
    ensures
        effects_of(theta, g, u, layout, n).len() == effects_at(g.widths(), g.levels(), n),
        forall|e: int, l: int, r: int|
            0 <= e < n && 0 <= l < g.levels()[e] && 0 <= r < g.widths()[e] ==> effects_of(
                theta,
                g,
                u,
                layout,
                n,
            )[effects_at(g.widths(), g.levels(), e as nat) + l * g.widths()[e] + r]
                == #[trigger] block_effects(theta, g, u, layout, e)(l, r),
    decreases n,
{
    if n > 0 {
        let w = g.widths();
        let k = g.levels();
        let last = n - 1;
        let f = block_effects(theta, g, u, layout, last);
        reported_effects_follow_the_layout(theta, g, u, layout, last as nat);
        level_major_holds_every_effect(k[last], w[last], f);
        assert forall|e: int, l: int, r: int|
            0 <= e < n && 0 <= l < k[e] && 0 <= r < w[e] implies effects_of(
            theta,
            g,
            u,
            layout,
            n,
        )[effects_at(w, k, e as nat) + l * w[e] + r] == #[trigger] block_effects(
            theta,
            g,
            u,
            layout,
            e,
        )(l, r) by {
            effect_index_in_bounds(w, k, e as nat, n, l, r);
            if e < last {
                effect_index_in_bounds(w, k, e as nat, last as nat, l, r);
            } else {
                assert(level_major(k[last], w[last], f)[l * w[last] + r] == f(l, r));
            }
        }
    }
}

/// Append the effects of one level.
fn push_level<S: Scalar>(
    out: &mut Vec<S>,
    lam: &Vec<Vec<S>>,
    theta: &[S],
    start: usize,
    q: usize,
    scales: &[S],
    u: &[S],
    base: usize,
    step: usize,
)
    requires
        is_factor(lam@, theta@, start as int, q as nat, scales@),
        q >= 1,
        base + (q - 1) * step < u@.len(),
    ensures
        final(out)@ == old(out)@ + Seq::new(
            q as nat,
            |r: int|
                effect(theta@, start as int, q as nat, scales@, u@, base as int, step as int, r),
        ),
{
    let ghost f = |r: int|
        effect(theta@, start as int, q as nat, scales@, u@, base as int, step as int, r);
    let ghost before = out@;
    let mut r: usize = 0;
    while r < q
        invariant
            r <= q,
            is_factor(lam@, theta@, start as int, q as nat, scales@),
            base + (q - 1) * step < u@.len(),
            forall|i: int| #[trigger]
                f(i) == effect(
                    theta@,
                    start as int,
                    q as nat,
                    scales@,
                    u@,
                    base as int,
                    step as int,
                    i,
                ),
            out@ == before + Seq::new(r as nat, f),
        decreases q - r,
    {
        let ghost terms = effect_terms(
            theta@,
            start as int,
            q as nat,
            scales@,
            u@,
            base as int,
            step as int,
            r as int,
        );
        let mut b: S = S::zero();
        let mut c: usize = 0;
        while c <= r
            invariant
                c <= r + 1,
                r < q,
                is_factor(lam@, theta@, start as int, q as nat, scales@),
                base + (q - 1) * step < u@.len(),
                terms == effect_terms(
                    theta@,
                    start as int,
                    q as nat,
                    scales@,
                    u@,
                    base as int,
                    step as int,
                    r as int,
                ),
                b == sum_to(c as nat, terms),
            decreases r + 1 - c,
        {
            assert(lam@[r as int]@.len() == r + 1);
            assert(lam@[r as int]@[c as int] == factor_entry(
                theta@,
                start as int,
                q as nat,
                scales@,
                r as int,
                c as int,
            ));
            assert(0 <= c * step <= (q - 1) * step) by (nonlinear_arith)
                requires
                    0 <= c <= q - 1,
                    0 <= step,
            ;
            assert(u.len() == u@.len());
            b = b.plus(lam[r][c].times(u[base + c * step]));
            c = c + 1;
        }
        assert(b == f(r as int));
        out.push(b);
        r = r + 1;
    }
    assert(Seq::new(q as nat, f) =~= Seq::new(
        q as nat,
        |r: int|
            effect(theta@, start as int, q as nat, scales@, u@, base as int, step as int, r),
    ));
}

/// Append the effects of a grouping whose modes are laid out level by level from
/// `off` on.
fn push_levels<S: Scalar>(
    out: &mut Vec<S>,
    theta: &[S],
    start: usize,
    q: usize,
    scales: &[S],
    u: &[S],
    off: usize,
    n: usize,
)
    requires
        start + vech(q as nat) <= theta@.len(),
        scales@.len() == q,
        q >= 1,
        off + n * q <= u@.len(),
    ensures
        final(out)@ == old(out)@ + level_major(
            n as nat,
            q as nat,
            by_level(theta@, start as int, q as nat, scales@, u@, off as int),
        ),
{
    let ghost f = by_level(theta@, start as int, q as nat, scales@, u@, off as int);
    let ghost before = out@;
    let lam: Vec<Vec<S>> = scaled_factor(theta, start, q, scales);
    let mut l: usize = 0;
    let mut base: usize = off;
    assert(off + 0 * q == off) by (nonlinear_arith);
    while l < n
        invariant
            l <= n,
            q >= 1,
            base == off + l * q,
            off + n * q <= u@.len(),
            is_factor(lam@, theta@, start as int, q as nat, scales@),
            f == by_level(theta@, start as int, q as nat, scales@, u@, off as int),
            out@ == before + level_major(l as nat, q as nat, f),
        decreases n - l,
    {
        proof {
            lemma_cell(l as int, q - 1, n as int, q as int);
            assert((q - 1) * 1 == q - 1);
            assert((l + 1) * q == l * q + q) by (nonlinear_arith);
            assert(u.len() == u@.len());
        }
        let ghost so_far = out@;
        push_level(out, &lam, theta, start, q, scales, u, base, 1);
        assert(out@ =~= so_far + Seq::new(q as nat, |r: int| f(l as int, r)));
        base = base + q;
        l = l + 1;
    }
}

/// Append the effects of a grouping with an intercept alone, whose modes start at
/// `off`.
fn push_intercepts<S: Scalar>(
    out: &mut Vec<S>,
    theta: &[S],
    start: usize,
    scales: &[S],
    u: &[S],
    off: usize,
    n: usize,
)
    requires
        start < theta@.len(),
        scales@.len() == 1,
        off + n <= u@.len(),
    ensures
        final(out)@ == old(out)@ + level_major(
            n as nat,
            1,
            intercepts(theta@, start as int, scales@, u@, off as int),
        ),
{
    let ghost f = intercepts(theta@, start as int, scales@, u@, off as int);
    let ghost before = out@;
    let theta_e: S = theta[start].over(scales[0]);
    assert(vech_index(1, 0, 0) == 0);
    let mut l: usize = 0;
    while l < n
        invariant
            l <= n,
            off + n <= u@.len(),
            theta_e == factor_entry(theta@, start as int, 1, scales@, 0, 0),
            f == intercepts(theta@, start as int, scales@, u@, off as int),
            out@ == before + level_major(l as nat, 1, f),
        decreases n - l,
    {
        assert(u.len() == u@.len());
        let v: S = theta_e.times(u[off + l]);
        assert(Seq::new(1, |r: int| f(l as int, r)) =~= seq![v]);
        out.push(v);
        l = l + 1;
    }
}

/// Conditional modes `b = L u` of the random effects, from the spherical modes
/// `u` of the dense layout: the primary block level by level, then each extra
/// with one mode per level. Each row of a factor is divided by its scale, so that
/// the effects come out in the units of the design. They are reported grouping by
/// grouping, level by level.
pub fn assemble_ranef_dense<S: Scalar>(
    theta: &[S],
    g: &LmmGroupings<S>,
    u: &[S],
) -> (out: Vec<S>)
    requires
        g.wf(),
        !g.extra_slopes_any,
        g.theta_len() <= theta@.len(),
        g.k_total <= u@.len(),
    ensures
        out@ == effects_of(theta@, *g, u@, ModeLayout::Dense, g.widths().len()),
{
    let ghost w = g.widths();
    let ghost k = g.levels();
    let ghost m = w.len();
    proof {
        lemma_theta_at(w, 1, m);
        lemma_effects_at(w, k, 1, m);
        lemma_first_block(w, k);
    }
    let mut out: Vec<S> = Vec::new();
    push_levels(&mut out, theta, 0, g.primary_q, g.primary_scales.as_slice(), u, 0, g.n_primary);
    proof {
        lemma_first_effects(theta@, *g, u@, ModeLayout::Dense);
    }
    let counts: Vec<usize> = ranef_level_counts(g);
    let mut e: usize = 0;
    while e < g.extra_q.len()
        invariant
            e <= g.extra_q.len(),
            g.wf(),
            !g.extra_slopes_any,
            w == g.widths(),
            k == g.levels(),
            m == w.len(),
            g.theta_len() <= theta@.len(),
            g.k_total <= u@.len(),
            counts@.len() == k.len(),
            forall|i: int| 0 <= i < counts@.len() ==> #[trigger] counts@[i] == k[i],
            out@ == effects_of(theta@, *g, u@, ModeLayout::Dense, (e + 1) as nat),
        decreases g.extra_q.len() - e,
    {
        proof {
            lemma_theta_at(w, (e + 2) as nat, m);
            lemma_effects_at(w, k, (e + 2) as nat, m);
            assert(g.extra_slope_cols@[e as int]@.len() == 0);
            assert(g.extra_in_place(e as int));
            assert(g.extra_scales@[e as int]@.len() == 1);
            assert(g.scales()[e + 1] == g.extra_scales@[e as int]@);
            assert(w[e + 1] == 1);
            assert(k[e + 1] * w[e + 1] == k[e + 1]) by (nonlinear_arith)
                requires
                    w[e + 1] == 1,
            ;
            lemma_vech(1);
        }
        let start: usize = extra_vech_start(g, e);
        push_intercepts(
            &mut out,
            theta,
            start,
            g.extra_scales[e].as_slice(),
            u,
            g.extra_offsets[e],
            counts[e + 1],
        );
        e = e + 1;
    }
    out
}

/// Conditional modes of the random effects, as [`assemble_ranef_dense`], from the
/// spherical modes of the sparse layout: the primary block component by
/// component, then each extra level by level with its whole factor. The dense
/// linear kernel orders its effects in the same way.
pub fn assemble_ranef_sparse<S: Scalar>(
    theta: &[S],
    g: &LmmGroupings<S>,
    u: &[S],
) -> (out: Vec<S>)
    requires
        g.wf(),
        g.theta_len() <= theta@.len(),
        g.k_total <= u@.len(),
    ensures
        out@ == effects_of(theta@, *g, u@, ModeLayout::Sparse, g.widths().len()),
{
    let ghost w = g.widths();
    let ghost k = g.levels();
    let ghost m = w.len();
    let q: usize = g.primary_q;
    let s: usize = g.n_primary;
    proof {
        lemma_theta_at(w, 1, m);
        lemma_effects_at(w, k, 1, m);
        lemma_first_block(w, k);
    }
    let lam: Vec<Vec<S>> = scaled_factor(theta, 0, q, g.primary_scales.as_slice());
    let ghost primary = block_effects(theta@, *g, u@, ModeLayout::Sparse, 0);
    let mut out: Vec<S> = Vec::new();
    let mut f: usize = 0;
    while f < s
        invariant
            f <= s,
            q >= 1,
            s * q <= u@.len(),
            is_factor(lam@, theta@, 0, q as nat, g.primary_scales@),
            primary == by_component(theta@, 0, q as nat, g.primary_scales@, u@, s as int),
            out@ == level_major(f as nat, q as nat, primary),
        decreases s - f,
    {
        assert(f + (q - 1) * s < s * q) by (nonlinear_arith)
            requires
                f < s,
                q >= 1,
        ;
        let ghost so_far = out@;
        push_level(&mut out, &lam, theta, 0, q, g.primary_scales.as_slice(), u, f, s);
        assert(out@ =~= so_far + Seq::new(q as nat, |r: int| primary(f as int, r)));
        f = f + 1;
    }
    proof {
        lemma_first_effects(theta@, *g, u@, ModeLayout::Sparse);
    }
    let counts: Vec<usize> = ranef_level_counts(g);
    let mut e: usize = 0;
    while e < g.extra_q.len()
        invariant
            e <= g.extra_q.len(),
            g.wf(),
            w == g.widths(),
            k == g.levels(),
            m == w.len(),
            g.theta_len() <= theta@.len(),
            g.k_total <= u@.len(),
            counts@.len() == k.len(),
            forall|i: int| 0 <= i < counts@.len() ==> #[trigger] counts@[i] == k[i],
            out@ == effects_of(theta@, *g, u@, ModeLayout::Sparse, (e + 1) as nat),
        decreases g.extra_q.len() - e,
    {
        proof {
            lemma_theta_at(w, (e + 2) as nat, m);
            lemma_effects_at(w, k, (e + 2) as nat, m);
            assert(g.extra_in_place(e as int));
            assert(g.scales()[e + 1] == g.extra_scales@[e as int]@);
        }
        let start: usize = extra_vech_start(g, e);
        push_levels(
            &mut out,
            theta,
            start,
            g.extra_q[e],
            g.extra_scales[e].as_slice(),
            u,
            g.extra_offsets[e],
            counts[e + 1],
        );
        e = e + 1;
    }
    out
}

/// Mode `c` of primary level `f` stands at its place in both orders: by component in
/// `w`, by level in `u`, for `s` levels of `q` effects.
pub open spec fn same_mode<S>(w: Seq<S>, u: Seq<S>, s: int, q: int, f: int, c: int) -> bool {
    w[c * s + f] == u[f * q + c]
}

/// Equal terms have equal sums.
proof fn lemma_equal_sums<S: Scalar>(n: nat, f: spec_fn(int) -> S, g: spec_fn(int) -> S)
    requires
        forall|k: int| 0 <= k < n ==> #[trigger] f(k) == g(k),
    ensures
        sum_to(n, f) == sum_to(n, g),
    decreases n,
{
    if n > 0 {
        lemma_equal_sums((n - 1) as nat, f, g);
        assert(f(n - 1) == g(n - 1));
    }
}

/// Equal effects are laid out alike.
proof fn lemma_equal_blocks<S>(
    n: nat,
    q: nat,
    f: spec_fn(int, int) -> S,
    g: spec_fn(int, int) -> S,
)
    requires
        forall|l: int, r: int| 0 <= l < n && 0 <= r < q ==> #[trigger] f(l, r) == g(l, r),
    ensures
        level_major(n, q, f) == level_major(n, q, g),
    decreases n,
{
    if n > 0 {
        lemma_equal_blocks((n - 1) as nat, q, f, g);
        assert(Seq::new(q, |r: int| f(n - 1, r)) =~= Seq::new(q, |r: int| g(n - 1, r)));
    }
}

/// The two orders of the modes are reported alike: where every extra grouping has an
/// intercept alone, the sparse order of some modes gives the effects that their dense
/// order gives, in a number type in which zero changes nothing.
pub proof fn both_orders_report_the_same<S: Scalar>(
    theta: Seq<S>,
    g: LmmGroupings<S>,
    w: Seq<S>,
    u: Seq<S>,
    n: nat,
)
    requires
        g.wf(),
        !g.extra_slopes_any,
        n <= g.widths().len(),
        forall|f: int, c: int|
            0 <= f < g.n_primary && 0 <= c < g.primary_q ==> #[trigger] same_mode(
                w,
                u,
                g.n_primary as int,
                g.primary_q as int,
                f,
                c,
            ),
        forall|k: int| g.n_primary * g.primary_q <= k < g.k_total ==> #[trigger] w[k] == u[k],
        forall|v: S| #[trigger] S::zero_of().sum_with(v) == v,
    ensures
        effects_of(theta, g, w, ModeLayout::Sparse, n) == effects_of(
            theta,
            g,
            u,
            ModeLayout::Dense,
            n,
        ),
    decreases n,
{
    if n > 0 {
        let e = n - 1;
        both_orders_report_the_same(theta, g, w, u, e as nat);
        let widths = g.widths();
        let levels = g.levels();
        let q = widths[e];
        let start = theta_at(widths, e as nat) as int;
        let off = effects_at(widths, levels, e as nat) as int;
        let scales = g.scales()[e];
        let sparse = block_effects(theta, g, w, ModeLayout::Sparse, e);
        let dense = block_effects(theta, g, u, ModeLayout::Dense, e);
        assert forall|l: int, r: int| 0 <= l < levels[e] && 0 <= r < q implies #[trigger] sparse(
            l,
            r,
        ) == dense(l, r) by {
            if e == 0 {
                let s = g.n_primary as int;
                let a = effect_terms(theta, start, q, scales, w, l, s, r);
                let b = effect_terms(theta, start, q, scales, u, 0 + l * q, 1, r);
                assert forall|c: int| 0 <= c < r + 1 implies #[trigger] a(c) == b(c) by {
                    assert(same_mode(w, u, s, q as int, l, c));
                    assert(w[l + c * s] == u[0 + l * q + c * 1]);
                }
                lemma_equal_sums((r + 1) as nat, a, b);
            } else {
                assert(g.extra_in_place(e - 1));
                assert(g.extra_slope_cols@[e - 1]@.len() == 0);
                assert(q == 1);
                let a = effect_terms(theta, start, q, scales, w, off + l * q, 1, 0);
                assert(sum_to(1, a) == S::zero_of().sum_with(a(0))) by {
                    reveal_with_fuel(sum_to, 2);
                }
                effect_index_in_bounds(widths, levels, e as nat, widths.len(), l, 0);
                lemma_effects_at(widths, levels, 1, e as nat);
                lemma_first_block(widths, levels);
                assert(l * q == l) by (nonlinear_arith)
                    requires
                        q == 1,
                ;
                assert(w[off + l] == u[off + l]);
            }
        }
        lemma_equal_blocks(levels[e], q, sparse, dense);
    }
}

/// Where mode `c` of level `l` of grouping `e` stands: level by level within the block of
/// the grouping, but in the sparse order the primary block goes component by component.
pub open spec fn mode_place<S: Scalar>(
    g: LmmGroupings<S>,
    layout: ModeLayout,
    e: int,
    l: int,
    c: int,
) -> int {
    if layout is Sparse && e == 0 {
        c * g.n_primary + l
    } else {
        effects_at(g.widths(), g.levels(), e as nat) + l * g.widths()[e] + c
    }
}

/// A reported effect is its row of the factor times the modes of its level: in exact
/// arithmetic, effect `r` of level `l` of grouping `e` is the sum over the row of the
/// grouping's parameters over the row scale, each times the mode that belongs to it. It
/// stands at `l * q + r` in the block of the grouping.
pub proof fn reported_effects_are_factor_times_modes<S: Scalar>(
    value: spec_fn(S) -> real,
    theta: Seq<S>,
    g: LmmGroupings<S>,
    u: Seq<S>,
    layout: ModeLayout,
    e: int,
    l: int,
    r: int,
)
    requires
        exact(value),
        g.wf(),
        layout is Dense ==> !g.extra_slopes_any,
        g.theta_len() <= theta.len(),
        g.k_total <= u.len(),
        readable(value, theta, g),
        forall|k: int| 0 <= k < u.len() ==> (#[trigger] u[k]).finite(),
        0 <= e < g.widths().len(),
        0 <= l < g.levels()[e],
        0 <= r < g.widths()[e],
    ensures
        ({
            let q = g.widths()[e];
            let start = theta_at(g.widths(), e as nat);
            let all = effects_of(theta, g, u, layout, g.widths().len());
            let b = all[effects_at(g.widths(), g.levels(), e as nat) + l * q + r];
            &&& all.len() == g.k_total
            &&& b.finite()
            &&& value(b) == total(
                (r + 1) as nat,
                |c: int|
                    (value(theta[start + vech_index(q, r, c)]) / value(g.scales()[e][r])) * value(
                        u[mode_place(g, layout, e, l, c)],
                    ),
            )
        }),
{
    let w = g.widths();
    let k = g.levels();
    let q = w[e];
    let start = theta_at(w, e as nat) as int;
    let off = effects_at(w, k, e as nat) as int;
    let scales = g.scales()[e];
    reported_effects_follow_the_layout(theta, g, u, layout, w.len());
    let b = block_effects(theta, g, u, layout, e)(l, r);
    let want = |c: int|
        (value(theta[start + vech_index(q, r, c)]) / value(g.scales()[e][r])) * value(
            u[mode_place(g, layout, e, l, c)],
        );
    lemma_theta_at(w, (e + 1) as nat, w.len());
    lemma_first_block(w, k);
    assert(w.len() == 1 + g.extra_q@.len());
    assert forall|c: int| 0 <= c <= r implies 0 <= #[trigger] mode_place(g, layout, e, l, c)
        < g.k_total by {
        effect_index_in_bounds(w, k, e as nat, w.len(), l, c);
        if layout is Sparse && e == 0 {
            let s = g.n_primary as int;
            assert(0 <= c * s + l < s * q) by (nonlinear_arith)
                requires
                    0 <= l < s,
                    0 <= c < q,
            ;
            lemma_effects_at(w, k, 1, w.len());
        }
    }
    assert forall|c: int| 0 <= c <= r implies {
        let entry = #[trigger] factor_entry(theta, start, q, scales, r, c);
        entry.finite() && value(entry) == value(theta[start + vech_index(q, r, c)]) / value(
            g.scales()[e][r],
        )
    } by {
        crate::layout::lemma_vech_index(q, r, c);
        assert(g.scales()[e][r].finite());
        assert(theta[start + vech_index(q, r, c)].finite());
    }
    if layout is Dense && e != 0 {
        assert(g.extra_in_place(e - 1));
        assert(g.extra_slope_cols@[e - 1]@.len() == 0);
        assert(q == 1 && r == 0);
        assert(l * q == l) by (nonlinear_arith)
            requires
                q == 1,
        ;
        let entry = factor_entry(theta, start, q, scales, r, 0);
        assert(mode_place(g, layout, e, l, 0) == off + l);
        assert(u[mode_place(g, layout, e, l, 0)].finite());
        assert(b == entry.product(u[off + l]));
        assert(total(1, want) == total(0, want) + want(0));
    } else {
        let (base, step): (int, int) = if layout is Sparse && e == 0 {
            (l, g.n_primary as int)
        } else {
            (off + l * q, 1int)
        };
        let terms = effect_terms(theta, start, q, scales, u, base, step, r);
        assert(b == sum_to((r + 1) as nat, terms));
        assert forall|c: int| 0 <= c < r + 1 implies (#[trigger] terms(c)).finite() && value(
            terms(c),
        ) == want(c) by {
            let entry = factor_entry(theta, start, q, scales, r, c);
            assert(base + c * step == mode_place(g, layout, e, l, c));
            assert(u[mode_place(g, layout, e, l, c)].finite());
        }
        sum_reads_exactly(value, (r + 1) as nat, terms, want);
    }
}

} // verus!
