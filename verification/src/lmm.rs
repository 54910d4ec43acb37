//! The report of a linear mixed model.
use crate::diagnostics::{
    materialize_diagnostics, notes_say_what_the_route_found, reports, Boundary, Diagnostics,
    FitDiagnostics,
};
use crate::fit::{
    linear_criterion_is_minus_twice_the_loglik, lmm_loglik, lmm_loglik_of, Fit,
};
use crate::fitted::{
    lmm_fitted, means_add_up, own_part, row_is_finite, row_mean, rows_in_levels,
    slopes_in_design,
};
use crate::groupings::{
    effects_at, every_parameter_has_a_scale, parameters_take_the_scale_of_their_row,
    ranef_level_counts, theta_at, theta_scales, LmmGroupings,
};
use crate::inference::{
    covariance_inverts_the_precision, fill_se_by_predictor, is_target, is_target_covariance,
    nan_vcov, precision_entry, solvable, usable, vcov_from_chol,
};
use crate::layout::vech_index;
use crate::matrix::ColMajor;
use crate::model::GroupIds;
use crate::options::{opt_seq, FitOptions};
use crate::ranef::{
    assemble_ranef_sparse, effects_of, mode_place, reported_effects_are_factor_times_modes,
    reported_effects_follow_the_layout, ModeLayout,
};
use crate::reading::{exact, lemma_total_equal, sum_reads_exactly, total};
use crate::scalar::{constant, copied, filled, rows, sum_to, Scalar};
use crate::varcorr::{
    assemble_varcorr, covariance_of, every_block_carries_the_scale,
    packed_covariance_holds_row_products, readable,
};
use vstd::prelude::*;

verus! {

/// What the search over the variance parameters of a linear mixed model found.
#[derive(Debug)]
pub struct LmmFit<S: Scalar> {
    /// The search converged.
    pub converged: bool,
    /// Residual variance.
    pub sigma_sq: S,
    /// The minimized criterion; not finite where no endpoint was reached.
    pub deviance: S,
    /// Joint Wald statistic over the targets.
    pub joint_t_sq: S,
    /// 0 for an optimum in the interior, 1 for a pinned component, 2 for no
    /// optimum.
    pub boundary_hit: u8,
    /// One bit per pinned diagonal parameter.
    pub pinned_components: u64,
    /// Evaluations of the criterion.
    pub n_eval: usize,
    /// Smallest pivot ratio of the design.
    pub pivot: S,
    /// Column of that pivot.
    pub pivot_col: u32,
    /// The pivot fell below the floor.
    pub ill_conditioned: bool,
}

/// What a linear mixed kernel left behind.
#[derive(Debug)]
pub struct LmmResultView<S: Scalar> {
    /// The search.
    pub fit: LmmFit<S>,
    /// Fixed effects.
    pub betas: Vec<S>,
    /// Variances of the fixed effects, in coefficient order; the targets' count.
    pub var_diag: Vec<S>,
    /// Wald statistics of the fixed effects, in coefficient order.
    pub t_sq: Vec<S>,
    /// Cholesky factor of the precision of the fixed effects.
    pub factor: ColMajor<S>,
    /// Variance parameters, on the kernel's scales.
    pub theta: Vec<S>,
    /// The layout of the random effects.
    pub groupings: LmmGroupings<S>,
    /// Rows that the kernel accumulated.
    pub n_rows: usize,
    /// Spherical modes of the random effects; read where an endpoint was reached.
    pub modes: Vec<S>,
}

impl<S: Scalar> LmmResultView<S> {
    /// The diagnostics of the fit.
    pub open spec fn carrier(&self) -> FitDiagnostics<S> {
        FitDiagnostics {
            converged: self.fit.converged,
            boundary_hit: self.fit.boundary_hit,
            pinned_components: self.fit.pinned_components,
            pivot: self.fit.pivot,
            pivot_col: self.fit.pivot_col,
            ill_conditioned: self.fit.ill_conditioned,
            pirls_exhausted: 0,
            final_pirls_exhausted: false,
            hessian_fallback: false,
        }
    }

    /// The diagnostics of the fit.
    pub fn diagnostics(&self) -> (r: FitDiagnostics<S>)
        ensures
            r == self.carrier(),
    {
        FitDiagnostics {
            converged: self.fit.converged,
            boundary_hit: self.fit.boundary_hit,
            pinned_components: self.fit.pinned_components,
            pivot: self.fit.pivot,
            pivot_col: self.fit.pivot_col,
            ill_conditioned: self.fit.ill_conditioned,
            pirls_exhausted: 0,
            final_pirls_exhausted: false,
            hessian_fallback: false,
        }
    }

    /// The layout, the parameters, the factor and the modes of an endpoint fit
    /// together, and the boundary code is one of the three.
    pub open spec fn wf(&self) -> bool {
        &&& self.groupings.wf()
        &&& self.theta@.len() == self.groupings.theta_len()
        &&& self.factor.wf()
        &&& self.fit.boundary_hit <= 2
        &&& self.fit.deviance.finite() ==> self.groupings.k_total <= self.modes@.len()
    }
}

/// Every target names one of `p` coefficients, and has a variance.
pub open spec fn targets_in(targets: Seq<u32>, p: nat, n_var: nat) -> bool {
    forall|i: int|
        0 <= i < targets.len() ==> #[trigger] targets[i] < p && targets[i] < n_var
}

/// Standard errors of `p` coefficients: the root of the variance of a target,
/// undefined for any other coefficient and for an unusable variance.
pub open spec fn target_se<S: Scalar>(var_diag: Seq<S>, targets: Seq<u32>, p: nat) -> Seq<S> {
    Seq::new(
        p,
        |j: int|
            if is_target(targets, j) && usable(var_diag[j]) {
                var_diag[j].root()
            } else {
                S::nan_of()
            },
    )
}

/// The standard errors of `p` coefficients.
pub fn se_of_targets<S: Scalar>(var_diag: &[S], targets: &[u32], p: usize) -> (se: Vec<S>)
    requires
        targets_in(targets@, p as nat, var_diag@.len()),
    ensures
        se@ == target_se(var_diag@, targets@, p as nat),
{
    let mut se: Vec<S> = filled(p, S::nan());
    fill_se_by_predictor(var_diag, targets, &mut se);
    assert(se@ =~= target_se(var_diag@, targets@, p as nat));
    se
}

/// Squared variance parameters in the units of the design: each parameter over
/// its row scale, squared, times `scale`.
pub open spec fn squared_parameters<S: Scalar>(theta: Seq<S>, scales: Seq<S>, scale: S) -> Seq<S> {
    Seq::new(
        theta.len(),
        |k: int|
            theta[k].quotient(scales[k]).product(theta[k].quotient(scales[k])).product(scale),
    )
}

/// Squared variance parameters in the units of the design.
pub fn square_parameters<S: Scalar>(theta: &[S], scales: &[S], scale: S) -> (tau2: Vec<S>)
    requires
        theta@.len() == scales@.len(),
    ensures
        tau2@ == squared_parameters(theta@, scales@, scale),
{
    let mut tau2: Vec<S> = Vec::with_capacity(theta.len());
    let mut k: usize = 0;
    while k < theta.len()
        invariant
            k <= theta.len(),
            theta@.len() == scales@.len(),
            tau2@ == squared_parameters(theta@, scales@, scale).take(k as int),
        decreases theta.len() - k,
    {
        let t: S = theta[k].over(scales[k]);
        tau2.push(t.times(t).times(scale));
        k = k + 1;
    }
    assert(tau2@ =~= squared_parameters(theta@, scales@, scale));
    tau2
}

/// Rows that a linear mixed kernel accumulates out of `n` rows over `p` columns:
/// none where there is no column.
pub fn accumulated_rows(n: usize, p: usize) -> (r: usize)
    ensures
        r == (if p > 0 {
            n
        } else {
            0
        }),
{
    if n > 0 && p > 0 {
        n
    } else {
        0
    }
}

/// What a report needs beyond the kernel's result: whether a component of the
/// covariance is negligible.
#[derive(Clone, Copy, Debug)]
pub struct LmmAside {
    /// A variance component is negligible.
    pub negligible: bool,
}

/// The logarithms of the weights, as the terms of a sum.
pub open spec fn log_terms<S: Scalar>(weights: Seq<S>) -> spec_fn(int) -> S {
    |i: int| weights[i].logarithm()
}

/// Sum of the logarithms of the weights.
pub open spec fn log_weights<S: Scalar>(weights: Seq<S>) -> S {
    sum_to(weights.len(), log_terms(weights))
}

/// Sum of the logarithms of the weights.
pub fn sum_log_weights<S: Scalar>(weights: &[S]) -> (r: S)
    ensures
        r == log_weights(weights@),
{
    let ghost terms = log_terms(weights@);
    let mut total: S = S::zero();
    let mut i: usize = 0;
    while i < weights.len()
        invariant
            i <= weights.len(),
            terms == log_terms(weights@),
            total == sum_to(i as nat, terms),
        decreases weights.len() - i,
    {
        total = total.plus(weights[i].ln());
        i = i + 1;
    }
    total
}

/// The rows can be summed up: they name levels of the layout, the slopes name
/// columns, and an offset covers the rows.
pub open spec fn rows_fit<S: Scalar>(
    v: LmmResultView<S>,
    x: Seq<S>,
    ids: GroupIds,
    n: nat,
    p: nat,
    opts: FitOptions<S>,
) -> bool {
    &&& x.len() == n * p
    &&& rows_in_levels(v.groupings, ids.primary@, rows(ids.extra@), n as int)
    &&& slopes_in_design(v.groupings, p as int)
    &&& opts.offset matches Some(o) ==> n <= o@.len()
}

/// The covariance blocks of a fit.
pub open spec fn blocks_of<S: Scalar>(theta: Seq<S>, g: LmmGroupings<S>, scale: S) -> Seq<
    Seq<S>,
> {
    Seq::new(g.widths().len(), |e: int| covariance_of(theta, g, scale, e))
}

/// Level counts of the groupings.
pub open spec fn level_seq<S: Scalar>(g: LmmGroupings<S>) -> Seq<usize> {
    Seq::new(g.levels().len(), |e: int| g.levels()[e] as usize)
}

/// The report `f` of the linear mixed result `v`, without the means and modes of
/// the rows.
pub open spec fn is_lmm_report<S: Scalar>(
    f: Fit<S>,
    v: LmmResultView<S>,
    n: nat,
    p: nat,
    opts: FitOptions<S>,
    aside: LmmAside,
) -> bool {
    let g = v.groupings;
    let sigma = v.fit.sigma_sq;
    let targets = opts.target_indices@;
    let endpoint = v.fit.deviance.finite();
    let scales = theta_scales(g.widths(), g.scales(), g.widths().len());
    &&& f.beta@ == v.betas@
    &&& f.beta@.len() == p
    &&& f.se@ == target_se(v.var_diag@, targets, p)
    &&& f.tau2@ == if endpoint {
        squared_parameters(v.theta@, scales, sigma)
    } else {
        constant(v.theta@.len(), S::nan_of())
    }
    &&& rows(f.varcorr@) == if endpoint {
        blocks_of(v.theta@, g, sigma)
    } else {
        Seq::empty()
    }
    &&& if endpoint {
        is_target_covariance(rows(f.vcov@), v.factor, p, targets, sigma)
    } else {
        rows(f.vcov@) == constant(p, constant(p, S::nan_of()))
    }
    &&& f.dispersion == sigma
    &&& reports(f.diagnostics, v.carrier(), p, rows(f.varcorr@), aside.negligible)
    &&& f.stddev_se@.len() == 0
    &&& f.n_eval == v.fit.n_eval
    &&& match opts.weights {
        None => {
            &&& f.deviance == v.fit.deviance
            &&& f.loglik == lmm_loglik_of(v.fit.deviance, v.n_rows as nat, p)
        },
        Some(w) => {
            &&& f.deviance == v.fit.deviance.less(log_weights(w@))
            &&& f.loglik == lmm_loglik_of(f.deviance, n, p)
        },
    }
    &&& f.df == if endpoint {
        p + v.theta@.len() + 1
    } else {
        0
    }
    &&& f.reml
}

/// The means and modes in the report `f` of the linear mixed result `v`; of an
/// endpoint that was not reached only the level counts, which belong to the design.
pub open spec fn is_lmm_recovery<S: Scalar>(
    f: Fit<S>,
    v: LmmResultView<S>,
    x: Seq<S>,
    ids: GroupIds,
    n: nat,
    p: nat,
    opts: FitOptions<S>,
) -> bool {
    let g = v.groupings;
    &&& f.ranef_levels@ == level_seq(g)
    &&& if v.fit.deviance.finite() {
        &&& f.ranef@ == effects_of(
            v.theta@,
            g,
            v.modes@,
            ModeLayout::Sparse,
            g.widths().len(),
        )
        &&& f.fitted@ == Seq::new(
            n,
            |i: int|
                row_mean(
                    x,
                    p as int,
                    i,
                    f.beta@,
                    f.ranef@,
                    g,
                    ids.primary@,
                    rows(ids.extra@),
                    opt_seq(opts.offset),
                    (1 + ids.extra@.len()) as nat,
                ),
        )
    } else {
        &&& f.ranef@.len() == 0
        &&& f.fitted@.len() == 0
    }
}

/// The report of a linear mixed model.
///
/// The standard errors come from the variances of the targets, the covariance of
/// the fixed effects from the factor, the variance components from the
/// parameters, the modes of the rows' levels and the means from them; all but the
/// standard errors are withheld where the search reached no endpoint, whether it
/// converged or not. With weights the deviance loses the sum of their logarithms,
/// and the log-likelihood follows it: no caller corrects either.
pub fn lmm_view_to_fit<S: Scalar>(
    v: &LmmResultView<S>,
    x: &[S],
    ids: &GroupIds,
    n: usize,
    p: usize,
    opts: &FitOptions<S>,
    aside: &LmmAside,
) -> (f: Fit<S>)
    requires
        v.wf(),
        v.betas@.len() == p,
        targets_in(opts.target_indices@, p as nat, v.var_diag@.len()),
        p <= v.factor.height(),
        p <= v.factor.width(),
        p + v.theta@.len() < usize::MAX,
        v.fit.deviance.finite() ==> rows_fit(*v, x@, *ids, n as nat, p as nat, *opts),
    ensures
        is_lmm_report(f, *v, n as nat, p as nat, *opts, *aside),
        is_lmm_recovery(f, *v, x@, *ids, n as nat, p as nat, *opts),
{
    let sigma_sq: S = v.fit.sigma_sq;
    let endpoint: bool = v.fit.deviance.is_finite();
    let beta: Vec<S> = copied(v.betas.as_slice());
    let se: Vec<S> = se_of_targets(
        v.var_diag.as_slice(),
        opts.target_indices.as_slice(),
        p,
    );
    let n_theta: usize = v.theta.len();
    let scales: Vec<S> = v.groupings.theta_row_scales();
    let tau2: Vec<S> = if endpoint {
        square_parameters(v.theta.as_slice(), scales.as_slice(), sigma_sq)
    } else {
        filled(n_theta, S::nan())
    };
    let varcorr: Vec<Vec<S>> = if endpoint {
        assemble_varcorr(v.theta.as_slice(), &v.groupings, sigma_sq)
    } else {
        Vec::new()
    };
    proof {
        if endpoint {
            assert(rows(varcorr@) =~= blocks_of(v.theta@, v.groupings, sigma_sq));
        } else {
            assert(rows(varcorr@) =~= Seq::empty());
        }
    }
    let vcov: Vec<Vec<S>> = if endpoint {
        vcov_from_chol(&v.factor, p, opts.target_indices.as_slice(), sigma_sq)
    } else {
        let vcov: Vec<Vec<S>> = nan_vcov(p);
        assert(rows(vcov@) =~= constant(p as nat, constant(p as nat, S::nan_of())));
        vcov
    };
    let carrier: FitDiagnostics<S> = v.diagnostics();
    let mut diagnostics: Diagnostics<S> = materialize_diagnostics(
        &carrier,
        p,
        varcorr.as_slice(),
    );
    diagnostics.singular = diagnostics.singular || aside.negligible;
    let (deviance, loglik): (S, S) = match &opts.weights {
        None => (v.fit.deviance, lmm_loglik(v.fit.deviance, v.n_rows, p)),
        Some(w) => {
            let deviance: S = v.fit.deviance.minus(sum_log_weights(w.as_slice()));
            (deviance, lmm_loglik(deviance, n, p))
        },
    };
    let mut fitted: Vec<S> = Vec::new();
    let mut ranef: Vec<S> = Vec::new();
    let ranef_levels: Vec<usize> = ranef_level_counts(&v.groupings);
    assert(ranef_levels@ =~= level_seq(v.groupings));
    if endpoint {
        ranef = assemble_ranef_sparse(v.theta.as_slice(), &v.groupings, v.modes.as_slice());
        proof {
            reported_effects_follow_the_layout(
                v.theta@,
                v.groupings,
                v.modes@,
                ModeLayout::Sparse,
                v.groupings.widths().len(),
            );
        }
        let offset: Option<&[S]> = match &opts.offset {
            Some(o) => Some(o.as_slice()),
            None => None,
        };
        fitted =
        lmm_fitted(
            x,
            n,
            p,
            beta.as_slice(),
            ranef.as_slice(),
            &v.groupings,
            ids.primary.as_slice(),
            ids.extra.as_slice(),
            offset,
        );
    }
    Fit {
        beta,
        se,
        vcov,
        tau2,
        dispersion: sigma_sq,
        diagnostics,
        varcorr,
        stddev_se: Vec::new(),
        n_eval: v.fit.n_eval,
        deviance,
        loglik,
        df: if endpoint {
            p + n_theta + 1
        } else {
            0
        },
        reml: true,
        fitted,
        ranef,
        ranef_levels,
    }
}

/// Weights move the deviance of a linear mixed result by the sum of their
/// logarithms, and the log-likelihood with it; nothing else in the report depends
/// on them.
pub proof fn weights_move_the_criterion_alone<S: Scalar>(
    plain: Fit<S>,
    weighted: Fit<S>,
    v: LmmResultView<S>,
    x: Seq<S>,
    ids: GroupIds,
    n: nat,
    p: nat,
    opts: FitOptions<S>,
    opts_w: FitOptions<S>,
    aside: LmmAside,
)
    requires
        opts.weights is None,
        opts_w.weights is Some,
        opts_w.target_indices@ == opts.target_indices@,
        opt_seq(opts_w.offset) == opt_seq(opts.offset),
        is_lmm_report(plain, v, n, p, opts, aside),
        is_lmm_recovery(plain, v, x, ids, n, p, opts),
        is_lmm_report(weighted, v, n, p, opts_w, aside),
        is_lmm_recovery(weighted, v, x, ids, n, p, opts_w),
    ensures
        weighted.deviance == plain.deviance.less(log_weights(opts_w.weights->0@)),
        weighted.loglik == lmm_loglik_of(weighted.deviance, n, p),
        weighted.beta@ == plain.beta@,
        weighted.se@ == plain.se@,
        rows(weighted.vcov@) == rows(plain.vcov@),
        weighted.tau2@ == plain.tau2@,
        rows(weighted.varcorr@) == rows(plain.varcorr@),
        weighted.dispersion == plain.dispersion,
        weighted.df == plain.df,
        weighted.n_eval == plain.n_eval,
        weighted.diagnostics.converged == plain.diagnostics.converged,
        weighted.diagnostics.singular == plain.diagnostics.singular,
        weighted.fitted@ == plain.fitted@,
        weighted.ranef@ == plain.ranef@,
        weighted.ranef_levels@ == plain.ranef_levels@,
        weighted.reml && plain.reml,
{
    lemma_one_covariance(weighted, plain, v, n, p, opts_w, opts, aside);
}

/// The covariance of a report depends on the result and on the targets alone.
pub proof fn lemma_one_covariance<S: Scalar>(
    f: Fit<S>,
    g: Fit<S>,
    v: LmmResultView<S>,
    n: nat,
    p: nat,
    opts_f: FitOptions<S>,
    opts_g: FitOptions<S>,
    aside: LmmAside,
)
    requires
        opts_f.target_indices@ == opts_g.target_indices@,
        is_lmm_report(f, v, n, p, opts_f, aside),
        is_lmm_report(g, v, n, p, opts_g, aside),
    ensures
        rows(f.vcov@) == rows(g.vcov@),
{
    let a = rows(f.vcov@);
    let b = rows(g.vcov@);
    if v.fit.deviance.finite() {
        assert forall|i: int| 0 <= i < p implies #[trigger] a[i] == b[i] by {
            assert(b[i].len() == p);
            assert forall|j: int| 0 <= j < p implies #[trigger] a[i][j] == b[i][j] by {}
            assert(a[i] =~= b[i]);
        }
        assert(a =~= b);
    }
}

/// The first `k` logarithms of unit weights add up to nothing.
proof fn lemma_unit_weights<S: Scalar>(weights: Seq<S>, k: nat)
    requires
        k <= weights.len(),
        forall|i: int| 0 <= i < weights.len() ==> #[trigger] weights[i] == S::one_of(),
        S::one_of().logarithm() == S::zero_of(),
        S::zero_of().sum_with(S::zero_of()) == S::zero_of(),
    ensures
        sum_to(k, log_terms(weights)) == S::zero_of(),
    decreases k,
{
    if k > 0 {
        lemma_unit_weights(weights, (k - 1) as nat);
        assert(weights[k - 1] == S::one_of());
    }
}

/// Unit weights leave the criterion as it is, in a number type in which the
/// logarithm of one is zero and zero changes nothing.
pub proof fn unit_weights_change_nothing<S: Scalar>(
    plain: Fit<S>,
    weighted: Fit<S>,
    v: LmmResultView<S>,
    n: nat,
    p: nat,
    opts: FitOptions<S>,
    opts_w: FitOptions<S>,
    aside: LmmAside,
)
    requires
        opts.weights is None,
        opts_w.weights matches Some(w) && forall|i: int|
            0 <= i < w@.len() ==> #[trigger] w@[i] == S::one_of(),
        v.n_rows == n,
        is_lmm_report(plain, v, n, p, opts, aside),
        is_lmm_report(weighted, v, n, p, opts_w, aside),
        S::one_of().logarithm() == S::zero_of(),
        S::zero_of().sum_with(S::zero_of()) == S::zero_of(),
        v.fit.deviance.less(S::zero_of()) == v.fit.deviance,
    ensures
        weighted.deviance == plain.deviance,
        weighted.loglik == plain.loglik,
{
    let w = opts_w.weights->0@;
    lemma_unit_weights(w, w.len());
}

/// A coefficient that is no target has neither a standard error nor a covariance
/// with anything: the two are reported of the same coefficients.
pub proof fn only_targets_are_reported<S: Scalar>(
    f: Fit<S>,
    v: LmmResultView<S>,
    n: nat,
    p: nat,
    opts: FitOptions<S>,
    aside: LmmAside,
    j: int,
    k: int,
)
    requires
        is_lmm_report(f, v, n, p, opts, aside),
        0 <= j < p,
        0 <= k < p,
        !is_target(opts.target_indices@, j),
    ensures
        f.se@[j] == S::nan_of(),
        f.vcov@[j]@[k] == S::nan_of(),
        f.vcov@[k]@[j] == S::nan_of(),
{
    assert(rows(f.vcov@).len() == p);
    assert(rows(f.vcov@)[j][k] == S::nan_of());
    assert(rows(f.vcov@)[k][j] == S::nan_of());
}

/// A search that reached no endpoint reports no variance component, no
/// covariance, no parameter and no mean: all of them are withheld together.
pub proof fn no_endpoint_withholds_everything<S: Scalar>(
    f: Fit<S>,
    v: LmmResultView<S>,
    x: Seq<S>,
    ids: GroupIds,
    n: nat,
    p: nat,
    opts: FitOptions<S>,
    aside: LmmAside,
)
    requires
        !v.fit.deviance.finite(),
        is_lmm_report(f, v, n, p, opts, aside),
        is_lmm_recovery(f, v, x, ids, n, p, opts),
    ensures
        f.tau2@ == constant(v.theta@.len(), S::nan_of()),
        f.varcorr@.len() == 0,
        rows(f.vcov@) == constant(p, constant(p, S::nan_of())),
        f.df == 0,
        f.fitted@.len() == 0,
        f.ranef@.len() == 0,
        opts.weights is None ==> f.loglik == S::nan_of(),
{
    assert(rows(f.varcorr@).len() == f.varcorr@.len());
}

/// The standard error of a coefficient is the root of its variance where the coefficient
/// is a target and its variance is finite and not negative, and undefined otherwise.
pub proof fn errors_are_roots_of_target_variances<S: Scalar>(
    var_diag: Seq<S>,
    targets: Seq<u32>,
    p: nat,
    j: int,
)
    requires
        0 <= j < p,
    ensures
        target_se(var_diag, targets, p).len() == p,
        (exists|i: int| 0 <= i < targets.len() && #[trigger] targets[i] == j)
            && var_diag[j].finite() && var_diag[j].nonneg() ==> target_se(
            var_diag,
            targets,
            p,
        )[j] == var_diag[j].root(),
        !(exists|i: int| 0 <= i < targets.len() && #[trigger] targets[i] == j) || !(
        var_diag[j].finite() && var_diag[j].nonneg()) ==> target_se(var_diag, targets, p)[j]
            == S::nan_of(),
{
}

/// The report of a linear mixed model passes on what the search found: the coefficients,
/// the residual variance as the dispersion, the evaluations, convergence and the place of
/// the optimum. It is on the restricted criterion, and counts the coefficients, the
/// variance parameters and the residual variance where an endpoint was reached.
pub proof fn linear_reports_pass_the_search_on<S: Scalar>(
    f: Fit<S>,
    v: LmmResultView<S>,
    x: Seq<S>,
    ids: GroupIds,
    n: nat,
    p: nat,
    opts: FitOptions<S>,
    aside: LmmAside,
    e: int,
)
    requires
        v.wf(),
        is_lmm_report(f, v, n, p, opts, aside),
        is_lmm_recovery(f, v, x, ids, n, p, opts),
    ensures
        f.beta@ == v.betas@ && f.beta@.len() == p && f.se@.len() == p,
        f.dispersion == v.fit.sigma_sq,
        f.n_eval == v.fit.n_eval,
        f.reml,
        f.stddev_se@.len() == 0,
        f.tau2@.len() == v.theta@.len(),
        v.fit.deviance.finite() ==> f.df == p + v.theta@.len() + 1,
        !v.fit.deviance.finite() ==> f.df == 0,
        opts.weights is None ==> f.deviance == v.fit.deviance,
        f.diagnostics.converged == v.fit.converged,
        f.diagnostics.boundary == Boundary::Interior <==> v.fit.boundary_hit == 0,
        f.diagnostics.boundary == Boundary::AtBoundary <==> v.fit.boundary_hit == 1,
        f.diagnostics.singular <==> v.fit.boundary_hit == 1 || aside.negligible,
        v.fit.ill_conditioned ==> f.diagnostics.notes@.len() == 1 && f.diagnostics.notes@[0]@
            is IllConditioned && f.diagnostics.notes@[0]@->columns == seq![v.fit.pivot_col]
            && f.diagnostics.notes@[0]@->pivot == v.fit.pivot,
        !v.fit.ill_conditioned ==> f.diagnostics.notes@.len() == 0,
        f.ranef_levels@.len() == v.groupings.levels().len(),
        0 <= e < v.groupings.levels().len() ==> f.ranef_levels@[e] == v.groupings.levels()[e],
        v.fit.deviance.finite() ==> f.fitted@.len() == n && f.ranef@.len() == v.groupings.k_total
            && f.varcorr@.len() == v.groupings.widths().len(),
{
    notes_say_what_the_route_found(
        f.diagnostics,
        v.carrier(),
        p,
        rows(f.varcorr@),
        aside.negligible,
    );
    if v.fit.ill_conditioned {
        assert(f.diagnostics.notes@[0]@->columns =~= seq![v.fit.pivot_col]);
    }
    let g = v.groupings;
    assert(g.levels().len() == 1 + g.extra_q@.len());
    if 0 < e < g.levels().len() {
        assert(g.extra_in_place(e - 1));
    }
    if v.fit.deviance.finite() {
        reported_effects_follow_the_layout(
            v.theta@,
            g,
            v.modes@,
            ModeLayout::Sparse,
            g.widths().len(),
        );
        assert(g.widths().len() == 1 + g.extra_q@.len());
        assert(rows(f.varcorr@).len() == f.varcorr@.len());
    }
}

/// With weights, the deviance of a linear mixed model is that of the search without the
/// logarithms of the weights, and minus twice the log-likelihood is the deviance and the
/// constant of the density; without weights the deviance is that of the search.
pub proof fn linear_criteria_follow_the_weights<S: Scalar>(
    value: spec_fn(S) -> real,
    f: Fit<S>,
    v: LmmResultView<S>,
    n: nat,
    p: nat,
    opts: FitOptions<S>,
    aside: LmmAside,
)
    requires
        exact(value),
        is_lmm_report(f, v, n, p, opts, aside),
        v.fit.deviance.finite(),
        S::one_plus_ln_two_pi_of().finite(),
        p < n <= usize::MAX,
        v.n_rows == n,
        opts.weights matches Some(w) ==> forall|i: int|
            0 <= i < w@.len() ==> (#[trigger] w@[i].logarithm()).finite(),
    ensures
        value(f.deviance) == value(v.fit.deviance) - (match opts.weights {
            Some(w) => total(w@.len(), |i: int| value(w@[i].logarithm())),
            None => 0real,
        }),
        -2real * value(f.loglik) == value(f.deviance) + (n - p) as real * value(
            S::one_plus_ln_two_pi_of(),
        ),
{
    if let Some(w) = opts.weights {
        let terms = log_terms(w@);
        let g = |i: int| value(w@[i].logarithm());
        assert forall|i: int| 0 <= i < w@.len() implies (#[trigger] terms(i)).finite() && value(
            terms(i),
        ) == g(i) by {
            assert(w@[i].logarithm().finite());
        }
        sum_reads_exactly(value, w@.len(), terms, g);
    }
    linear_criterion_is_minus_twice_the_loglik(value, f.deviance, n, p);
}

/// A squared parameter is its parameter over the scale of its row, squared, times the
/// scale of the components, for every entry `(r, c)` of every grouping.
pub proof fn squared_parameters_carry_the_scale<S: Scalar>(
    value: spec_fn(S) -> real,
    theta: Seq<S>,
    g: LmmGroupings<S>,
    scale: S,
    e: int,
    r: int,
    c: int,
)
    requires
        exact(value),
        scale.finite(),
        theta.len() == g.theta_len(),
        readable(value, theta, g),
        0 <= e < g.widths().len(),
        0 <= c <= r < g.widths()[e],
    ensures
        ({
            let k = theta_at(g.widths(), e as nat) + vech_index(g.widths()[e], r, c);
            let scales = theta_scales(g.widths(), g.scales(), g.widths().len());
            let t = value(theta[k]) / value(g.scales()[e][r]);
            let square = squared_parameters(theta, scales, scale)[k];
            &&& 0 <= k < theta.len()
            &&& square.finite()
            &&& value(square) == t * t * value(scale)
        }),
{
    let w = g.widths();
    assert(w.len() == 1 + g.extra_q@.len());
    parameters_take_the_scale_of_their_row(w, g.scales(), w.len(), e, r, c);
    every_parameter_has_a_scale(w, g.scales(), w.len());
    let k = theta_at(w, e as nat) + vech_index(w[e], r, c);
    assert(theta[k].finite());
    assert(g.scales()[e][r].finite());
}

/// The variance components of a linear mixed model are on the scale of its residual
/// variance, in every grouping alike: entry `(r, c)` of a covariance block is the residual
/// variance times the inner product of two rows of the grouping's factor, a squared
/// parameter is the residual variance times the parameter squared, and of a grouping with
/// an intercept alone the two agree.
pub proof fn linear_components_carry_the_residual_variance<S: Scalar>(
    value: spec_fn(S) -> real,
    f: Fit<S>,
    v: LmmResultView<S>,
    n: nat,
    p: nat,
    opts: FitOptions<S>,
    aside: LmmAside,
    e: int,
    r: int,
    c: int,
)
    requires
        exact(value),
        v.wf(),
        is_lmm_report(f, v, n, p, opts, aside),
        v.fit.deviance.finite(),
        v.fit.sigma_sq.finite(),
        readable(value, v.theta@, v.groupings),
        0 <= e < v.groupings.widths().len(),
        0 <= c <= r < v.groupings.widths()[e],
    ensures
        ({
            let g = v.groupings;
            let q = g.widths()[e];
            let start = theta_at(g.widths(), e as nat);
            let at = vech_index(q, r, c);
            let row = |i: int, k: int|
                value(v.theta@[start + vech_index(q, i, k)]) / value(g.scales()[e][i]);
            &&& 2 * f.varcorr@[e]@.len() == q * (q + 1)
            &&& value(f.varcorr@[e]@[at]) == value(v.fit.sigma_sq) * total(
                (c + 1) as nat,
                |k: int| row(r, k) * row(c, k),
            )
            &&& value(f.tau2@[start + at]) == value(v.fit.sigma_sq) * (row(r, c) * row(r, c))
            &&& q == 1 ==> value(f.varcorr@[e]@[0]) == value(f.tau2@[start as int])
        }),
{
    let g = v.groupings;
    let q = g.widths()[e];
    let start = theta_at(g.widths(), e as nat);
    let sigma = v.fit.sigma_sq;
    every_block_carries_the_scale(value, v.theta@, g, sigma, e, r, c);
    squared_parameters_carry_the_scale(value, v.theta@, g, sigma, e, r, c);
    packed_covariance_holds_row_products(
        v.theta@,
        start as int,
        q,
        sigma,
        g.scales()[e],
        r,
        c,
    );
    assert(rows(f.varcorr@)[e] == f.varcorr@[e]@);
    assert(rows(f.varcorr@)[e] == covariance_of(v.theta@, g, sigma, e));
    let row = |i: int, k: int|
        value(v.theta@[start + vech_index(q, i, k)]) / value(g.scales()[e][i]);
    let a = |k: int|
        (value(v.theta@[start + vech_index(q, r, k)]) / value(g.scales()[e][r])) * (value(
            v.theta@[start + vech_index(q, c, k)],
        ) / value(g.scales()[e][c]));
    let b = |k: int| row(r, k) * row(c, k);
    lemma_total_equal((c + 1) as nat, a, b);
    let t = row(r, c);
    let s = value(sigma);
    assert(t * t * s == s * (t * t)) by (nonlinear_arith);
    if q == 1 {
        assert(vech_index(1, 0, 0) == 0);
        assert(total(1, b) == total(0, b) + b(0));
    }
}

/// The covariance of the fixed effects of a linear mixed model is the residual variance
/// times the inverse of the precision behind the kernel's factor: with every coefficient a
/// target, the precision times the covariance is the residual variance times the unit
/// matrix.
pub proof fn linear_covariance_inverts_the_precision<S: Scalar>(
    value: spec_fn(S) -> real,
    f: Fit<S>,
    v: LmmResultView<S>,
    n: nat,
    p: nat,
    opts: FitOptions<S>,
    aside: LmmAside,
    i: int,
    j: int,
)
    requires
        exact(value),
        is_lmm_report(f, v, n, p, opts, aside),
        v.fit.deviance.finite(),
        v.fit.sigma_sq.finite(),
        solvable(value, v.factor, p),
        p <= u32::MAX,
        forall|t: u32| t < p ==> #[trigger] opts.target_indices@.contains(t),
        0 <= i < p,
        0 <= j < p,
    ensures
        total(
            p,
            |k: int| precision_entry(value, v.factor, p, i, k) * value(rows(f.vcov@)[k][j]),
        ) == (if i == j {
            value(v.fit.sigma_sq)
        } else {
            0real
        }),
{
    covariance_inverts_the_precision(
        value,
        rows(f.vcov@),
        v.factor,
        p,
        opts.target_indices@,
        v.fit.sigma_sq,
        i,
        j,
    );
}

/// The mean of a row that a linear mixed model reports is made of what it reports: offset,
/// fixed effects times the row, and the reported effects of the row's own levels, each
/// slope on its own column.
pub proof fn linear_means_add_up<S: Scalar>(
    value: spec_fn(S) -> real,
    f: Fit<S>,
    v: LmmResultView<S>,
    x: Seq<S>,
    ids: GroupIds,
    n: nat,
    p: nat,
    opts: FitOptions<S>,
    i: int,
)
    requires
        exact(value),
        v.wf(),
        v.fit.deviance.finite(),
        is_lmm_recovery(f, v, x, ids, n, p, opts),
        rows_fit(v, x, ids, n, p, opts),
        f.beta@.len() <= p,
        0 <= i < n,
        row_is_finite(x, p as int, i, f.beta@, f.ranef@, opt_seq(opts.offset)),
    ensures
        value(f.fitted@[i]) == (match opts.offset {
            Some(o) => value(o@[i]),
            None => 0real,
        }) + total(f.beta@.len(), |j: int| value(x[i * p + j]) * value(f.beta@[j])) + total(
            (1 + ids.extra@.len()) as nat,
            |e: int|
                own_part(
                    value,
                    x,
                    p as int,
                    f.ranef@,
                    v.groupings,
                    ids.primary@,
                    rows(ids.extra@),
                    i,
                    e,
                ),
        ),
{
    let g = v.groupings;
    reported_effects_follow_the_layout(
        v.theta@,
        g,
        v.modes@,
        ModeLayout::Sparse,
        g.widths().len(),
    );
    assert(g.widths().len() == 1 + g.extra_q@.len());
    assert(rows(ids.extra@).len() == ids.extra@.len());
    means_add_up(
        value,
        x,
        n as int,
        p as int,
        i,
        f.beta@,
        f.ranef@,
        g,
        ids.primary@,
        rows(ids.extra@),
        opt_seq(opts.offset),
        (1 + ids.extra@.len()) as nat,
    );
    let a = |j: int| value(x[i * (p as int) + j]) * value(f.beta@[j]);
    let b = |j: int| value(x[i * p + j]) * value(f.beta@[j]);
    lemma_total_equal(f.beta@.len(), a, b);
}

/// The effects that a linear mixed model reports are its factors times its modes, in which
/// the primary grouping goes component by component.
pub proof fn linear_effects_are_factor_times_modes<S: Scalar>(
    value: spec_fn(S) -> real,
    f: Fit<S>,
    v: LmmResultView<S>,
    x: Seq<S>,
    ids: GroupIds,
    n: nat,
    p: nat,
    opts: FitOptions<S>,
    e: int,
    l: int,
    r: int,
)
    requires
        exact(value),
        v.wf(),
        v.fit.deviance.finite(),
        is_lmm_recovery(f, v, x, ids, n, p, opts),
        readable(value, v.theta@, v.groupings),
        forall|k: int| 0 <= k < v.modes@.len() ==> (#[trigger] v.modes@[k]).finite(),
        0 <= e < v.groupings.widths().len(),
        0 <= l < v.groupings.levels()[e],
        0 <= r < v.groupings.widths()[e],
    ensures
        ({
            let g = v.groupings;
            let q = g.widths()[e];
            let start = theta_at(g.widths(), e as nat);
            let off = effects_at(g.widths(), g.levels(), e as nat);
            value(f.ranef@[off + l * q + r]) == total(
                (r + 1) as nat,
                |c: int|
                    (value(v.theta@[start + vech_index(q, r, c)]) / value(g.scales()[e][r]))
                        * value(
                        v.modes@[if e == 0 {
                            c * g.n_primary + l
                        } else {
                            off + l * q + c
                        }],
                    ),
            )
        }),
{
    let g = v.groupings;
    let q = g.widths()[e];
    let start = theta_at(g.widths(), e as nat);
    let off = effects_at(g.widths(), g.levels(), e as nat);
    reported_effects_are_factor_times_modes(
        value,
        v.theta@,
        g,
        v.modes@,
        ModeLayout::Sparse,
        e,
        l,
        r,
    );
    let a = |c: int|
        (value(v.theta@[start + vech_index(q, r, c)]) / value(g.scales()[e][r])) * value(
            v.modes@[mode_place(g, ModeLayout::Sparse, e, l, c)],
        );
    let b = |c: int|
        (value(v.theta@[start + vech_index(q, r, c)]) / value(g.scales()[e][r])) * value(
            v.modes@[if e == 0 {
                c * g.n_primary + l
            } else {
                off + l * q + c
            }],
        );
    lemma_total_equal((r + 1) as nat, a, b);
}

} // verus!
