//! Starting and reporting a generalized linear mixed model.
use crate::diagnostics::{
    materialize_diagnostics, notes_of, notes_say_what_the_route_found, notes_view, reports,
    Boundary, Diagnostics, FitDiagnostics, NoteView,
};
use crate::fit::{degenerate_glmm_fit, glmm_loglik, glmm_loglik_of, model_df, scale_df, Fit};
use crate::groupings::{
    cols_for, declared_levels, declared_slope_cols, declared_widths, effects_at, layout_fits,
    layout_width_is_topology_width, own_extra_cols, parameters_take_the_scale_of_their_row,
    ranef_level_counts, re_slope_cols, theta_at, theta_scales, widened, LmmGroupings,
};
use crate::layout::vech_index;
use crate::lmm::{
    blocks_of, errors_are_roots_of_target_variances, level_seq, se_of_targets,
    square_parameters, squared_parameters, squared_parameters_carry_the_scale, target_se,
    targets_in,
};
use crate::matrix::{at_least_one, to_col_major, ColMajor};
use crate::model::{re_width, Family, ModelSpec, ModelView, NegBinomialLink};
use crate::moments::{
    pearson_statistic_weighs_squared_residuals, pearson_sum, pearson_terms, residual_reads,
    square_sum, squares, squares_add_up,
};
use crate::options::{copied_opt, opt_seq, warm_theta, FitOptions, StartValues, WaldSe};
use crate::ranef::{
    assemble_ranef_dense, assemble_ranef_sparse, effects_of, mode_place,
    reported_effects_are_factor_times_modes, reported_effects_follow_the_layout, ModeLayout,
};
use crate::reading::{exact, lemma_total_equal, total};
use crate::scalar::{constant, copied, filled, rows, sum_to, Scalar};
use crate::shape::nested_count;
use crate::varcorr::{
    assemble_varcorr, covariance_of, every_block_carries_the_scale,
    packed_covariance_holds_row_products, readable,
};
use vstd::prelude::*;

verus! {

/// How the kernel lays out its inner solve.
#[derive(Clone, Copy, Debug, PartialEq, Eq, Structural)]
pub enum GlmmLayout {
    /// One block per primary level.
    Blocked,
    /// Primary blocks and a dense rest for the crossed levels.
    Structured,
    /// Packed rows, with a whole factor for every grouping.
    Packed,
}

/// All entries are finite.
pub open spec fn all_finite<S: Scalar>(v: Seq<S>) -> bool {
    forall|i: int| 0 <= i < v.len() ==> (#[trigger] v[i]).finite()
}

/// Fixed effects to start a generalized mixed model from: those of the model
/// without random effects, where its fit converged to finite ones, and zero
/// otherwise.
pub fn glm_warm_start_beta<S: Scalar>(converged: bool, betas: &[S], p: usize) -> (r: Vec<S>)
    ensures
        r@ == if converged && all_finite(betas@) {
            betas@
        } else {
            constant(p as nat, S::zero_of())
        },
{
    let mut finite: bool = true;
    let mut i: usize = 0;
    while i < betas.len()
        invariant
            i <= betas.len(),
            finite == forall|k: int| 0 <= k < i ==> (#[trigger] betas@[k]).finite(),
        decreases betas.len() - i,
    {
        if !betas[i].is_finite() {
            assert(!betas@[i as int].finite());
            finite = false;
        }
        i = i + 1;
    }
    if converged && finite {
        copied(betas)
    } else {
        filled(p, S::zero())
    }
}

/// The fixed effects that a start carries; none where it is cold in them.
pub fn warm_beta<S: Scalar>(start: Option<&StartValues<S>>) -> (r: Option<Vec<S>>)
    ensures
        match r {
            Some(b) => start is Some && b@ == start->0.beta@ && b@.len() > 0,
            None => start is None || start->0.beta@.len() == 0,
        },
{
    match start {
        Some(s) => if s.beta.len() > 0 {
            Some(copied(s.beta.as_slice()))
        } else {
            None
        },
        None => None,
    }
}

/// Where the joint search of a generalized mixed model starts: from the fixed
/// effects that the start carries, or else from those of the fit without random
/// effects; and from the variance parameters that the start carries, or else from
/// the kernel's own.
pub fn glmm_start<S: Scalar>(
    start: Option<&StartValues<S>>,
    prefit_converged: bool,
    prefit_betas: &[S],
    p: usize,
) -> (r: (Vec<S>, Option<Vec<S>>))
    ensures
        r.0@ == if start is Some && start->0.beta@.len() > 0 {
            start->0.beta@
        } else if prefit_converged && all_finite(prefit_betas@) {
            prefit_betas@
        } else {
            constant(p as nat, S::zero_of())
        },
        match r.1 {
            Some(t) => start is Some && t@ == start->0.theta@ && t@.len() > 0,
            None => start is None || start->0.theta@.len() == 0,
        },
{
    let beta: Vec<S> = match warm_beta(start) {
        Some(b) => b,
        None => glm_warm_start_beta(prefit_converged, prefit_betas, p),
    };
    let theta: Option<Vec<S>> = match warm_theta(start) {
        Some(t) => Some(copied(t)),
        None => None,
    };
    (beta, theta)
}

/// Options of the fit without random effects that seeds a generalized mixed one:
/// no targets and no weights, for it is a start and no estimate; the offset is
/// kept.
pub fn prefit_options<S: Scalar>(opts: &FitOptions<S>) -> (r: FitOptions<S>)
    ensures
        r.target_indices@.len() == 0,
        r.weights is None,
        opt_seq(r.offset) == opt_seq(opts.offset),
        r.nagq == 1,
        r.wald_se == WaldSe::Hessian,
        !r.parallel_inner,
        r.dispersion is None,
        !r.boundary_score,
{
    let mut out: FitOptions<S> = FitOptions::default();
    out.offset = copied_opt(&opts.offset);
    out
}

/// A design whose fixed effects cannot be estimated.
pub open spec fn is_degenerate(n: nat, p: nat) -> bool {
    n <= p || p == 0
}

/// The fit to report instead of running the kernel, where the design has no more
/// rows than columns, or no column.
pub fn refuse_degenerate<S: Scalar>(n: usize, p: usize, n_theta: usize) -> (r: Option<Fit<S>>)
    ensures
        (r is Some) == is_degenerate(n as nat, p as nat),
        r matches Some(f) ==> {
            &&& f.is_unestimated(p as nat, n_theta as nat)
            &&& f.diagnostics.aliased@ == constant(p as nat, false)
            &&& !f.reml
        },
{
    if n <= p || p == 0 {
        Some(degenerate_glmm_fit(p, n_theta))
    } else {
        None
    }
}

/// The model with a negative binomial response and the same random effects.
pub fn nb_model(model: &ModelSpec) -> (r: ModelSpec)
    ensures
        r@ == (ModelView {
            family: Family::NegativeBinomial { link: NegBinomialLink::Log },
            re: model@.re,
        }),
{
    let out: ModelSpec = model.clone();
    ModelSpec { family: Family::NegativeBinomial { link: NegBinomialLink::Log }, re: out.re }
}

/// The dispersion that the search starts from: a negative binomial model starts
/// from that of the model without random effects, any other keeps what it was
/// given.
pub fn nb_start<S: Scalar>(family: Family, given: S, prefit: S) -> (r: S)
    ensures
        r == (if family is NegativeBinomial {
            prefit
        } else {
            given
        }),
{
    match family {
        Family::NegativeBinomial { .. } => prefit,
        _ => given,
    }
}

/// The part of the kernel's workspace that depends on the options and on the
/// shape alone.
#[derive(Debug)]
pub struct GlmmState<S: Scalar> {
    /// The layout of the random effects.
    pub groupings: LmmGroupings<S>,
    /// Whether one fit may use several threads.
    pub parallel_inner: bool,
    /// Prior weight of each row, and 1 where none was given.
    pub prior_w: Vec<S>,
    /// The weights were given.
    pub weighted: bool,
    /// Known part of the linear predictor.
    pub offset: Option<Vec<S>>,
}

/// A workspace for `n` rows as it is built: unit weights, no offset, one thread.
pub open spec fn is_fresh<S: Scalar>(s: GlmmState<S>, n: nat) -> bool {
    &&& !s.parallel_inner
    &&& !s.weighted
    &&& s.prior_w@ == constant(at_least_one(n), S::one_of())
    &&& s.offset is None
}

impl<S: Scalar> GlmmState<S> {
    /// The workspace of a sized mixed model over at most `n` rows: unit weights,
    /// no offset.
    pub fn for_cluster_spec_ext(
        model: &ModelSpec,
        n: usize,
        slope_cols: &[usize],
        extra_slope_cols: &[Vec<usize>],
    ) -> (r: GlmmState<S>)
        requires
            model@.re is Some,
            nested_count(model@.re->0.extra_groupings, model@.re->0.extra_groupings.len()) <= 1,
            layout_fits(model@.re->0, n as nat, slope_cols@, rows(extra_slope_cols@)),
        ensures
            is_fresh(r, n as nat),
            r.groupings.wf(),
            r.groupings.widths() == declared_widths(
                model@.re->0.extra_groupings.len(),
                slope_cols@,
                rows(extra_slope_cols@),
            ),
            r.groupings.levels() == declared_levels(model@.re->0, n as nat),
            r.groupings.primary_slope_cols@ == slope_cols@,
            forall|e: int|
                0 <= e < r.groupings.extra_q@.len() ==> (#[trigger] r.groupings.extra_slope_cols@[e])@
                    == cols_for(rows(extra_slope_cols@), e),
            r.groupings.unscaled_rows(),
    {
        let groupings: LmmGroupings<S> = LmmGroupings::from_cluster_spec_ext(
            model,
            n,
            slope_cols,
            extra_slope_cols,
        );
        let len: usize = if n == 0 {
            1
        } else {
            n
        };
        GlmmState {
            groupings,
            parallel_inner: false,
            prior_w: filled(len, S::one()),
            weighted: false,
            offset: None,
        }
    }

    /// The workspace of a sized mixed model whose extra groupings have an
    /// intercept alone.
    pub fn for_cluster_spec(model: &ModelSpec, n: usize, slope_cols: &[usize]) -> (r: GlmmState<S>)
        requires
            model@.re is Some,
            nested_count(model@.re->0.extra_groupings, model@.re->0.extra_groupings.len()) <= 1,
            layout_fits(model@.re->0, n as nat, slope_cols@, Seq::empty()),
        ensures
            is_fresh(r, n as nat),
            r.groupings.wf(),
            r.groupings.widths() == declared_widths(
                model@.re->0.extra_groupings.len(),
                slope_cols@,
                Seq::empty(),
            ),
            r.groupings.levels() == declared_levels(model@.re->0, n as nat),
            r.groupings.primary_slope_cols@ == slope_cols@,
            !r.groupings.extra_slopes_any,
            r.groupings.unscaled_rows(),
    {
        let none: Vec<Vec<usize>> = Vec::new();
        assert(rows(none@) =~= Seq::empty());
        GlmmState::for_cluster_spec_ext(model, n, slope_cols, none.as_slice())
    }
}

/// The weights of the first `n` rows replaced.
pub open spec fn weights_after<S>(prior_w: Seq<S>, weights: Option<Seq<S>>, n: int) -> Seq<S> {
    match weights {
        Some(w) => w.take(n) + prior_w.skip(n),
        None => prior_w,
    }
}

/// Set the options that vary from call to call, for a draw of `n` rows. The
/// weights of rows past the draw stay as they are, and a draw without weights is
/// marked as such, whatever an earlier draw left behind.
pub fn prep_glmm_design<S: Scalar>(ws: &mut GlmmState<S>, n: usize, opts: &FitOptions<S>)
    requires
        n <= old(ws).prior_w@.len(),
        opts.weights matches Some(w) ==> w@.len() == n,
    ensures
        final(ws).groupings == old(ws).groupings,
        final(ws).parallel_inner == opts.parallel_inner,
        final(ws).weighted == (opts.weights is Some),
        final(ws).prior_w@ == weights_after(
            old(ws).prior_w@,
            opt_seq(opts.weights),
            n as int,
        ),
        opt_seq(final(ws).offset) == opt_seq(opts.offset),
{
    ws.parallel_inner = opts.parallel_inner;
    match &opts.weights {
        Some(w) => {
            let ghost start = ws.prior_w@;
            let mut i: usize = 0;
            while i < n
                invariant
                    i <= n,
                    n <= start.len(),
                    w@.len() == n,
                    ws.groupings == old(ws).groupings,
                    ws.parallel_inner == opts.parallel_inner,
                    ws.prior_w@.len() == start.len(),
                    forall|k: int|
                        0 <= k < start.len() ==> #[trigger] ws.prior_w@[k] == (if k < i {
                            w@[k]
                        } else {
                            start[k]
                        }),
                decreases n - i,
            {
                ws.prior_w[i] = w[i];
                i = i + 1;
            }
            assert(ws.prior_w@ =~= weights_after(start, opt_seq(opts.weights), n as int));
            ws.weighted = true;
        },
        None => {
            ws.weighted = false;
        },
    }
    ws.offset = copied_opt(&opts.offset);
}

/// A workspace and a design, ready for the kernel.
#[derive(Debug)]
pub struct BuiltGlmm<S: Scalar> {
    /// Options and layout.
    pub state: GlmmState<S>,
    /// The design, by columns.
    pub x_mat: ColMajor<S>,
}

/// The workspace and the design of a sized mixed model, ready for the kernel, with
/// every slope of the model on its own column in the layout. A design whose fixed
/// effects cannot be estimated is refused before its weights are read, with what
/// there is to report: a fit that estimates nothing, no mean, and a deviance that
/// cannot be reached.
pub fn fit_glmm_build<S: Scalar>(
    x: &[S],
    n: usize,
    p: usize,
    model: &ModelSpec,
    opts: &FitOptions<S>,
) -> (r: Result<BuiltGlmm<S>, (Fit<S>, Vec<S>, S)>)
    requires
        x@.len() == n * p,
        model@.re is Some,
        nested_count(model@.re->0.extra_groupings, model@.re->0.extra_groupings.len()) <= 1,
        layout_fits(
            model@.re->0,
            n as nat,
            widened(model@.re->0.slopes),
            own_extra_cols(model@.re->0),
        ),
        !is_degenerate(n as nat, p as nat) ==> (opts.weights matches Some(w) ==> w@.len() == n),
    ensures
        (r is Err) == is_degenerate(n as nat, p as nat),
        match r {
            Err((f, mu, deviance)) => {
                &&& f.is_unestimated(p as nat, re_width(model@.re))
                &&& f.diagnostics.aliased@ == constant(p as nat, false)
                &&& !f.reml
                &&& mu@.len() == 0
                &&& deviance == S::infinity_of()
            },
            Ok(b) => {
                &&& b.state.groupings.wf()
                &&& b.state.groupings.widths() == declared_widths(
                    model@.re->0.extra_groupings.len(),
                    widened(model@.re->0.slopes),
                    own_extra_cols(model@.re->0),
                )
                &&& b.state.groupings.levels() == declared_levels(model@.re->0, n as nat)
                &&& b.state.groupings.slope_cols() == declared_slope_cols(model@.re->0)
                &&& b.state.groupings.unscaled_rows()
                &&& b.state.groupings.theta_len() == re_width(model@.re)
                &&& b.state.parallel_inner == opts.parallel_inner
                &&& b.state.weighted == (opts.weights is Some)
                &&& b.state.prior_w@ == (match opts.weights {
                    Some(w) => w@,
                    None => constant(n as nat, S::one_of()),
                })
                &&& opt_seq(b.state.offset) == opt_seq(opts.offset)
                &&& b.x_mat.wf()
                &&& b.x_mat.height() == n
                &&& b.x_mat.width() == p
                &&& forall|i: int, j: int|
                    0 <= i < n && 0 <= j < p ==> #[trigger] b.x_mat.cell(i, j) == x@[i * p + j]
            },
        },
{
    let (slope_cols, extra_slope_cols): (Vec<usize>, Vec<Vec<usize>>) = re_slope_cols(model);
    assert(rows(extra_slope_cols@) =~= own_extra_cols(model@.re->0));
    let mut state: GlmmState<S> = GlmmState::for_cluster_spec_ext(
        model,
        n,
        slope_cols.as_slice(),
        extra_slope_cols.as_slice(),
    );
    proof {
        layout_width_is_topology_width(
            model@.re->0,
            slope_cols@,
            rows(extra_slope_cols@),
        );
        assert(state.groupings.widths().len() == 1 + state.groupings.extra_q@.len());
        assert(model@.re == Some(model@.re->0));
        assert(state.groupings.theta_len() == re_width(model@.re));
        assert(state.groupings.slope_cols() =~= declared_slope_cols(model@.re->0));
    }
    let n_theta: usize = state.groupings.n_theta();
    if let Some(f) = refuse_degenerate(n, p, n_theta) {
        return Err((f, Vec::new(), S::infinity()));
    }
    let x_mat: ColMajor<S> = to_col_major(x, n, p);
    prep_glmm_design(&mut state, n, opts);
    proof {
        if opts.weights is Some {
            assert(state.prior_w@ =~= opts.weights->0@);
        }
    }
    Ok(BuiltGlmm { state, x_mat })
}

/// Which symbolic factors a draw needs.
#[derive(Clone, Copy, Debug, PartialEq, Eq, Structural)]
pub struct SchurPlan {
    /// That of the crossed levels.
    pub schur: bool,
    /// Its twin on the observed information.
    pub observed: bool,
}

/// Which symbolic factors to build: the structured layout alone reads them, and
/// the twin only where the link is not canonical.
pub fn schur_plan(layout: GlmmLayout, canonical_link: bool) -> (r: SchurPlan)
    ensures
        r.schur == (layout is Structured),
        r.observed == (layout is Structured && !canonical_link),
{
    let structured: bool = matches!(layout, GlmmLayout::Structured);
    SchurPlan { schur: structured, observed: structured && !canonical_link }
}

/// What the joint search of a generalized mixed model found.
#[derive(Debug)]
pub struct GlmmFit<S: Scalar> {
    /// The search converged.
    pub converged: bool,
    /// The minimized marginal deviance.
    pub deviance: S,
    /// Joint Wald statistic over the targets.
    pub joint_t_sq: S,
    /// Variance of the random intercept.
    pub tau_squared_hat: S,
    /// 0 for an optimum in the interior, 1 for a pinned component, 2 for no
    /// optimum.
    pub boundary_hit: u8,
    /// One bit per pinned diagonal parameter.
    pub pinned_components: u64,
    /// Evaluations of the deviance.
    pub n_eval: usize,
    /// The standard errors come from the fallback.
    pub hessian_fallback: bool,
}

/// What a generalized mixed kernel left behind.
#[derive(Debug)]
pub struct GlmmResultView<S: Scalar> {
    /// The search.
    pub fit: GlmmFit<S>,
    /// The negative binomial dispersion; undefined for the other families.
    pub nb_theta: S,
    /// Fixed effects.
    pub betas: Vec<S>,
    /// Variances of the fixed effects, in coefficient order; the targets' count.
    pub var_diag: Vec<S>,
    /// Wald statistics of the fixed effects, in coefficient order.
    pub t_sq: Vec<S>,
    /// Covariance of the fixed effects, on the targets.
    pub vcov: ColMajor<S>,
    /// Variance parameters, on the kernel's scales.
    pub theta: Vec<S>,
    /// Standard errors of the variance parameters.
    pub theta_se: Vec<S>,
    /// Mean of each row.
    pub mu: Vec<S>,
    /// Spherical modes.
    pub u: Vec<S>,
    /// Prior weight of each row, and 1 where none was given.
    pub prior_w: Vec<S>,
    /// The layout of the random effects.
    pub groupings: LmmGroupings<S>,
    /// How the kernel laid out its inner solve.
    pub layout: GlmmLayout,
    /// Inner solves of the search that ran into their cap.
    pub pirls_exhausted: u32,
    /// The inner solve at the optimum ran into its cap.
    pub final_pirls_exhausted: bool,
}

impl<S: Scalar> GlmmResultView<S> {
    /// The diagnostics of the fit. No pivot is measured here.
    pub open spec fn carrier(&self) -> FitDiagnostics<S> {
        FitDiagnostics {
            converged: self.fit.converged,
            boundary_hit: self.fit.boundary_hit,
            pinned_components: self.fit.pinned_components,
            pivot: S::nan_of(),
            pivot_col: 0,
            ill_conditioned: false,
            pirls_exhausted: self.pirls_exhausted,
            final_pirls_exhausted: self.final_pirls_exhausted,
            hessian_fallback: self.fit.hessian_fallback,
        }
    }

    /// The diagnostics of the fit. No pivot is measured here.
    pub fn diagnostics(&self) -> (r: FitDiagnostics<S>)
        ensures
            r == self.carrier(),
    {
        let base: FitDiagnostics<S> = FitDiagnostics::fixed_only(self.fit.converged);
        FitDiagnostics {
            converged: base.converged,
            boundary_hit: self.fit.boundary_hit,
            pinned_components: self.fit.pinned_components,
            pivot: base.pivot,
            pivot_col: base.pivot_col,
            ill_conditioned: base.ill_conditioned,
            pirls_exhausted: self.pirls_exhausted,
            final_pirls_exhausted: self.final_pirls_exhausted,
            hessian_fallback: self.fit.hessian_fallback,
        }
    }

    /// The order of the modes.
    pub open spec fn mode_layout(&self) -> ModeLayout {
        if self.layout is Packed {
            ModeLayout::Sparse
        } else {
            ModeLayout::Dense
        }
    }

    /// The parts of the result fit together: parameters and their standard
    /// errors, modes, extras with an intercept alone outside the packed layout,
    /// and one of the three boundary codes.
    pub open spec fn wf(&self) -> bool {
        &&& self.groupings.wf()
        &&& self.theta@.len() == self.groupings.theta_len()
        &&& self.theta_se@.len() == self.theta@.len()
        &&& self.groupings.k_total <= self.u@.len()
        &&& self.vcov.wf()
        &&& self.fit.boundary_hit <= 2
        &&& self.layout is Packed || !self.groupings.extra_slopes_any
    }
}

/// What a report needs beyond the kernel's result, from the family.
#[derive(Debug)]
pub struct GlmmAside<S: Scalar> {
    /// The variance function at the mean of each row; not read for a binomial,
    /// Poisson or negative binomial response.
    pub variance: Vec<S>,
    /// Log-likelihood of the saturated model; not read for a gamma or negative
    /// binomial response, whose deviance holds it already.
    pub saturated: S,
    /// A variance component is negligible.
    pub negligible: bool,
}

/// The family has a residual scale of its own.
pub open spec fn has_residual_scale(family: Family) -> bool {
    !(family is Binomial || family is Poisson || family is NegativeBinomial)
}

/// The weighted Pearson statistic of the first `n` rows.
pub open spec fn pearson_of<S: Scalar>(
    v: GlmmResultView<S>,
    y: Seq<S>,
    n: nat,
    aside: GlmmAside<S>,
) -> S {
    sum_to(n, pearson_terms(y, v.mu@, aside.variance@, v.prior_w@))
}

/// Scale of the variance components: 1 for a family without a residual scale, and
/// for the others the penalized weighted residual sum of squares over the rows: the
/// Pearson statistic and the squared modes.
pub open spec fn component_scale<S: Scalar>(
    v: GlmmResultView<S>,
    y: Seq<S>,
    n: nat,
    family: Family,
    aside: GlmmAside<S>,
) -> S {
    if has_residual_scale(family) {
        pearson_of(v, y, n, aside).sum_with(
            sum_to(v.groupings.k_total as nat, squares(v.u@)),
        ).quotient(S::count_of(n as usize))
    } else {
        S::one_of()
    }
}

/// The Pearson dispersion: the Pearson statistic over the residual degrees of
/// freedom.
pub open spec fn pearson_dispersion<S: Scalar>(
    v: GlmmResultView<S>,
    y: Seq<S>,
    n: nat,
    p: nat,
    aside: GlmmAside<S>,
) -> S {
    pearson_of(v, y, n, aside).quotient(S::count_of((n - p) as usize))
}

/// The moments of a converged fit with a residual scale can be formed: response,
/// weight and variance are there for every row, and an estimated dispersion does not
/// have more columns than rows.
pub open spec fn moments_fit<S: Scalar>(
    v: GlmmResultView<S>,
    y: Seq<S>,
    n: nat,
    p: nat,
    family: Family,
    opts: FitOptions<S>,
    aside: GlmmAside<S>,
) -> bool {
    v.fit.converged && has_residual_scale(family) ==> {
        &&& n <= y.len()
        &&& n <= v.prior_w@.len()
        &&& n <= aside.variance@.len()
        &&& family is Gamma && opts.dispersion is None ==> p <= n
    }
}

/// The dispersion that a fit reports.
pub open spec fn reported_dispersion<S: Scalar>(
    converged: bool,
    family: Family,
    held: Option<S>,
    pearson: S,
    nb_theta: S,
) -> S {
    if !converged {
        S::nan_of()
    } else {
        match family {
            Family::Gamma { .. } => match held {
                Some(v) => v,
                None => pearson,
            },
            Family::NegativeBinomial { .. } => nb_theta,
            _ => S::one_of(),
        }
    }
}

/// Standard errors over their row scales.
pub open spec fn unscaled<S: Scalar>(se: Seq<S>, scales: Seq<S>) -> Seq<S> {
    Seq::new(se.len(), |k: int| se[k].quotient(scales[k]))
}

/// A finite number itself, and undefined otherwise.
pub open spec fn finite_or_nan<S: Scalar>(v: S) -> S {
    if v.finite() {
        v
    } else {
        S::nan_of()
    }
}

/// The report `f` of the generalized mixed result `v` for the response `y`, of `n`
/// rows and `p` columns.
pub open spec fn is_glmm_report<S: Scalar>(
    f: Fit<S>,
    v: GlmmResultView<S>,
    y: Seq<S>,
    n: nat,
    p: nat,
    family: Family,
    opts: FitOptions<S>,
    aside: GlmmAside<S>,
) -> bool {
    let g = v.groupings;
    let converged = v.fit.converged;
    let scales = theta_scales(g.widths(), g.scales(), g.widths().len());
    let sigma_sq = component_scale(v, y, n, family, aside);
    &&& f.beta@ == v.betas@
    &&& f.beta@.len() == p
    &&& f.se@ == target_se(v.var_diag@, opts.target_indices@, p)
    &&& f.vcov@.len() == p
    &&& forall|i: int|
        0 <= i < p ==> (#[trigger] f.vcov@[i])@ == Seq::new(p, |j: int| v.vcov.cell(i, j))
    &&& f.tau2@ == if converged {
        squared_parameters(v.theta@, scales, sigma_sq)
    } else {
        constant(v.theta@.len(), S::nan_of())
    }
    &&& f.dispersion == reported_dispersion(
        converged,
        family,
        opts.dispersion,
        pearson_dispersion(v, y, n, p, aside),
        v.nb_theta,
    )
    &&& rows(f.varcorr@) == if converged {
        blocks_of(v.theta@, g, sigma_sq)
    } else {
        Seq::empty()
    }
    &&& f.stddev_se@ == if converged {
        unscaled(v.theta_se@, scales)
    } else {
        constant(v.theta@.len(), S::nan_of())
    }
    &&& reports(f.diagnostics, v.carrier(), p, rows(f.varcorr@), aside.negligible)
    &&& f.n_eval == v.fit.n_eval
    &&& f.deviance == finite_or_nan(v.fit.deviance)
    &&& f.loglik == glmm_loglik_of(family, f.deviance, aside.saturated)
    &&& f.df == if converged {
        p + v.theta@.len() + scale_df(family, opts.dispersion is Some)
    } else {
        0
    }
    &&& !f.reml
    &&& f.ranef_levels@ == level_seq(g)
    &&& f.ranef@ == if converged {
        effects_of(v.theta@, g, v.u@, v.mode_layout(), g.widths().len())
    } else {
        Seq::empty()
    }
    &&& f.fitted@ == if converged {
        v.mu@.take(n as int)
    } else {
        Seq::empty()
    }
}

/// A matrix row by row.
fn matrix_rows<S: Scalar>(m: &ColMajor<S>, p: usize) -> (r: Vec<Vec<S>>)
    requires
        m.wf(),
        p <= m.height(),
        p <= m.width(),
    ensures
        r@.len() == p,
        forall|i: int|
            0 <= i < p ==> (#[trigger] r@[i])@ == Seq::new(p as nat, |j: int| m.cell(i, j)),
{
    let mut out: Vec<Vec<S>> = Vec::with_capacity(p);
    let mut i: usize = 0;
    while i < p
        invariant
            i <= p,
            m.wf(),
            p <= m.height(),
            p <= m.width(),
            out@.len() == i,
            forall|k: int|
                0 <= k < i ==> (#[trigger] out@[k])@ == Seq::new(p as nat, |j: int| m.cell(k, j)),
        decreases p - i,
    {
        let mut row: Vec<S> = Vec::with_capacity(p);
        let mut j: usize = 0;
        while j < p
            invariant
                j <= p,
                i < p,
                m.wf(),
                p <= m.height(),
                p <= m.width(),
                row@.len() == j,
                forall|k: int| 0 <= k < j ==> #[trigger] row@[k] == m.cell(i as int, k),
            decreases p - j,
        {
            row.push(m.get(i, j));
            j = j + 1;
        }
        assert(row@ =~= Seq::new(p as nat, |j: int| m.cell(i as int, j)));
        out.push(row);
        i = i + 1;
    }
    out
}

/// Standard errors over their row scales.
fn unscale<S: Scalar>(se: &[S], scales: &[S]) -> (r: Vec<S>)
    requires
        se@.len() == scales@.len(),
    ensures
        r@ == unscaled(se@, scales@),
{
    let mut out: Vec<S> = Vec::with_capacity(se.len());
    let mut k: usize = 0;
    while k < se.len()
        invariant
            k <= se.len(),
            se@.len() == scales@.len(),
            out@ == unscaled(se@, scales@).take(k as int),
        decreases se.len() - k,
    {
        out.push(se[k].over(scales[k]));
        k = k + 1;
    }
    assert(out@ =~= unscaled(se@, scales@));
    out
}

/// The first `n` entries.
fn prefix<T: Copy>(v: &[T], n: usize) -> (r: Vec<T>)
    requires
        n <= v@.len(),
    ensures
        r@ == v@.take(n as int),
{
    let mut out: Vec<T> = Vec::with_capacity(n);
    let mut i: usize = 0;
    while i < n
        invariant
            i <= n,
            n <= v@.len(),
            out@ == v@.take(i as int),
        decreases n - i,
    {
        out.push(v[i]);
        i = i + 1;
    }
    out
}

/// The report of a generalized mixed model, the mean of each row, and the
/// minimized deviance.
///
/// The variance components, their standard errors, the dispersion, the modes and
/// the means are those of a converged search, and withheld otherwise; the level
/// counts belong to the design and are always reported. Parameters, their
/// standard errors and the modes are reported in the units of the design. A gamma
/// dispersion is the Pearson statistic over the residual degrees of freedom, or what
/// it was held fixed at; the variance components of a family with a residual scale
/// carry another one, the Pearson statistic and the squared modes over the rows.
pub fn glmm_view_to_fit<S: Scalar>(
    v: &GlmmResultView<S>,
    y: &[S],
    n: usize,
    p: usize,
    model: &ModelSpec,
    opts: &FitOptions<S>,
    aside: &GlmmAside<S>,
) -> (r: (Fit<S>, Vec<S>, S))
    requires
        v.wf(),
        v.betas@.len() == p,
        n <= v.mu@.len(),
        moments_fit(*v, y@, n as nat, p as nat, model.family, *opts, *aside),
        targets_in(opts.target_indices@, p as nat, v.var_diag@.len()),
        p <= v.vcov.height(),
        p <= v.vcov.width(),
        p + v.theta@.len() < usize::MAX,
    ensures
        is_glmm_report(r.0, *v, y@, n as nat, p as nat, model.family, *opts, *aside),
        r.1@ == v.mu@.take(n as int),
        r.2 == v.fit.deviance,
{
    let converged: bool = v.fit.converged;
    let carrier: FitDiagnostics<S> = v.diagnostics();
    let n_theta: usize = v.theta.len();
    let beta: Vec<S> = copied(v.betas.as_slice());
    let se: Vec<S> = se_of_targets(
        v.var_diag.as_slice(),
        opts.target_indices.as_slice(),
        p,
    );
    let scales: Vec<S> = v.groupings.theta_row_scales();
    let has_scale: bool = !matches!(
        model.family,
        Family::Binomial { .. } | Family::Poisson { .. } | Family::NegativeBinomial { .. }
    );
    let (pearson, sigma_sq): (S, S) = if converged && has_scale {
        let pearson: S = pearson_sum(
            y,
            v.mu.as_slice(),
            aside.variance.as_slice(),
            v.prior_w.as_slice(),
            n,
        );
        let penalty: S = square_sum(v.u.as_slice(), v.groupings.k_total);
        (pearson, pearson.plus(penalty).over(S::from_count(n)))
    } else {
        (S::nan(), S::one())
    };
    let tau2: Vec<S> = if converged {
        square_parameters(v.theta.as_slice(), scales.as_slice(), sigma_sq)
    } else {
        filled(n_theta, S::nan())
    };
    let dispersion: S = if !converged {
        S::nan()
    } else {
        match model.family {
            Family::Gamma { .. } => match opts.dispersion {
                Some(held) => held,
                None => pearson.over(S::from_count(n - p)),
            },
            Family::NegativeBinomial { .. } => v.nb_theta,
            _ => S::one(),
        }
    };
    let varcorr: Vec<Vec<S>> = if converged {
        assemble_varcorr(v.theta.as_slice(), &v.groupings, sigma_sq)
    } else {
        Vec::new()
    };
    proof {
        if converged {
            assert(rows(varcorr@) =~= blocks_of(v.theta@, v.groupings, sigma_sq));
        } else {
            assert(rows(varcorr@) =~= Seq::empty());
        }
    }
    let stddev_se: Vec<S> = if converged {
        unscale(v.theta_se.as_slice(), scales.as_slice())
    } else {
        filled(n_theta, S::nan())
    };
    let vcov: Vec<Vec<S>> = matrix_rows(&v.vcov, p);
    let mu_hat: Vec<S> = prefix(v.mu.as_slice(), n);
    let ranef_levels: Vec<usize> = ranef_level_counts(&v.groupings);
    assert(ranef_levels@ =~= level_seq(v.groupings));
    let (fitted, ranef): (Vec<S>, Vec<S>) = if converged {
        let ranef: Vec<S> = match v.layout {
            GlmmLayout::Packed => assemble_ranef_sparse(
                v.theta.as_slice(),
                &v.groupings,
                v.u.as_slice(),
            ),
            _ => assemble_ranef_dense(v.theta.as_slice(), &v.groupings, v.u.as_slice()),
        };
        (copied(mu_hat.as_slice()), ranef)
    } else {
        (Vec::new(), Vec::new())
    };
    let deviance: S = if v.fit.deviance.is_finite() {
        v.fit.deviance
    } else {
        S::nan()
    };
    let loglik: S = glmm_loglik(model.family, deviance, aside.saturated);
    let mut diagnostics: Diagnostics<S> = materialize_diagnostics(
        &carrier,
        p,
        varcorr.as_slice(),
    );
    diagnostics.singular = diagnostics.singular || aside.negligible;
    let df: usize = if converged {
        model_df(model.family, p, n_theta, opts.dispersion.is_some())
    } else {
        0
    };
    let fit: Fit<S> = Fit {
        beta,
        se,
        vcov,
        tau2,
        dispersion,
        diagnostics,
        varcorr,
        stddev_se,
        n_eval: v.fit.n_eval,
        deviance,
        loglik,
        df,
        reml: false,
        fitted,
        ranef,
        ranef_levels,
    };
    (fit, mu_hat, v.fit.deviance)
}

/// A search that did not converge reports no dispersion, no variance component,
/// no mode, no mean and no parameter.
pub proof fn failed_search_withholds_estimates<S: Scalar>(
    f: Fit<S>,
    v: GlmmResultView<S>,
    y: Seq<S>,
    n: nat,
    p: nat,
    family: Family,
    opts: FitOptions<S>,
    aside: GlmmAside<S>,
)
    requires
        !v.fit.converged,
        is_glmm_report(f, v, y, n, p, family, opts, aside),
    ensures
        !f.diagnostics.converged,
        f.dispersion == S::nan_of(),
        f.tau2@ == constant(v.theta@.len(), S::nan_of()),
        f.stddev_se@ == constant(v.theta@.len(), S::nan_of()),
        f.varcorr@.len() == 0,
        f.ranef@.len() == 0,
        f.fitted@.len() == 0,
        f.df == 0,
{
    assert(rows(f.varcorr@).len() == f.varcorr@.len());
}

/// The deviance of a negative binomial fit is the objective of its search, minus
/// twice the log-likelihood: half of it, with the other sign, is the reported
/// log-likelihood, with weights and without. Nothing else enters.
pub proof fn nb_deviance_is_the_search_objective<S: Scalar>(
    f: Fit<S>,
    v: GlmmResultView<S>,
    y: Seq<S>,
    n: nat,
    p: nat,
    family: Family,
    opts: FitOptions<S>,
    aside: GlmmAside<S>,
)
    requires
        family is NegativeBinomial,
        f.deviance.finite(),
        is_glmm_report(f, v, y, n, p, family, opts, aside),
    ensures
        f.loglik == f.deviance.minus_half(),
{
}

/// Standard errors that come from the fallback are reported as those of a fit that
/// asked for them: where two kernel results have the same variances and the same
/// covariance, so have their reports, and the one that fell back says so in a note.
pub proof fn fallback_is_reported_alike<S: Scalar>(
    f: Fit<S>,
    v: GlmmResultView<S>,
    opts_f: FitOptions<S>,
    g: Fit<S>,
    w: GlmmResultView<S>,
    opts_g: FitOptions<S>,
    y: Seq<S>,
    n: nat,
    p: nat,
    family: Family,
    aside: GlmmAside<S>,
)
    requires
        is_glmm_report(f, v, y, n, p, family, opts_f, aside),
        is_glmm_report(g, w, y, n, p, family, opts_g, aside),
        opts_f.target_indices@ == opts_g.target_indices@,
        v.var_diag@ == w.var_diag@,
        forall|i: int, j: int|
            0 <= i < p && 0 <= j < p ==> #[trigger] v.vcov.cell(i, j) == w.vcov.cell(i, j),
        v.fit.hessian_fallback,
    ensures
        f.se@ == g.se@,
        rows(f.vcov@) == rows(g.vcov@),
        notes_view(f.diagnostics.notes@).contains(NoteView::HessianSeFallback),
{
    assert(rows(f.vcov@) =~= rows(g.vcov@)) by {
        assert forall|i: int| 0 <= i < p implies (#[trigger] f.vcov@[i])@ =~= g.vcov@[i]@ by {}
    }
    let notes = notes_of(v.carrier());
    assert(notes[notes.len() - 1] == NoteView::<S>::HessianSeFallback);
}

/// Errors of the variance parameters that the kernel leaves undefined, as it does
/// where the standard errors of the coefficients come from the fallback, are
/// reported undefined, however the parameters were scaled: over numbers among which
/// an undefined one stays undefined under a division.
pub proof fn undefined_errors_are_reported_undefined<S: Scalar>(
    f: Fit<S>,
    v: GlmmResultView<S>,
    y: Seq<S>,
    n: nat,
    p: nat,
    family: Family,
    opts: FitOptions<S>,
    aside: GlmmAside<S>,
)
    requires
        is_glmm_report(f, v, y, n, p, family, opts, aside),
        v.theta_se@ == constant(v.theta@.len(), S::nan_of()),
        forall|s: S| #[trigger] S::nan_of().quotient(s) == S::nan_of(),
    ensures
        f.stddev_se@ == constant(v.theta@.len(), S::nan_of()),
{
    assert(f.stddev_se@ =~= constant(v.theta@.len(), S::nan_of()));
}

/// A held gamma dispersion is reported as given, and costs one parameter less
/// than an estimated one.
pub proof fn held_dispersion_is_reported<S: Scalar>(
    f: Fit<S>,
    v: GlmmResultView<S>,
    y: Seq<S>,
    n: nat,
    p: nat,
    family: Family,
    opts: FitOptions<S>,
    aside: GlmmAside<S>,
)
    requires
        v.fit.converged,
        family is Gamma,
        opts.dispersion is Some,
        is_glmm_report(f, v, y, n, p, family, opts, aside),
    ensures
        f.dispersion == opts.dispersion->0,
        f.df == p + v.theta@.len(),
{
}

/// The report of a generalized mixed model passes on what the search found. Its degrees
/// of freedom are the coefficients, the variance parameters, and one for an estimated
/// scale: none for a binomial and a Poisson response, and none for a gamma response whose
/// dispersion is held fixed.
pub proof fn generalized_reports_pass_the_search_on<S: Scalar>(
    f: Fit<S>,
    v: GlmmResultView<S>,
    y: Seq<S>,
    n: nat,
    p: nat,
    family: Family,
    opts: FitOptions<S>,
    aside: GlmmAside<S>,
    e: int,
)
    requires
        v.wf(),
        n <= v.mu@.len(),
        is_glmm_report(f, v, y, n, p, family, opts, aside),
    ensures
        f.beta@ == v.betas@ && f.beta@.len() == p && f.se@.len() == p && f.vcov@.len() == p,
        f.n_eval == v.fit.n_eval,
        !f.reml,
        v.fit.deviance.finite() ==> f.deviance == v.fit.deviance,
        !v.fit.deviance.finite() ==> f.deviance == S::nan_of(),
        f.diagnostics.converged == v.fit.converged,
        f.diagnostics.boundary == Boundary::Interior <==> v.fit.boundary_hit == 0,
        f.diagnostics.boundary == Boundary::AtBoundary <==> v.fit.boundary_hit == 1,
        f.diagnostics.singular <==> v.fit.boundary_hit == 1 || aside.negligible,
        f.diagnostics.notes@.len() == (if v.pirls_exhausted > 0 || v.final_pirls_exhausted {
            1int
        } else {
            0
        }) + (if v.fit.hessian_fallback {
            1int
        } else {
            0
        }),
        v.fit.converged ==> f.df == p + v.theta@.len() + (match family {
            Family::Gaussian => 1int,
            Family::Binomial { .. } => 0,
            Family::Poisson { .. } => 0,
            Family::Gamma { .. } => if opts.dispersion is Some {
                0
            } else {
                1
            },
            Family::InverseGaussian { .. } => 1,
            Family::NegativeBinomial { .. } => 1,
        }),
        !v.fit.converged ==> f.df == 0,
        f.ranef_levels@.len() == v.groupings.levels().len(),
        0 <= e < v.groupings.levels().len() ==> f.ranef_levels@[e] == v.groupings.levels()[e],
        v.fit.converged ==> {
            &&& f.fitted@.len() == n
            &&& forall|i: int| 0 <= i < n ==> #[trigger] f.fitted@[i] == v.mu@[i]
            &&& f.ranef@.len() == v.groupings.k_total
            &&& f.varcorr@.len() == v.groupings.widths().len()
            &&& f.tau2@.len() == v.theta@.len()
            &&& f.stddev_se@.len() == v.theta@.len()
        },
{
    notes_say_what_the_route_found(
        f.diagnostics,
        v.carrier(),
        p,
        rows(f.varcorr@),
        aside.negligible,
    );
    let g = v.groupings;
    assert(g.levels().len() == 1 + g.extra_q@.len());
    if 0 < e < g.levels().len() {
        assert(g.extra_in_place(e - 1));
    }
    if v.fit.converged {
        reported_effects_follow_the_layout(
            v.theta@,
            g,
            v.u@,
            v.mode_layout(),
            g.widths().len(),
        );
        assert(g.widths().len() == 1 + g.extra_q@.len());
        assert(rows(f.varcorr@).len() == f.varcorr@.len());
    }
}

/// Coefficients and their covariance in the report of a generalized mixed model: the
/// covariance cell by cell as the kernel left it, and the standard error of a target the
/// root of its variance where that is finite and not negative, undefined otherwise.
pub proof fn generalized_errors_are_the_kernels<S: Scalar>(
    f: Fit<S>,
    v: GlmmResultView<S>,
    y: Seq<S>,
    n: nat,
    p: nat,
    family: Family,
    opts: FitOptions<S>,
    aside: GlmmAside<S>,
    i: int,
    j: int,
)
    requires
        is_glmm_report(f, v, y, n, p, family, opts, aside),
        0 <= i < p,
        0 <= j < p,
    ensures
        f.vcov@[i]@.len() == p,
        f.vcov@[i]@[j] == v.vcov.cell(i, j),
        (exists|k: int| 0 <= k < opts.target_indices@.len() && #[trigger] opts.target_indices@[k]
            == j) && v.var_diag@[j].finite() && v.var_diag@[j].nonneg() ==> f.se@[j]
            == v.var_diag@[j].root(),
        !(exists|k: int| 0 <= k < opts.target_indices@.len() && #[trigger] opts.target_indices@[k]
            == j) || !(v.var_diag@[j].finite() && v.var_diag@[j].nonneg()) ==> f.se@[j]
            == S::nan_of(),
{
    assert(f.vcov@[i]@ == Seq::new(p, |j: int| v.vcov.cell(i, j)));
    errors_are_roots_of_target_variances(v.var_diag@, opts.target_indices@, p, j);
}

/// The response, mean, weight and variance function of the first `n` rows read as real
/// numbers, and so do the modes.
pub open spec fn moments_read<S: Scalar>(
    value: spec_fn(S) -> real,
    v: GlmmResultView<S>,
    y: Seq<S>,
    n: nat,
    aside: GlmmAside<S>,
) -> bool {
    &&& forall|i: int|
        0 <= i < n ==> #[trigger] residual_reads(
            value,
            y[i],
            v.mu@[i],
            aside.variance@[i],
            v.prior_w@[i],
        )
    &&& v.groupings.k_total <= v.u@.len()
    &&& forall|k: int| 0 <= k < v.u@.len() ==> (#[trigger] v.u@[k]).finite()
}

/// The squared residuals of the first `n` rows over their variance function, weighted and
/// added up.
pub open spec fn pearson_reading<S: Scalar>(
    value: spec_fn(S) -> real,
    v: GlmmResultView<S>,
    y: Seq<S>,
    n: nat,
    aside: GlmmAside<S>,
) -> real {
    total(
        n,
        |i: int|
            value(v.prior_w@[i]) * (value(y[i]) - value(v.mu@[i])) * (value(y[i]) - value(
                v.mu@[i],
            )) / value(aside.variance@[i]),
    )
}

/// What the report of a converged generalized mixed model holds as the dispersion: for a
/// gamma response what it was held fixed at, or else the weighted squared residuals over
/// the residual degrees of freedom; for a negative binomial response the kernel's own; and
/// 1 for every other family. A search that did not converge has none.
pub proof fn dispersions_follow_the_family<S: Scalar>(
    value: spec_fn(S) -> real,
    f: Fit<S>,
    v: GlmmResultView<S>,
    y: Seq<S>,
    n: nat,
    p: nat,
    family: Family,
    opts: FitOptions<S>,
    aside: GlmmAside<S>,
)
    requires
        is_glmm_report(f, v, y, n, p, family, opts, aside),
    ensures
        !v.fit.converged ==> f.dispersion == S::nan_of(),
        v.fit.converged && family is Gamma && opts.dispersion is Some ==> f.dispersion
            == opts.dispersion->0,
        v.fit.converged && family is Gamma && opts.dispersion is None && exact(value) && p < n
            <= usize::MAX && moments_read(value, v, y, n, aside) ==> value(f.dispersion)
            == pearson_reading(value, v, y, n, aside) / (n - p) as real,
        v.fit.converged && family is NegativeBinomial ==> f.dispersion == v.nb_theta,
        v.fit.converged && (family is Gaussian || family is Binomial || family is Poisson
            || family is InverseGaussian) ==> f.dispersion == S::one_of(),
{
    if exact(value) && p < n <= usize::MAX && moments_read(value, v, y, n, aside) {
        pearson_statistic_weighs_squared_residuals(
            value,
            y,
            v.mu@,
            aside.variance@,
            v.prior_w@,
            n,
        );
        let d = S::count_of((n - p) as usize);
        assert(d.finite() && value(d) == (n - p) as real);
    }
}

/// The scale of the variance components: 1 for a binomial, a Poisson and a negative
/// binomial response; for the others the weighted squared residuals and the squared modes
/// of every effect, over the rows.
pub proof fn component_scales_follow_the_family<S: Scalar>(
    value: spec_fn(S) -> real,
    v: GlmmResultView<S>,
    y: Seq<S>,
    n: nat,
    family: Family,
    aside: GlmmAside<S>,
)
    ensures
        family is Binomial || family is Poisson || family is NegativeBinomial ==> component_scale(
            v,
            y,
            n,
            family,
            aside,
        ) == S::one_of(),
        family is Gaussian || family is Gamma || family is InverseGaussian ==> (exact(value) && 0
            < n <= usize::MAX && moments_read(value, v, y, n, aside) ==> {
            let scale = component_scale(v, y, n, family, aside);
            &&& scale.finite()
            &&& value(scale) * n as real == pearson_reading(value, v, y, n, aside) + total(
                v.groupings.k_total as nat,
                |k: int| value(v.u@[k]) * value(v.u@[k]),
            )
        }),
{
    if exact(value) && 0 < n <= usize::MAX && moments_read(value, v, y, n, aside) {
        pearson_statistic_weighs_squared_residuals(
            value,
            y,
            v.mu@,
            aside.variance@,
            v.prior_w@,
            n,
        );
        squares_add_up(value, v.u@, v.groupings.k_total as nat);
        let d = S::count_of(n as usize);
        assert(d.finite() && value(d) == n as real);
        let a = pearson_of(v, y, n, aside);
        let b = sum_to(v.groupings.k_total as nat, squares(v.u@));
        let s = a.sum_with(b);
        assert(s.finite() && value(s) == value(a) + value(b));
        let t = value(s);
        let m = n as real;
        assert(m != 0real);
        assert(s.quotient(d).finite() && value(s.quotient(d)) == t / m);
        assert((t / m) * m == t) by (nonlinear_arith)
            requires
                m != 0real,
        ;
    }
}

/// The variance components of a converged generalized mixed model, in every grouping
/// alike: entry `(r, c)` of a covariance block is the scale of the components times the
/// inner product of two rows of the grouping's factor, a squared parameter is that scale
/// times the parameter squared, and the standard error of a parameter is the kernel's over
/// the scale of its row.
pub proof fn generalized_components_carry_their_scale<S: Scalar>(
    value: spec_fn(S) -> real,
    f: Fit<S>,
    v: GlmmResultView<S>,
    y: Seq<S>,
    n: nat,
    p: nat,
    family: Family,
    opts: FitOptions<S>,
    aside: GlmmAside<S>,
    e: int,
    r: int,
    c: int,
)
    requires
        exact(value),
        v.wf(),
        is_glmm_report(f, v, y, n, p, family, opts, aside),
        v.fit.converged,
        component_scale(v, y, n, family, aside).finite(),
        readable(value, v.theta@, v.groupings),
        0 <= e < v.groupings.widths().len(),
        0 <= c <= r < v.groupings.widths()[e],
        v.theta_se@[theta_at(v.groupings.widths(), e as nat) + vech_index(
            v.groupings.widths()[e],
            r,
            c,
        )].finite(),
    ensures
        ({
            let g = v.groupings;
            let q = g.widths()[e];
            let start = theta_at(g.widths(), e as nat);
            let at = vech_index(q, r, c);
            let scale = value(component_scale(v, y, n, family, aside));
            let row = |i: int, k: int|
                value(v.theta@[start + vech_index(q, i, k)]) / value(g.scales()[e][i]);
            &&& 2 * f.varcorr@[e]@.len() == q * (q + 1)
            &&& value(f.varcorr@[e]@[at]) == scale * total(
                (c + 1) as nat,
                |k: int| row(r, k) * row(c, k),
            )
            &&& value(f.tau2@[start + at]) == scale * (row(r, c) * row(r, c))
            &&& value(f.stddev_se@[start + at]) == value(v.theta_se@[start + at]) / value(
                g.scales()[e][r],
            )
        }),
{
    let g = v.groupings;
    let q = g.widths()[e];
    let start = theta_at(g.widths(), e as nat);
    let sigma = component_scale(v, y, n, family, aside);
    every_block_carries_the_scale(value, v.theta@, g, sigma, e, r, c);
    squared_parameters_carry_the_scale(value, v.theta@, g, sigma, e, r, c);
    packed_covariance_holds_row_products(
        v.theta@,
        start as int,
        q,
        sigma,
        g.scales()[e],
        r,
        c,
    );
    parameters_take_the_scale_of_their_row(
        g.widths(),
        g.scales(),
        g.widths().len(),
        e,
        r,
        c,
    );
    assert(rows(f.varcorr@)[e] == f.varcorr@[e]@);
    assert(rows(f.varcorr@)[e] == covariance_of(v.theta@, g, sigma, e));
    let row = |i: int, k: int|
        value(v.theta@[start + vech_index(q, i, k)]) / value(g.scales()[e][i]);
    let a = |k: int|
        (value(v.theta@[start + vech_index(q, r, k)]) / value(g.scales()[e][r])) * (value(
            v.theta@[start + vech_index(q, c, k)],
        ) / value(g.scales()[e][c]));
    let b = |k: int| row(r, k) * row(c, k);
    lemma_total_equal((c + 1) as nat, a, b);
    let t = row(r, c);
    let s = value(sigma);
    assert(t * t * s == s * (t * t)) by (nonlinear_arith);
    assert(g.scales()[e][r].finite());
}

/// The effects that a converged generalized mixed model reports are its factors times its
/// modes: component by component in the primary grouping of a packed layout, and level by
/// level everywhere else.
pub proof fn generalized_effects_are_factor_times_modes<S: Scalar>(
    value: spec_fn(S) -> real,
    f: Fit<S>,
    v: GlmmResultView<S>,
    y: Seq<S>,
    n: nat,
    p: nat,
    family: Family,
    opts: FitOptions<S>,
    aside: GlmmAside<S>,
    e: int,
    l: int,
    r: int,
)
    requires
        exact(value),
        v.wf(),
        is_glmm_report(f, v, y, n, p, family, opts, aside),
        v.fit.converged,
        readable(value, v.theta@, v.groupings),
        forall|k: int| 0 <= k < v.u@.len() ==> (#[trigger] v.u@[k]).finite(),
        0 <= e < v.groupings.widths().len(),
        0 <= l < v.groupings.levels()[e],
        0 <= r < v.groupings.widths()[e],
    ensures
        ({
            let g = v.groupings;
            let q = g.widths()[e];
            let start = theta_at(g.widths(), e as nat);
            let off = effects_at(g.widths(), g.levels(), e as nat);
            value(f.ranef@[off + l * q + r]) == total(
                (r + 1) as nat,
                |c: int|
                    (value(v.theta@[start + vech_index(q, r, c)]) / value(g.scales()[e][r]))
                        * value(
                        v.u@[if e == 0 && v.layout == GlmmLayout::Packed {
                            c * g.n_primary + l
                        } else {
                            off + l * q + c
                        }],
                    ),
            )
        }),
{
    let g = v.groupings;
    let q = g.widths()[e];
    let start = theta_at(g.widths(), e as nat);
    let off = effects_at(g.widths(), g.levels(), e as nat);
    reported_effects_are_factor_times_modes(
        value,
        v.theta@,
        g,
        v.u@,
        v.mode_layout(),
        e,
        l,
        r,
    );
    let a = |c: int|
        (value(v.theta@[start + vech_index(q, r, c)]) / value(g.scales()[e][r])) * value(
            v.u@[mode_place(g, v.mode_layout(), e, l, c)],
        );
    let b = |c: int|
        (value(v.theta@[start + vech_index(q, r, c)]) / value(g.scales()[e][r])) * value(
            v.u@[if e == 0 && v.layout == GlmmLayout::Packed {
                c * g.n_primary + l
            } else {
                off + l * q + c
            }],
        );
    lemma_total_equal((r + 1) as nat, a, b);
}

/// A draw writes its weights on its own rows, and leaves the weights of the rows past it,
/// or every weight where it brings none, as they were.
pub proof fn weights_reach_their_rows<S>(
    prior_w: Seq<S>,
    weights: Option<Seq<S>>,
    n: int,
    i: int,
)
    requires
        0 <= n <= prior_w.len(),
        weights matches Some(w) ==> w.len() == n,
        0 <= i < prior_w.len(),
    ensures
        weights_after(prior_w, weights, n).len() == prior_w.len(),
        weights is Some && i < n ==> weights_after(prior_w, weights, n)[i] == weights->0[i],
        weights is None || i >= n ==> weights_after(prior_w, weights, n)[i] == prior_w[i],
{
}

/// A design can be fitted exactly where it has a column and more rows than columns.
pub proof fn fittable_designs_have_rows_to_spare(n: nat, p: nat)
    ensures
        is_degenerate(n, p) <==> !(1 <= p && p + 1 <= n),
{
}

/// A fit without random effects seeds the search exactly if none of its coefficients is
/// undefined or infinite.
pub proof fn one_unbounded_coefficient_spoils_a_start<S: Scalar>(v: Seq<S>, i: int)
    requires
        0 <= i < v.len(),
    ensures
        all_finite(v) ==> v[i].finite(),
        !all_finite(v) <==> exists|k: int| 0 <= k < v.len() && !(#[trigger] v[k]).finite(),
{
}

/// A fresh state weighs every row alike, has no offset, and runs on one thread.
pub proof fn fresh_states_weigh_nothing<S: Scalar>(s: GlmmState<S>, n: nat, i: int)
    requires
        is_fresh(s, n),
    ensures
        s.prior_w@.len() >= n && s.prior_w@.len() >= 1,
        0 <= i < s.prior_w@.len() ==> s.prior_w@[i] == S::one_of(),
        !s.weighted && !s.parallel_inner && s.offset is None,
{
}

} // verus!
