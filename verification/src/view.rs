//! The lean result of a fit: what a loop over draws reads, and the way to the
//! reported fit.
use crate::diagnostics::{fixed_only_of, FitDiagnostics};
use crate::fit::Fit;
use crate::glmm::{
    glmm_view_to_fit, is_glmm_report, moments_fit, unscaled, GlmmAside, GlmmResultView,
};
use crate::groupings::{
    effects_at, every_parameter_has_a_scale, parameters_take_the_scale_of_their_row, theta_at,
    theta_scales, LmmGroupings,
};
use crate::layout::vech_index;
use crate::lmm::{
    is_lmm_recovery, is_lmm_report, lemma_one_covariance, level_seq, lmm_view_to_fit, rows_fit, targets_in, LmmAside,
    LmmResultView,
};
use crate::model::{Family, GroupIds, ModelSpec};
use crate::options::FitOptions;
use crate::perm::{
    exchange_is_an_involution, exchange_moves_two_entries, exchangeable, exchanged,
    grouping_entries_move_without_effects_too, is_exchanged, levels_before, unpermute_fit, Perm,
};
use crate::ranef::{reported_effects_follow_the_layout, ModeLayout};
use crate::reading::exact;
use crate::scalar::{copied, filled, rows, Scalar};
use crate::varcorr::readable;
use vstd::prelude::*;

verus! {

/// What a kernel without random effects left behind.
#[derive(Debug)]
pub struct FixedResultView<S: Scalar> {
    /// Fixed effects.
    pub betas: Vec<S>,
    /// Variances of the targets, in target order.
    pub var_diag: Vec<S>,
    /// Wald statistics of the targets, in target order.
    pub t_sq: Vec<S>,
    /// The diagnostics of the fit.
    pub diagnostics: FitDiagnostics<S>,
}

/// The result of each route.
#[derive(Debug)]
pub enum FitViewKind<S: Scalar> {
    /// Least squares.
    Ols(FixedResultView<S>),
    /// A generalized linear model.
    Glm(FixedResultView<S>),
    /// A linear mixed model.
    Lmm(LmmResultView<S>),
    /// A generalized linear mixed model.
    Glmm(GlmmResultView<S>),
    /// A route whose kernel assembles the report itself.
    Prebuilt {
        /// The report.
        fit: Fit<S>,
        /// Wald statistics, in coefficient order.
        t_sq: Vec<S>,
        /// Variances, in coefficient order.
        var_diag: Vec<S>,
    },
}

/// The lean result of a fit.
#[derive(Debug)]
pub struct FitView<S: Scalar> {
    /// The result of the route.
    pub kind: FitViewKind<S>,
    /// The order that the workspace held the groupings in.
    pub perm: Perm,
    /// The variance parameters in declaration order and in the units of the
    /// design; empty where the kernel's own are just that.
    pub theta_declared: Vec<S>,
}

impl<S: Scalar> FitViewKind<S> {
    /// The variance parameters as the kernel holds them; none where the route has
    /// none or exposes none.
    pub open spec fn kernel_theta(&self) -> Seq<S> {
        match *self {
            FitViewKind::Lmm(v) => v.theta@,
            FitViewKind::Glmm(v) => v.theta@,
            _ => Seq::empty(),
        }
    }

    /// The layout of the random effects that the kernel used; none where the route
    /// has none or exposes none.
    pub open spec fn kernel_groupings(&self) -> Option<LmmGroupings<S>> {
        match *self {
            FitViewKind::Lmm(v) => Some(v.groupings),
            FitViewKind::Glmm(v) => Some(v.groupings),
            _ => None,
        }
    }

    /// The kernel scaled some row of a factor.
    pub open spec fn scaled(&self) -> bool {
        match *self {
            FitViewKind::Lmm(v) => v.groupings.scaled_somewhere(),
            FitViewKind::Glmm(v) => v.groupings.scaled_somewhere(),
            _ => false,
        }
    }

    /// The row scale of each variance parameter.
    pub open spec fn row_scales(&self) -> Seq<S> {
        match *self {
            FitViewKind::Lmm(v) => theta_scales(
                v.groupings.widths(),
                v.groupings.scales(),
                v.groupings.widths().len(),
            ),
            FitViewKind::Glmm(v) => theta_scales(
                v.groupings.widths(),
                v.groupings.scales(),
                v.groupings.widths().len(),
            ),
            _ => Seq::empty(),
        }
    }

    /// The variance parameters in the units of the design, in the kernel's order.
    pub open spec fn slot_theta(&self) -> Seq<S> {
        if self.scaled() {
            unscaled(self.kernel_theta(), self.row_scales())
        } else {
            self.kernel_theta()
        }
    }

    /// The parts of the result fit together.
    pub open spec fn wf(&self) -> bool {
        match *self {
            FitViewKind::Lmm(v) => v.wf(),
            FitViewKind::Glmm(v) => v.wf(),
            _ => true,
        }
    }
}

impl<S: Scalar> FitView<S> {
    /// The variance parameters in declaration order, in the units of the design.
    pub open spec fn declared_theta(&self) -> Seq<S> {
        exchanged(self.kind.slot_theta(), self.perm.slot as int)
    }

    /// The parts fit together, and the stored parameters are those to report.
    pub open spec fn wf(&self) -> bool {
        &&& self.kind.wf()
        &&& self.theta_declared@ == self.declared_theta() || (self.theta_declared@.len() == 0
            && self.kind.kernel_theta() == self.declared_theta())
    }

    /// Wrap the result of a route. The variance parameters are mapped to
    /// declaration order and divided by the kernel's row scales, once, here; where
    /// there is nothing to map nothing is stored.
    pub fn new(kind: FitViewKind<S>, perm: Perm) -> (r: FitView<S>)
        requires
            kind.wf(),
        ensures
            r.wf(),
            r.kind == kind,
            r.perm == perm,
            (r.theta_declared@.len() == 0) == (kind.kernel_theta().len() == 0 || !(kind.scaled()
                || perm.slot != 0)),
    {
        let mut declared: Vec<S> = Vec::new();
        let scaled: bool = match &kind {
            FitViewKind::Lmm(v) => v.groupings.any_slope_scaled(),
            FitViewKind::Glmm(v) => v.groupings.any_slope_scaled(),
            _ => false,
        };
        if scaled || !perm.is_identity() {
            match &kind {
                FitViewKind::Lmm(v) => {
                    declared = in_design_units(&v.theta, &v.groupings, scaled);
                },
                FitViewKind::Glmm(v) => {
                    declared = in_design_units(&v.theta, &v.groupings, scaled);
                },
                _ => {},
            }
            assert(declared@ =~= kind.slot_theta());
            perm.swap_slots(&mut declared);
        } else {
            assert(exchanged(kind.kernel_theta(), 0) =~= kind.kernel_theta());
        }
        FitView { kind, perm, theta_declared: declared }
    }

    /// Wald statistics: in target order for the routes without random effects, in
    /// coefficient order for the others.
    pub fn t_sq(&self) -> (r: &[S])
        ensures
            r@ == (match self.kind {
                FitViewKind::Ols(v) => v.t_sq@,
                FitViewKind::Glm(v) => v.t_sq@,
                FitViewKind::Lmm(v) => v.t_sq@,
                FitViewKind::Glmm(v) => v.t_sq@,
                FitViewKind::Prebuilt { t_sq, .. } => t_sq@,
            }),
    {
        match &self.kind {
            FitViewKind::Ols(v) => v.t_sq.as_slice(),
            FitViewKind::Glm(v) => v.t_sq.as_slice(),
            FitViewKind::Lmm(v) => v.t_sq.as_slice(),
            FitViewKind::Glmm(v) => v.t_sq.as_slice(),
            FitViewKind::Prebuilt { t_sq, .. } => t_sq.as_slice(),
        }
    }

    /// The diagnostics of the fit.
    pub open spec fn carrier(&self) -> FitDiagnostics<S> {
        match self.kind {
            FitViewKind::Ols(v) => v.diagnostics,
            FitViewKind::Glm(v) => v.diagnostics,
            FitViewKind::Lmm(v) => v.carrier(),
            FitViewKind::Glmm(v) => v.carrier(),
            FitViewKind::Prebuilt { fit, .. } => FitDiagnostics {
                boundary_hit: if fit.diagnostics.singular {
                    1
                } else {
                    0
                },
                ..fixed_only_of::<S>(fit.diagnostics.converged)
            },
        }
    }

    /// The diagnostics of the fit. A route that assembles its report itself says
    /// whether it converged, and at the boundary whether it is singular.
    pub fn diagnostics(&self) -> (r: FitDiagnostics<S>)
        ensures
            r == self.carrier(),
    {
        match &self.kind {
            FitViewKind::Ols(v) => v.diagnostics,
            FitViewKind::Glm(v) => v.diagnostics,
            FitViewKind::Lmm(v) => v.diagnostics(),
            FitViewKind::Glmm(v) => v.diagnostics(),
            FitViewKind::Prebuilt { fit, .. } => {
                let mut d: FitDiagnostics<S> = FitDiagnostics::fixed_only(fit.converged());
                d.boundary_hit =
                if fit.singular() {
                    1
                } else {
                    0
                };
                d
            },
        }
    }

    /// Whether the fit reached its convergence criterion.
    pub fn converged(&self) -> (r: bool)
        ensures
            r == self.carrier().converged,
    {
        self.diagnostics().converged
    }

    /// Fixed effects.
    pub fn betas(&self) -> (r: &[S])
        ensures
            r@ == (match self.kind {
                FitViewKind::Ols(v) => v.betas@,
                FitViewKind::Glm(v) => v.betas@,
                FitViewKind::Lmm(v) => v.betas@,
                FitViewKind::Glmm(v) => v.betas@,
                FitViewKind::Prebuilt { fit, .. } => fit.beta@,
            }),
    {
        match &self.kind {
            FitViewKind::Ols(v) => v.betas.as_slice(),
            FitViewKind::Glm(v) => v.betas.as_slice(),
            FitViewKind::Lmm(v) => v.betas.as_slice(),
            FitViewKind::Glmm(v) => v.betas.as_slice(),
            FitViewKind::Prebuilt { fit, .. } => fit.beta.as_slice(),
        }
    }

    /// Variances of the fixed effects, in the order of [`FitView::t_sq`].
    pub fn var_diag(&self) -> (r: &[S])
        ensures
            r@ == (match self.kind {
                FitViewKind::Ols(v) => v.var_diag@,
                FitViewKind::Glm(v) => v.var_diag@,
                FitViewKind::Lmm(v) => v.var_diag@,
                FitViewKind::Glmm(v) => v.var_diag@,
                FitViewKind::Prebuilt { var_diag, .. } => var_diag@,
            }),
    {
        match &self.kind {
            FitViewKind::Ols(v) => v.var_diag.as_slice(),
            FitViewKind::Glm(v) => v.var_diag.as_slice(),
            FitViewKind::Lmm(v) => v.var_diag.as_slice(),
            FitViewKind::Glmm(v) => v.var_diag.as_slice(),
            FitViewKind::Prebuilt { var_diag, .. } => var_diag.as_slice(),
        }
    }

    /// Joint Wald statistic over the targets, of the mixed kernels; undefined for
    /// the other routes.
    pub fn joint_t_sq(&self) -> (r: S)
        ensures
            r == (match self.kind {
                FitViewKind::Lmm(v) => v.fit.joint_t_sq,
                FitViewKind::Glmm(v) => v.fit.joint_t_sq,
                _ => S::nan_of(),
            }),
    {
        match &self.kind {
            FitViewKind::Lmm(v) => v.fit.joint_t_sq,
            FitViewKind::Glmm(v) => v.fit.joint_t_sq,
            _ => S::nan(),
        }
    }

    /// Evaluations of the objective; 0 for the routes that have none.
    pub fn n_eval(&self) -> (r: usize)
        ensures
            r == (match self.kind {
                FitViewKind::Lmm(v) => v.fit.n_eval,
                FitViewKind::Glmm(v) => v.fit.n_eval,
                FitViewKind::Prebuilt { fit, .. } => fit.n_eval,
                _ => 0,
            }),
    {
        match &self.kind {
            FitViewKind::Lmm(v) => v.fit.n_eval,
            FitViewKind::Glmm(v) => v.fit.n_eval,
            FitViewKind::Prebuilt { fit, .. } => fit.n_eval,
            _ => 0,
        }
    }

    /// Residual variance of a linear mixed model, variance of the random
    /// intercept of a generalized one, the reported dispersion of a route that
    /// assembles its report; undefined for the others.
    pub fn dispersion(&self) -> (r: S)
        ensures
            r == (match self.kind {
                FitViewKind::Lmm(v) => v.fit.sigma_sq,
                FitViewKind::Glmm(v) => v.fit.tau_squared_hat,
                FitViewKind::Prebuilt { fit, .. } => fit.dispersion,
                _ => S::nan_of(),
            }),
    {
        match &self.kind {
            FitViewKind::Lmm(v) => v.fit.sigma_sq,
            FitViewKind::Glmm(v) => v.fit.tau_squared_hat,
            FitViewKind::Prebuilt { fit, .. } => fit.dispersion,
            _ => S::nan(),
        }
    }

    /// The variance parameters in declaration order and in the units of the
    /// design, as a start is read; none for a route that has none or exposes none.
    pub fn theta(&self) -> (r: &[S])
        requires
            self.wf(),
        ensures
            r@ == self.declared_theta(),
    {
        if self.theta_declared.len() > 0 {
            return self.theta_declared.as_slice();
        }
        match &self.kind {
            FitViewKind::Lmm(v) => v.theta.as_slice(),
            FitViewKind::Glmm(v) => v.theta.as_slice(),
            _ => self.theta_declared.as_slice(),
        }
    }
}

/// The variance parameters over the kernel's row scales.
fn in_design_units<S: Scalar>(
    theta: &Vec<S>,
    groupings: &LmmGroupings<S>,
    scaled: bool,
) -> (r: Vec<S>)
    requires
        groupings.wf(),
        theta@.len() == groupings.theta_len(),
    ensures
        r@ == if scaled {
            unscaled(
                theta@,
                theta_scales(
                    groupings.widths(),
                    groupings.scales(),
                    groupings.widths().len(),
                ),
            )
        } else {
            theta@
        },
{
    if !scaled {
        return copied(theta.as_slice());
    }
    let scales: Vec<S> = groupings.theta_row_scales();
    let mut out: Vec<S> = Vec::with_capacity(theta.len());
    let mut k: usize = 0;
    while k < theta.len()
        invariant
            k <= theta.len(),
            theta@.len() == scales@.len(),
            out@ == unscaled(theta@, scales@).take(k as int),
        decreases theta.len() - k,
    {
        out.push(theta[k].over(scales[k]));
        k = k + 1;
    }
    assert(out@ =~= unscaled(theta@, scales@));
    out
}

/// Wald statistics of an assembled fit: the squared ratio of a coefficient to its
/// standard error, undefined where that is not finite.
pub open spec fn wald_of<S: Scalar>(fit: Fit<S>) -> Seq<S> {
    Seq::new(
        fit.beta@.len(),
        |j: int|
            if fit.se@[j].finite() {
                fit.beta@[j].quotient(fit.se@[j]).product(fit.beta@[j].quotient(fit.se@[j]))
            } else {
                S::nan_of()
            },
    )
}

/// Variances of an assembled fit: the squared standard errors, undefined where
/// they are not finite.
pub open spec fn variances_of<S: Scalar>(fit: Fit<S>) -> Seq<S> {
    Seq::new(
        fit.beta@.len(),
        |j: int|
            if fit.se@[j].finite() {
                fit.se@[j].product(fit.se@[j])
            } else {
                S::nan_of()
            },
    )
}

/// Wald statistics and variances of an assembled fit, in coefficient order.
pub fn prebuilt_stats<S: Scalar>(fit: &Fit<S>) -> (r: (Vec<S>, Vec<S>))
    requires
        fit.beta@.len() <= fit.se@.len(),
    ensures
        r.0@ == wald_of(*fit),
        r.1@ == variances_of(*fit),
{
    let p: usize = fit.beta.len();
    let mut t_sq: Vec<S> = filled(p, S::nan());
    let mut var_diag: Vec<S> = filled(p, S::nan());
    let mut j: usize = 0;
    while j < p
        invariant
            j <= p,
            p == fit.beta@.len(),
            p <= fit.se@.len(),
            t_sq@.len() == p,
            var_diag@.len() == p,
            forall|k: int|
                0 <= k < p ==> #[trigger] t_sq@[k] == (if k < j {
                    wald_of(*fit)[k]
                } else {
                    S::nan_of()
                }),
            forall|k: int|
                0 <= k < p ==> #[trigger] var_diag@[k] == (if k < j {
                    variances_of(*fit)[k]
                } else {
                    S::nan_of()
                }),
        decreases p - j,
    {
        let se: S = fit.se[j];
        if se.is_finite() {
            var_diag[j] = se.times(se);
            let t: S = fit.beta[j].over(se);
            t_sq[j] = t.times(t);
        }
        j = j + 1;
    }
    assert(t_sq@ =~= wald_of(*fit));
    assert(var_diag@ =~= variances_of(*fit));
    (t_sq, var_diag)
}

/// Wrap a report that a route assembled itself.
pub fn prebuilt_view<S: Scalar>(fit: Fit<S>, perm: Perm) -> (r: FitView<S>)
    requires
        fit.beta@.len() <= fit.se@.len(),
    ensures
        r.wf(),
        r.perm == perm,
        r.theta_declared@.len() == 0,
        r.kind matches FitViewKind::Prebuilt { fit: f, t_sq, var_diag } && f == fit && t_sq@
            == wald_of(fit) && var_diag@ == variances_of(fit),
{
    let (t_sq, var_diag): (Vec<S>, Vec<S>) = prebuilt_stats(&fit);
    FitView::new(FitViewKind::Prebuilt { fit, t_sq, var_diag }, perm)
}

/// What the report of a route takes beyond its result.
#[derive(Debug)]
pub enum Assembly<S: Scalar> {
    /// The report of a route without random effects.
    Mapped(Fit<S>),
    /// For a linear mixed model.
    Lmm(LmmAside),
    /// For a generalized mixed model.
    Glmm(GlmmAside<S>),
    /// Nothing: the route assembled its report itself.
    Ready,
}

/// Every grouping has an intercept alone, as an exchange of groupings takes it.
pub open spec fn intercepts_alone<S: Scalar>(g: LmmGroupings<S>) -> bool {
    forall|e: int| 0 <= e < g.widths().len() ==> #[trigger] g.widths()[e] == 1
}

/// With an intercept alone in every grouping, there is one effect per level.
proof fn lemma_one_effect_per_level<S: Scalar>(g: LmmGroupings<S>, k: nat)
    requires
        g.wf(),
        intercepts_alone(g),
        k <= g.widths().len(),
    ensures
        effects_at(g.widths(), g.levels(), k) == levels_before(level_seq(g), k),
    decreases k,
{
    if k > 0 {
        lemma_one_effect_per_level(g, (k - 1) as nat);
        let e = k - 1;
        assert(g.widths()[e] == 1);
        assert(g.levels()[e] * g.widths()[e] == g.levels()[e]);
        if e > 0 {
            assert(g.extra_in_place(e - 1));
        }
        assert(g.levels()[e] <= usize::MAX);
    }
}

/// The result and the rest of the report belong to one route, and fit together.
pub open spec fn assembles<S: Scalar>(
    v: FitView<S>,
    a: Assembly<S>,
    x: Seq<S>,
    y: Seq<S>,
    ids: GroupIds,
    n: nat,
    p: nat,
    family: Family,
    opts: FitOptions<S>,
) -> bool {
    let targets = opts.target_indices@;
    match v.kind {
        FitViewKind::Ols(_) | FitViewKind::Glm(_) => a matches Assembly::Mapped(f)
            && exchangeable(f, v.perm),
        FitViewKind::Lmm(r) => {
            &&& a is Lmm
            &&& r.betas@.len() == p
            &&& targets_in(targets, p, r.var_diag@.len())
            &&& p <= r.factor.height()
            &&& p <= r.factor.width()
            &&& p + r.theta@.len() < usize::MAX
            &&& r.fit.deviance.finite() ==> rows_fit(r, x, ids, n, p, opts)
            &&& v.perm.slot == 0 || intercepts_alone(r.groupings)
        },
        FitViewKind::Glmm(r) => {
            &&& a is Glmm
            &&& r.betas@.len() == p
            &&& n <= r.mu@.len()
            &&& moments_fit(r, y, n, p, family, opts, a->Glmm_0)
            &&& targets_in(targets, p, r.var_diag@.len())
            &&& p <= r.vcov.height()
            &&& p <= r.vcov.width()
            &&& p + r.theta@.len() < usize::MAX
            &&& v.perm.slot == 0 || intercepts_alone(r.groupings)
        },
        FitViewKind::Prebuilt { fit, .. } => a is Ready && exchangeable(fit, v.perm),
    }
}

/// The report of a route, before the groupings are put into declaration order.
pub open spec fn is_route_report<S: Scalar>(
    f: Fit<S>,
    v: FitView<S>,
    a: Assembly<S>,
    x: Seq<S>,
    y: Seq<S>,
    ids: GroupIds,
    n: nat,
    p: nat,
    model: ModelSpec,
    opts: FitOptions<S>,
) -> bool {
    match v.kind {
        FitViewKind::Ols(_) | FitViewKind::Glm(_) => a matches Assembly::Mapped(m) && f == m,
        FitViewKind::Lmm(r) => a matches Assembly::Lmm(aside) && is_lmm_report(
            f,
            r,
            n,
            p,
            opts,
            aside,
        ) && is_lmm_recovery(f, r, x, ids, n, p, opts),
        FitViewKind::Glmm(r) => a matches Assembly::Glmm(aside) && is_glmm_report(
            f,
            r,
            y,
            n,
            p,
            model.family,
            opts,
            aside,
        ),
        FitViewKind::Prebuilt { fit, .. } => f == fit,
    }
}

/// The reported fit `r` of the view: the report of the route, with everything that
/// is kept by grouping in declaration order.
pub open spec fn is_report<S: Scalar>(
    r: Fit<S>,
    v: FitView<S>,
    a: Assembly<S>,
    x: Seq<S>,
    y: Seq<S>,
    ids: GroupIds,
    n: nat,
    p: nat,
    model: ModelSpec,
    opts: FitOptions<S>,
) -> bool {
    exists|f: Fit<S>| #[trigger]
        is_route_report(f, v, a, x, y, ids, n, p, model, opts) && is_exchanged(r, f, v.perm)
}

/// Two reports of one result of a route say the same.
proof fn lemma_one_route_report<S: Scalar>(
    f: Fit<S>,
    g: Fit<S>,
    v: FitView<S>,
    a: Assembly<S>,
    x: Seq<S>,
    y: Seq<S>,
    ids: GroupIds,
    n: nat,
    p: nat,
    model: ModelSpec,
    opts: FitOptions<S>,
)
    requires
        is_route_report(f, v, a, x, y, ids, n, p, model, opts),
        is_route_report(g, v, a, x, y, ids, n, p, model, opts),
    ensures
        f.same(&g),
{
    match v.kind {
        FitViewKind::Lmm(r) => {
            lemma_one_covariance(f, g, r, n, p, opts, opts, a->Lmm_0);
            assert(f.stddev_se@ =~= g.stddev_se@);
            assert(f.ranef@ =~= g.ranef@);
            assert(f.fitted@ =~= g.fitted@);
        },
        FitViewKind::Glmm(r) => {
            assert forall|i: int| 0 <= i < p implies (#[trigger] f.vcov@[i])@ == g.vcov@[i]@ by {}
            assert(rows(f.vcov@) =~= rows(g.vcov@));
        },
        _ => {},
    }
}

/// Rows are exchanged as their contents are.
proof fn lemma_exchanged_rows<T>(v: Seq<Vec<T>>, slot: int)
    ensures
        rows(exchanged(v, slot)) == exchanged(rows(v), slot),
{
    assert(rows(exchanged(v, slot)) =~= exchanged(rows(v), slot));
}

/// A reported fit is a function of what the kernel left behind and of the call: two
/// reports of one result say the same in every field, whatever else the workspace
/// went through.
pub proof fn one_result_has_one_report<S: Scalar>(
    first: Fit<S>,
    second: Fit<S>,
    v: FitView<S>,
    a: Assembly<S>,
    x: Seq<S>,
    y: Seq<S>,
    ids: GroupIds,
    n: nat,
    p: nat,
    model: ModelSpec,
    opts: FitOptions<S>,
)
    requires
        is_report(first, v, a, x, y, ids, n, p, model, opts),
        is_report(second, v, a, x, y, ids, n, p, model, opts),
    ensures
        first.same(&second),
{
    let f = choose|f: Fit<S>| #[trigger]
        is_route_report(f, v, a, x, y, ids, n, p, model, opts) && is_exchanged(first, f, v.perm);
    let g = choose|g: Fit<S>| #[trigger]
        is_route_report(g, v, a, x, y, ids, n, p, model, opts) && is_exchanged(second, g, v.perm);
    let slot = v.perm.slot as int;
    lemma_one_route_report(f, g, v, a, x, y, ids, n, p, model, opts);
    lemma_exchanged_rows(f.varcorr@, slot);
    lemma_exchanged_rows(g.varcorr@, slot);
    lemma_exchanged_rows(f.diagnostics.pinned@, slot);
    lemma_exchanged_rows(g.diagnostics.pinned@, slot);
}

/// The report of a linear mixed model can be put into declaration order.
proof fn lemma_lmm_exchangeable<S: Scalar>(
    f: Fit<S>,
    r: LmmResultView<S>,
    x: Seq<S>,
    ids: GroupIds,
    n: nat,
    p: nat,
    opts: FitOptions<S>,
    perm: Perm,
)
    requires
        r.wf(),
        is_lmm_recovery(f, r, x, ids, n, p, opts),
        perm.slot == 0 || intercepts_alone(r.groupings),
    ensures
        exchangeable(f, perm),
{
    if perm.slot != 0 && r.fit.deviance.finite() {
        let g = r.groupings;
        reported_effects_follow_the_layout(
            r.theta@,
            g,
            r.modes@,
            ModeLayout::Sparse,
            g.widths().len(),
        );
        lemma_one_effect_per_level(g, g.widths().len());
    }
}

/// The report of a generalized mixed model can be put into declaration order.
proof fn lemma_glmm_exchangeable<S: Scalar>(
    f: Fit<S>,
    r: GlmmResultView<S>,
    y: Seq<S>,
    n: nat,
    p: nat,
    model: ModelSpec,
    opts: FitOptions<S>,
    aside: GlmmAside<S>,
    perm: Perm,
)
    requires
        r.wf(),
        is_glmm_report(f, r, y, n, p, model.family, opts, aside),
        perm.slot == 0 || intercepts_alone(r.groupings),
    ensures
        exchangeable(f, perm),
{
    if perm.slot != 0 && r.fit.converged {
        let g = r.groupings;
        reported_effects_follow_the_layout(
            r.theta@,
            g,
            r.u@,
            r.mode_layout(),
            g.widths().len(),
        );
        lemma_one_effect_per_level(g, g.widths().len());
    }
}

impl<S: Scalar> FitView<S> {
    /// The reported fit: the report of the route, with everything that is kept by
    /// grouping in declaration order. A report that the route assembled itself is
    /// passed on.
    pub fn into_fit(
        self,
        x: &[S],
        y: &[S],
        ids: &GroupIds,
        n: usize,
        p: usize,
        model: &ModelSpec,
        opts: &FitOptions<S>,
        assembly: Assembly<S>,
    ) -> (r: Fit<S>)
        requires
            self.wf(),
            assembles(
                self,
                assembly,
                x@,
                y@,
                *ids,
                n as nat,
                p as nat,
                model.family,
                *opts,
            ),
        ensures
            is_report(r, self, assembly, x@, y@, *ids, n as nat, p as nat, *model, *opts),
    {
        let ghost this = self;
        let ghost given = assembly;
        let perm: Perm = self.perm;
        let kind: FitViewKind<S> = self.kind;
        let mut fit: Fit<S> = match (kind, assembly) {
            (FitViewKind::Lmm(v), Assembly::Lmm(aside)) => {
                let f: Fit<S> = lmm_view_to_fit(&v, x, ids, n, p, opts, &aside);
                proof {
                    lemma_lmm_exchangeable(
                        f,
                        v,
                        x@,
                        *ids,
                        n as nat,
                        p as nat,
                        *opts,
                        perm,
                    );
                }
                f
            },
            (FitViewKind::Glmm(v), Assembly::Glmm(aside)) => {
                let (f, _mu, _deviance): (Fit<S>, Vec<S>, S) = glmm_view_to_fit(
                    &v,
                    y,
                    n,
                    p,
                    model,
                    opts,
                    &aside,
                );
                proof {
                    lemma_glmm_exchangeable(
                        f,
                        v,
                        y@,
                        n as nat,
                        p as nat,
                        *model,
                        *opts,
                        aside,
                        perm,
                    );
                }
                f
            },
            (FitViewKind::Prebuilt { fit, .. }, _) => fit,
            (_, Assembly::Mapped(f)) => f,
            (_, _) => vstd::pervasive::unreached(),
        };
        let ghost before = fit;
        assert(is_route_report(
            before,
            this,
            given,
            x@,
            y@,
            *ids,
            n as nat,
            p as nat,
            *model,
            *opts,
        ));
        unpermute_fit(perm, &mut fit);
        fit
    }
}

/// Variance parameters that a view reports, handed to the next fit as a start,
/// reach the kernel as the kernel had them, in the units of the design: carrying
/// them from one fit to the next needs no mapping.
pub proof fn warm_start_round_trip<S: Scalar>(v: FitView<S>)
    ensures
        exchanged(v.declared_theta(), v.perm.slot as int) == v.kind.slot_theta(),
{
    exchange_is_an_involution(v.kind.slot_theta(), v.perm.slot as int);
}

/// The statistics of an assembled report agree with it: where a standard error is
/// not finite, neither a variance nor a Wald statistic is defined.
pub proof fn prebuilt_statistics_follow_the_report<S: Scalar>(fit: Fit<S>, j: int)
    requires
        0 <= j < fit.beta@.len(),
    ensures
        !fit.se@[j].finite() ==> wald_of(fit)[j] == S::nan_of() && variances_of(fit)[j]
            == S::nan_of(),
        fit.se@[j].finite() ==> variances_of(fit)[j] == fit.se@[j].product(fit.se@[j]),
{
}

/// A parameter in the units of the design is the kernel's parameter over the scale of its
/// row, for every entry `(r, c)` of every grouping, whether or not some row is scaled; the
/// parameters that a view reports are those, with the parameter of the primary grouping
/// and that of grouping `slot` exchanged.
pub proof fn reported_parameters_are_in_design_units<S: Scalar>(
    value: spec_fn(S) -> real,
    v: FitView<S>,
    theta: Seq<S>,
    g: LmmGroupings<S>,
    e: int,
    r: int,
    c: int,
)
    requires
        exact(value),
        v.kind.wf(),
        v.kind matches FitViewKind::Lmm(w) ==> theta == w.theta@ && g == w.groupings,
        v.kind matches FitViewKind::Glmm(w) ==> theta == w.theta@ && g == w.groupings,
        v.kind is Lmm || v.kind is Glmm,
        readable(value, theta, g),
        0 <= e < g.widths().len(),
        0 <= c <= r < g.widths()[e],
    ensures
        ({
            let k = theta_at(g.widths(), e as nat) + vech_index(g.widths()[e], r, c);
            let own = v.kind.slot_theta();
            let slot = v.perm.slot as int;
            &&& 0 <= k < theta.len()
            &&& own.len() == theta.len() && v.declared_theta().len() == theta.len()
            &&& value(own[k]) == value(theta[k]) / value(g.scales()[e][r])
            &&& slot == 0 ==> v.declared_theta()[k] == own[k]
            &&& slot < theta.len() && k == slot ==> v.declared_theta()[0] == own[k]
            &&& slot < theta.len() && k == 0 ==> v.declared_theta()[slot] == own[k]
            &&& slot < theta.len() && k != 0 && k != slot ==> v.declared_theta()[k] == own[k]
        }),
{
    let w = g.widths();
    let k = theta_at(w, e as nat) + vech_index(w[e], r, c);
    let slot = v.perm.slot as int;
    assert(w.len() == 1 + g.extra_q@.len());
    parameters_take_the_scale_of_their_row(w, g.scales(), w.len(), e, r, c);
    every_parameter_has_a_scale(w, g.scales(), w.len());
    assert(theta.len() == g.theta_len());
    let s = g.scales()[e][r];
    assert(theta[k].finite() && s.finite());
    if !v.kind.scaled() {
        assert(g.scales().len() == w.len());
        assert(g.scales()[e].len() == w[e]) by {
            if e > 0 {
                assert(g.extra_in_place(e - 1));
            }
        }
        assert(s.unit());
        let t = value(theta[k]);
        assert(t / 1real == t) by (nonlinear_arith);
    }
    let own = v.kind.slot_theta();
    assert(own.len() == theta.len());
    if slot < theta.len() {
        exchange_moves_two_entries(own, slot, k);
    }
    if slot == 0 {
        assert(exchanged(own, 0) =~= own);
    }
}

/// A route without random effects, and one that assembles its report itself, report no
/// variance parameter.
pub proof fn other_routes_report_no_parameter<S: Scalar>(v: FitView<S>)
    requires
        v.kind is Ols || v.kind is Glm || v.kind is Prebuilt,
    ensures
        v.declared_theta().len() == 0,
{
}

/// The Wald statistic of an assembled fit times the square of the standard error is the
/// square of the coefficient, and its variance is the square of the standard error; both
/// are undefined where the standard error is not finite.
pub proof fn wald_statistics_square_the_ratio<S: Scalar>(
    value: spec_fn(S) -> real,
    fit: Fit<S>,
    j: int,
)
    requires
        0 <= j < fit.beta@.len(),
    ensures
        wald_of(fit).len() == fit.beta@.len() && variances_of(fit).len() == fit.beta@.len(),
        !fit.se@[j].finite() ==> wald_of(fit)[j] == S::nan_of() && variances_of(fit)[j]
            == S::nan_of(),
        exact(value) && fit.se@[j].finite() ==> variances_of(fit)[j].finite() && value(
            variances_of(fit)[j],
        ) == value(fit.se@[j]) * value(fit.se@[j]),
        exact(value) && fit.se@[j].finite() && value(fit.se@[j]) != 0real
            && fit.beta@[j].finite() ==> wald_of(fit)[j].finite() && value(wald_of(fit)[j]) * value(
            variances_of(fit)[j],
        ) == value(fit.beta@[j]) * value(fit.beta@[j]),
{
    if exact(value) && fit.se@[j].finite() && value(fit.se@[j]) != 0real && fit.beta@[j].finite() {
        let b = value(fit.beta@[j]);
        let s = value(fit.se@[j]);
        let q = fit.beta@[j].quotient(fit.se@[j]);
        assert(q.finite() && value(q) == b / s);
        let sq = fit.se@[j].product(fit.se@[j]);
        assert(sq.finite() && value(sq) == s * s);
        let t = q.product(q);
        assert(t.finite() && value(t) == (b / s) * (b / s));
        assert(((b / s) * (b / s)) * (s * s) == b * b) by (nonlinear_arith)
            requires
                s != 0real,
        ;
    }
}

/// The diagnostics of a view are those of its kernel. A report that a route assembled
/// itself says whether it converged, lies at the boundary exactly if it is singular, and
/// has nothing else to tell.
pub proof fn diagnostics_come_from_the_kernel<S: Scalar>(v: FitView<S>)
    ensures
        v.kind matches FitViewKind::Ols(w) ==> v.carrier() == w.diagnostics,
        v.kind matches FitViewKind::Glm(w) ==> v.carrier() == w.diagnostics,
        v.kind matches FitViewKind::Lmm(w) ==> {
            let d = v.carrier();
            &&& d.converged == w.fit.converged && d.boundary_hit == w.fit.boundary_hit
            &&& d.pinned_components == w.fit.pinned_components
            &&& d.pivot == w.fit.pivot && d.pivot_col == w.fit.pivot_col
            &&& d.ill_conditioned == w.fit.ill_conditioned
            &&& d.pirls_exhausted == 0 && !d.final_pirls_exhausted && !d.hessian_fallback
        },
        v.kind matches FitViewKind::Glmm(w) ==> {
            let d = v.carrier();
            &&& d.converged == w.fit.converged && d.boundary_hit == w.fit.boundary_hit
            &&& d.pinned_components == w.fit.pinned_components
            &&& !d.ill_conditioned && d.pivot == S::nan_of() && d.pivot_col == 0
            &&& d.pirls_exhausted == w.pirls_exhausted
            &&& d.final_pirls_exhausted == w.final_pirls_exhausted
            &&& d.hessian_fallback == w.fit.hessian_fallback
        },
        v.kind matches FitViewKind::Prebuilt { fit, .. } ==> {
            let d = v.carrier();
            &&& d.converged == fit.diagnostics.converged
            &&& d.boundary_hit == 1 <==> fit.diagnostics.singular
            &&& d.boundary_hit == 0 <==> !fit.diagnostics.singular
            &&& d.pinned_components == 0
            &&& !d.ill_conditioned && d.pivot == S::nan_of() && d.pivot_col == 0
            &&& d.pirls_exhausted == 0 && !d.final_pirls_exhausted && !d.hessian_fallback
        },
{
}

/// A report passes on the fixed effects and the evaluations of its kernel, or the report
/// that the route was given, whatever order the workspace held the groupings in: an
/// exchange of groupings touches nothing that is not kept by grouping.
pub proof fn reports_pass_their_route_on<S: Scalar>(
    r: Fit<S>,
    v: FitView<S>,
    a: Assembly<S>,
    x: Seq<S>,
    y: Seq<S>,
    ids: GroupIds,
    n: nat,
    p: nat,
    model: ModelSpec,
    opts: FitOptions<S>,
)
    requires
        is_report(r, v, a, x, y, ids, n, p, model, opts),
    ensures
        v.kind matches FitViewKind::Lmm(w) ==> {
            &&& a is Lmm
            &&& r.beta@ == w.betas@ && r.n_eval == w.fit.n_eval && r.reml
            &&& r.dispersion == w.fit.sigma_sq
            &&& r.diagnostics.converged == w.fit.converged
        },
        v.kind matches FitViewKind::Glmm(w) ==> {
            &&& a is Glmm
            &&& r.beta@ == w.betas@ && r.n_eval == w.fit.n_eval && !r.reml
            &&& r.diagnostics.converged == w.fit.converged
        },
        v.kind is Ols || v.kind is Glm ==> {
            &&& a is Mapped
            &&& r.beta == a->Mapped_0.beta && r.se == a->Mapped_0.se && r.vcov == a->Mapped_0.vcov
            &&& r.fitted == a->Mapped_0.fitted && r.df == a->Mapped_0.df
            &&& r.loglik == a->Mapped_0.loglik && r.dispersion == a->Mapped_0.dispersion
        },
        v.kind matches FitViewKind::Prebuilt { fit, .. } ==> {
            &&& r.beta == fit.beta && r.se == fit.se && r.vcov == fit.vcov
            &&& r.fitted == fit.fitted && r.df == fit.df && r.n_eval == fit.n_eval
            &&& r.loglik == fit.loglik && r.dispersion == fit.dispersion
            &&& r.deviance == fit.deviance && r.reml == fit.reml
        },
        v.perm.slot == 0 && v.kind is Prebuilt ==> r.tau2@ == v.kind->fit.tau2@ && r.ranef@
            == v.kind->fit.ranef@ && r.varcorr@ == v.kind->fit.varcorr@,
{
    let f = choose|f: Fit<S>| #[trigger]
        is_route_report(f, v, a, x, y, ids, n, p, model, opts) && is_exchanged(r, f, v.perm);
    grouping_entries_move_without_effects_too(r, f, v.perm, 0);
}

} // verus!
