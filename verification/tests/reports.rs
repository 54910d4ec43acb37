//! Reports of the mixed kernels, diagnostics, and views.
use glmm::diagnostics::{
    materialize_diagnostics, pinned_flags, Boundary, Diagnostics, FitDiagnostics, Note,
};
use glmm::draw::{check_call, fit_on};
use glmm::exact::Exact;
use glmm::fit::{degenerate_glmm_fit, glmm_loglik, lmm_loglik, model_df, Fit};
use glmm::glmm::{
    fit_glmm_build, glm_warm_start_beta, glmm_start, glmm_view_to_fit, nb_model, nb_start,
    prefit_options, prep_glmm_design, refuse_degenerate, schur_plan, warm_beta, GlmmAside, GlmmFit,
    GlmmLayout, GlmmResultView, GlmmState,
};
use glmm::groupings::LmmGroupings;
use glmm::lmm::{accumulated_rows, lmm_view_to_fit, sum_log_weights, LmmAside, LmmFit, LmmResultView};
use glmm::matrix::ColMajor;
use glmm::model::{
    theta_width, BinomialLink, Family, GammaLink, GroupIds, Grouping, GroupingRelation,
    InverseGaussianLink, ModelSpec, NegBinomialLink, PoissonLink, ReStructure, Sizing,
};
use glmm::options::{warm_theta, FitOptions, StartValues, WaldSe};
use glmm::perm::{unpermute_fit, Perm};
use glmm::scalar::Scalar;
use glmm::view::{Assembly, FitView, FitViewKind, FixedResultView};
use glmm::workspace::{build_workspace, FitKind, Route};

const NAN: Exact = Exact::Undefined;

fn w(v: i64) -> Exact {
    Exact::Whole(v)
}

fn ws(v: &[i64]) -> Vec<Exact> {
    v.iter().map(|&v| w(v)).collect()
}

fn intercepts(family: Family) -> ModelSpec {
    ModelSpec {
        family,
        re: Some(ReStructure {
            sizing: Sizing::FixedClusters { n_clusters: 2 },
            slopes: vec![],
            extra_groupings: vec![Grouping {
                relation: GroupingRelation::Crossed { n_clusters: 3 },
                slopes: vec![],
            }],
        }),
    }
}

fn ids() -> GroupIds {
    GroupIds {
        primary: vec![0, 1, 1],
        extra: vec![vec![2, 0, 1]],
    }
}

fn gamma() -> Family {
    Family::Gamma {
        link: GammaLink::Log,
    }
}

fn options() -> FitOptions<Exact> {
    FitOptions {
        target_indices: vec![1],
        ..FitOptions::default()
    }
}

fn identity(p: usize) -> ColMajor<Exact> {
    let mut l = ColMajor::new(p, p, w(0));
    for i in 0..p {
        l.set(i, i, w(1));
    }
    l
}

fn lmm_result() -> LmmResultView<Exact> {
    let model = intercepts(Family::Gaussian);
    LmmResultView {
        fit: LmmFit {
            converged: true,
            sigma_sq: w(2),
            deviance: w(40),
            joint_t_sq: w(11),
            boundary_hit: 1,
            pinned_components: 2,
            n_eval: 9,
            pivot: w(5),
            pivot_col: 1,
            ill_conditioned: true,
        },
        betas: ws(&[10, 20]),
        var_diag: ws(&[4, 9]),
        t_sq: ws(&[0, 44]),
        factor: identity(2),
        theta: ws(&[3, 0]),
        groupings: LmmGroupings::from_cluster_spec_ext(&model, 3, &[], &[]),
        n_rows: 3,
        modes: ws(&[1, 2, 5, 6, 7]),
    }
}

fn lmm_aside() -> LmmAside {
    LmmAside { negligible: false }
}

fn lmm_design() -> Vec<Exact> {
    ws(&[1, 1, 1, 2, 1, 3])
}

#[test]
fn linear_mixed_report() {
    let v = lmm_result();
    let f = lmm_view_to_fit(&v, &lmm_design(), &ids(), 3, 2, &options(), &lmm_aside());
    assert_eq!(f.beta, ws(&[10, 20]));
    assert_eq!(f.se, vec![NAN, w(3)]);
    assert_eq!(f.tau2, ws(&[18, 0]));
    assert_eq!(f.varcorr, vec![ws(&[18]), ws(&[0])]);
    assert_eq!(f.vcov, vec![vec![NAN, NAN], vec![NAN, w(2)]]);
    assert_eq!(f.dispersion, w(2));
    assert_eq!(f.deviance, w(40));
    assert_eq!(f.df, 5);
    assert!(f.reml && f.converged() && f.singular());
    assert_eq!(f.diagnostics.boundary, Boundary::AtBoundary);
    assert_eq!(f.diagnostics.pinned, vec![vec![false], vec![true]]);
    assert_eq!(f.diagnostics.notes.len(), 1);
    assert_eq!(f.ranef, ws(&[3, 6, 0, 0, 0]));
    assert_eq!(f.n_eval, 9);
}

#[test]
fn unit_weights_leave_the_linear_mixed_criterion() {
    let v = lmm_result();
    let x = lmm_design();
    let mut opts = options();
    let plain = lmm_view_to_fit(&v, &x, &ids(), 3, 2, &opts, &lmm_aside());
    opts.weights = Some(ws(&[1, 1, 1]));
    let f = lmm_view_to_fit(&v, &x, &ids(), 3, 2, &opts, &lmm_aside());
    assert_eq!(f.deviance, w(40));
    assert_eq!(f.loglik, plain.loglik);
    assert_eq!(f.vcov, plain.vcov);
    assert_eq!(f.fitted, plain.fitted);
    assert_eq!(sum_log_weights(&ws(&[1, 2])), NAN);
}

#[test]
fn recovered_modes_give_means() {
    let v = lmm_result();
    let x = lmm_design();
    let mut opts = options();
    opts.offset = Some(ws(&[100, 0, 0]));
    let f = lmm_view_to_fit(&v, &x, &ids(), 3, 2, &opts, &lmm_aside());
    assert_eq!(f.ranef, ws(&[3, 6, 0, 0, 0]));
    assert_eq!(f.ranef_levels, vec![2, 3]);
    assert_eq!(f.fitted, ws(&[133, 56, 76]));
}

#[test]
fn no_endpoint_withholds_the_components() {
    let mut v = lmm_result();
    v.fit.deviance = NAN;
    v.modes = vec![];
    v.fit.boundary_hit = 2;
    v.fit.pinned_components = 0;
    let x = lmm_design();
    let f = lmm_view_to_fit(&v, &x, &ids(), 3, 2, &options(), &lmm_aside());
    assert_eq!(f.tau2, vec![NAN, NAN]);
    assert!(f.varcorr.is_empty() && f.fitted.is_empty() && f.ranef.is_empty());
    assert_eq!(f.ranef_levels, vec![2, 3]);
    assert_eq!(f.vcov, vec![vec![NAN; 2]; 2]);
    assert_eq!(f.df, 0);
    assert_eq!(f.loglik, NAN);
    assert_eq!(f.diagnostics.boundary, Boundary::NoOptimum);
    assert!(!f.singular());
}

fn glmm_result(family: Family, converged: bool) -> GlmmResultView<Exact> {
    let model = intercepts(family);
    let mut vcov = ColMajor::new(2, 2, NAN);
    vcov.set(1, 1, w(9));
    GlmmResultView {
        fit: GlmmFit {
            converged,
            deviance: w(40),
            joint_t_sq: w(12),
            tau_squared_hat: w(13),
            boundary_hit: 0,
            pinned_components: 0,
            n_eval: 8,
            hessian_fallback: true,
        },
        nb_theta: w(77),
        betas: ws(&[10, 20]),
        var_diag: ws(&[4, 9]),
        t_sq: ws(&[0, 45]),
        vcov,
        theta: ws(&[3, 4]),
        theta_se: ws(&[5, 6]),
        mu: ws(&[1, 2, 3, 99]),
        u: ws(&[1, 2, 5, 6, 7]),
        prior_w: ws(&[1, 2, 2, 50]),
        groupings: LmmGroupings::from_cluster_spec_ext(&model, 3, &[], &[]),
        layout: GlmmLayout::Blocked,
        pirls_exhausted: 3,
        final_pirls_exhausted: false,
    }
}

fn glmm_aside() -> GlmmAside<Exact> {
    GlmmAside {
        variance: ws(&[1, 4, 1]),
        saturated: w(1000),
        negligible: false,
    }
}

/// Each row two standard deviations from its mean.
fn response() -> Vec<Exact> {
    ws(&[3, 6, 5])
}

#[test]
fn generalized_mixed_report() {
    let poisson = Family::Poisson {
        link: PoissonLink::Log,
    };
    let v = glmm_result(poisson, true);
    let (f, mu, dev) =
        glmm_view_to_fit(&v, &response(), 3, 2, &intercepts(poisson), &options(), &glmm_aside());
    assert_eq!(f.se, vec![NAN, w(3)]);
    assert_eq!(f.vcov, vec![vec![NAN, NAN], vec![NAN, w(9)]]);
    assert_eq!(f.tau2, ws(&[9, 16]));
    assert_eq!(f.stddev_se, ws(&[5, 6]));
    assert_eq!(f.varcorr, vec![ws(&[9]), ws(&[16])]);
    assert_eq!(f.dispersion, w(1));
    assert_eq!(f.loglik, w(980));
    assert_eq!(f.df, 4);
    assert!(!f.reml);
    assert_eq!(f.ranef, ws(&[3, 6, 20, 24, 28]));
    assert_eq!(f.ranef_levels, vec![2, 3]);
    assert_eq!(f.fitted, ws(&[1, 2, 3]));
    assert_eq!((mu, dev), (ws(&[1, 2, 3]), w(40)));
    assert_eq!(f.diagnostics.notes.len(), 2);
    assert!(matches!(
        f.diagnostics.notes[0],
        Note::PirlsExhausted {
            evals: 3,
            final_eval: false
        }
    ));
    assert!(matches!(f.diagnostics.notes[1], Note::HessianSeFallback));
}

#[test]
fn scaled_columns_are_reported_in_design_units() {
    let family = Family::Binomial {
        link: BinomialLink::Probit,
    };
    let mut v = glmm_result(family, true);
    v.layout = GlmmLayout::Packed;
    v.groupings.set_slope_scales(ws(&[1]), vec![ws(&[2])]);
    let (f, _, _) = glmm_view_to_fit(&v, &response(), 3, 2, &intercepts(family), &options(), &glmm_aside());
    assert_eq!(f.tau2, ws(&[9, 4]));
    assert_eq!(f.stddev_se, ws(&[5, 3]));
    assert_eq!(f.varcorr, vec![ws(&[9]), ws(&[4])]);
    assert_eq!(f.ranef, ws(&[3, 6, 10, 12, 14]));
}

#[test]
fn dispersion_of_each_family() {
    let report = |family: Family, opts: &FitOptions<Exact>, converged: bool| {
        let v = glmm_result(family, converged);
        glmm_view_to_fit(&v, &response(), 3, 2, &intercepts(family), opts, &glmm_aside()).0
    };
    let free = options();
    // Three squared residuals of 4, weighted 1, 2 and 2, on one degree of freedom.
    assert_eq!(report(gamma(), &free, true).dispersion, w(20));
    assert_eq!(report(gamma(), &free, true).df, 5);
    assert_eq!(report(gamma(), &free, true).loglik, w(-20));
    let mut held = options();
    held.dispersion = Some(w(7));
    assert_eq!(report(gamma(), &held, true).dispersion, w(7));
    assert_eq!(report(gamma(), &held, true).df, 4);
    let nb = Family::NegativeBinomial {
        link: NegBinomialLink::Log,
    };
    assert_eq!(report(nb, &free, true).dispersion, w(77));
    assert_eq!(report(nb, &free, true).tau2, ws(&[9, 16]));
    // (20 + 1 + 4 + 25 + 36 + 49) / 3 is the scale of the components.
    assert_eq!(report(gamma(), &free, true).tau2, ws(&[405, 720]));
    let failed = report(gamma(), &held, false);
    assert_eq!(failed.dispersion, NAN);
    assert_eq!(failed.tau2, vec![NAN, NAN]);
    assert_eq!(failed.stddev_se, vec![NAN, NAN]);
    assert!(failed.varcorr.is_empty() && failed.ranef.is_empty() && failed.fitted.is_empty());
    assert_eq!(failed.ranef_levels, vec![2, 3]);
    assert_eq!(failed.df, 0);
}

#[test]
fn negative_binomial_deviance_is_minus_twice_the_likelihood() {
    let nb = Family::NegativeBinomial {
        link: NegBinomialLink::Log,
    };
    let v = glmm_result(nb, true);
    for weights in [None, Some(ws(&[1, 2, 3]))] {
        let mut opts = options();
        opts.weights = weights;
        let f = glmm_view_to_fit(&v, &response(), 3, 2, &intercepts(nb), &opts, &glmm_aside()).0;
        assert_eq!(f.deviance, w(40));
        assert_eq!(f.deviance.plus(f.loglik.times(w(2))), w(0));
    }
    assert_eq!(glmm_loglik(nb, w(4), w(1000)), w(-2));
}

#[test]
fn fallback_errors_are_those_of_the_factor() {
    let rx = {
        let mut v = glmm_result(gamma(), true);
        v.fit.hessian_fallback = false;
        glmm_view_to_fit(&v, &response(), 3, 2, &intercepts(gamma()), &options(), &glmm_aside()).0
    };
    let v = glmm_result(gamma(), true);
    let fell = glmm_view_to_fit(&v, &response(), 3, 2, &intercepts(gamma()), &options(), &glmm_aside()).0;
    assert_eq!(fell.se, rx.se);
    assert_eq!(fell.vcov, rx.vcov);
    let notes = |f: &Fit<Exact>| {
        f.diagnostics
            .notes
            .iter()
            .filter(|n| matches!(n, Note::HessianSeFallback))
            .count()
    };
    assert_eq!((notes(&fell), notes(&rx)), (1, 0));
    let mut v = glmm_result(gamma(), true);
    v.theta_se = vec![NAN, NAN];
    v.groupings.set_slope_scales(ws(&[2]), vec![ws(&[3])]);
    let f = glmm_view_to_fit(&v, &response(), 3, 2, &intercepts(gamma()), &options(), &glmm_aside()).0;
    assert_eq!(f.stddev_se, vec![NAN, NAN]);
}

#[test]
fn likelihoods_need_a_finite_deviance() {
    assert_eq!(lmm_loglik(NAN, 10, 2), NAN);
    assert_eq!(lmm_loglik(w(4), 2, 2), NAN);
    assert_eq!(glmm_loglik(gamma(), NAN, w(1)), NAN);
    assert_eq!(glmm_loglik(gamma(), w(4), w(1)), w(-2));
}

#[test]
fn parameters_are_counted_by_family() {
    let count = |f: Family, held: bool| model_df(f, 3, 2, held);
    assert_eq!(count(Family::Gaussian, false), 6);
    assert_eq!(count(Family::Gaussian, true), 6);
    assert_eq!(count(gamma(), false), 6);
    assert_eq!(count(gamma(), true), 5);
    assert_eq!(
        count(
            Family::Poisson {
                link: PoissonLink::Log
            },
            false
        ),
        5
    );
    assert_eq!(
        count(
            Family::InverseGaussian {
                link: InverseGaussianLink::Log
            },
            true
        ),
        6
    );
}

#[test]
fn pin_bits_go_to_effects() {
    // A block of two effects, a block of one, a block of three.
    let varcorr = vec![ws(&[1, 2, 3]), ws(&[1]), ws(&[1, 2, 3, 4, 5, 6])];
    assert_eq!(
        pinned_flags(0b100110, &varcorr),
        vec![vec![false, true], vec![true], vec![false, false, true]]
    );
    assert!(pinned_flags(0, &varcorr).is_empty());
    let wide = vec![ws(&[1]); 70];
    let flags = pinned_flags(1 << 63, &wide);
    assert!(flags[63][0]);
    assert!(!flags[64][0] && !flags[69][0]);
}

#[test]
fn diagnostics_are_reported() {
    let mut d: FitDiagnostics<Exact> = FitDiagnostics::fixed_only(true);
    let r = materialize_diagnostics(&d, 2, &[]);
    assert!(r.converged && !r.singular && r.notes.is_empty() && r.pinned.is_empty());
    assert_eq!(r.aliased, vec![false, false]);
    assert_eq!(r.boundary, Boundary::Interior);
    d.boundary_hit = 2;
    d.final_pirls_exhausted = true;
    d.ill_conditioned = true;
    d.pivot = w(3);
    d.pivot_col = 1;
    let r = materialize_diagnostics(&d, 2, &[]);
    assert_eq!(r.boundary, Boundary::NoOptimum);
    assert!(!r.singular);
    match &r.notes[0] {
        Note::IllConditioned { columns, pivot } => {
            assert_eq!(columns, &vec![1]);
            assert_eq!(*pivot, w(3));
        }
        other => panic!("unexpected note {other:?}"),
    }
    assert!(matches!(
        r.notes[1],
        Note::PirlsExhausted {
            evals: 0,
            final_eval: true
        }
    ));
    let flags: Diagnostics<Exact> = Diagnostics::from_flags(false, true, 1);
    assert_eq!(flags.boundary, Boundary::AtBoundary);
}

#[test]
fn starts_of_a_generalized_mixed_fit() {
    assert_eq!(glm_warm_start_beta(true, &ws(&[1, 2]), 2), ws(&[1, 2]));
    assert_eq!(glm_warm_start_beta(false, &ws(&[1, 2]), 2), ws(&[0, 0]));
    assert_eq!(glm_warm_start_beta(true, &[w(1), NAN], 2), ws(&[0, 0]));
    let full = StartValues {
        beta: ws(&[5]),
        theta: ws(&[6]),
    };
    let cold = StartValues::<Exact> {
        beta: vec![],
        theta: vec![],
    };
    assert_eq!(warm_beta(Some(&full)), Some(ws(&[5])));
    assert_eq!(warm_beta(Some(&cold)), None);
    assert_eq!(warm_theta(Some(&full)), Some(&ws(&[6])[..]));
    assert_eq!(warm_theta(Some(&cold)), None);
    assert_eq!(warm_theta::<Exact>(None), None);
    assert_eq!(
        glmm_start(Some(&full), true, &ws(&[9]), 1),
        (ws(&[5]), Some(ws(&[6])))
    );
    assert_eq!(glmm_start(Some(&cold), true, &ws(&[9]), 1), (ws(&[9]), None));
    assert_eq!(glmm_start(None, false, &ws(&[9]), 1), (ws(&[0]), None));
}

#[test]
fn seeds_of_a_generalized_mixed_fit() {
    let mut opts = options();
    opts.weights = Some(ws(&[2]));
    opts.offset = Some(ws(&[3]));
    let pre = prefit_options(&opts);
    assert!(pre.target_indices.is_empty() && pre.weights.is_none());
    assert_eq!(pre.offset, Some(ws(&[3])));
    assert_eq!(pre.wald_se, WaldSe::Hessian);
    let nb = nb_model(&intercepts(gamma()));
    assert!(matches!(nb.family, Family::NegativeBinomial { .. }));
    assert_eq!(nb.re.as_ref().unwrap().extra_groupings.len(), 1);
    assert_eq!(nb_start(nb.family, w(1), w(2)), w(2));
    assert_eq!(nb_start(gamma(), w(1), w(2)), w(1));
}

#[test]
fn degenerate_designs_are_refused() {
    assert!(refuse_degenerate::<Exact>(2, 2, 1).is_some());
    assert!(refuse_degenerate::<Exact>(5, 0, 1).is_some());
    assert!(refuse_degenerate::<Exact>(3, 2, 1).is_none());
    let opts = options();
    let f = fit_glmm_build(&ws(&[1, 2]), 2, 1, &intercepts(gamma()), &opts);
    assert!(f.is_ok());
    let mut short = options();
    short.weights = Some(vec![]);
    for opts in [&opts, &short] {
        let (f, mu, deviance) =
            fit_glmm_build(&ws(&[1]), 1, 1, &intercepts(gamma()), opts).unwrap_err();
        assert_eq!(f.tau2, vec![NAN, NAN]);
        assert!(mu.is_empty());
        assert_eq!(deviance, Exact::infinity());
    }
    assert_eq!(accumulated_rows(5, 2), 5);
    assert_eq!(accumulated_rows(5, 0), 0);
}

#[test]
fn built_workspace_holds_the_design() {
    let mut opts = options();
    opts.weights = Some(ws(&[4, 5]));
    let b = fit_glmm_build(&ws(&[7, 8]), 2, 1, &intercepts(gamma()), &opts).unwrap();
    assert_eq!(b.x_mat.get(1, 0), w(8));
    assert_eq!(b.state.prior_w, ws(&[4, 5]));
    assert!(b.state.weighted);
    assert_eq!(b.state.groupings.n_theta(), 2);
}

#[test]
fn slopes_stand_on_their_own_columns() {
    let sloped = |family: Family| ModelSpec {
        family,
        re: Some(ReStructure {
            sizing: Sizing::FixedClusters { n_clusters: 2 },
            slopes: vec![2, 1],
            extra_groupings: vec![Grouping {
                relation: GroupingRelation::Crossed { n_clusters: 3 },
                slopes: vec![],
            }],
        }),
    };
    let opts = options();
    let built = build_workspace(&sloped(Family::Gaussian), Perm::identity(), 4, 3, &opts);
    match &built.kind {
        FitKind::LmmDense { groupings, .. } => {
            assert_eq!(groupings.primary_slope_cols, vec![2, 1]);
            assert_eq!(groupings.extra_slope_cols, vec![Vec::<usize>::new()]);
            assert!(!groupings.any_slope_scaled());
        }
        _ => panic!("the dense linear mixed route"),
    }
    let mut built = build_workspace(&sloped(gamma()), Perm::identity(), 4, 3, &opts);
    built.set_slope_scales(ws(&[1, 5, 6]), vec![ws(&[1])]);
    match &built.kind {
        FitKind::GlmmDense { state, .. } => {
            assert_eq!(state.groupings.primary_slope_cols, vec![2, 1]);
            assert_eq!(state.prior_w, ws(&[1, 1, 1, 1]));
            assert_eq!(
                state.groupings.theta_row_scales(),
                ws(&[1, 5, 6, 5, 6, 6, 1])
            );
            let copy = state.groupings.clone();
            assert_eq!(copy.theta_row_scales(), state.groupings.theta_row_scales());
            assert_eq!(copy.primary_slope_cols, vec![2, 1]);
        }
        _ => panic!("the dense generalized mixed route"),
    }
    let mut model = sloped(gamma());
    model.re.as_mut().unwrap().extra_groupings[0].slopes = vec![1];
    let x = ws(&[0; 12]);
    let b = fit_glmm_build(&x, 4, 3, &model, &opts).unwrap();
    assert_eq!(b.state.groupings.primary_slope_cols, vec![2, 1]);
    assert_eq!(b.state.groupings.extra_slope_cols, vec![vec![1]]);
}

#[test]
fn a_column_in_other_units_divides_its_effect() {
    let family = Family::Poisson {
        link: PoissonLink::Log,
    };
    let model = ModelSpec {
        family,
        re: Some(ReStructure {
            sizing: Sizing::FixedClusters { n_clusters: 2 },
            slopes: vec![1],
            extra_groupings: vec![],
        }),
    };
    let report = |scale: i64| {
        let mut v = glmm_result(family, true);
        v.groupings = LmmGroupings::from_cluster_spec_ext(&model, 3, &[1], &[]);
        v.groupings.set_slope_scales(ws(&[1, scale]), vec![]);
        v.theta = ws(&[3, 8, 16]);
        v.theta_se = ws(&[5, 8, 16]);
        v.u = ws(&[1, 2, 4, 6]);
        glmm_view_to_fit(&v, &response(), 3, 2, &model, &options(), &glmm_aside()).0
    };
    let (base, scaled) = (report(2), report(8));
    assert_eq!(base.tau2, ws(&[9, 16, 64]));
    assert_eq!(scaled.tau2, ws(&[9, 1, 4]));
    assert_eq!(base.stddev_se, ws(&[5, 4, 8]));
    assert_eq!(scaled.stddev_se, ws(&[5, 1, 2]));
    assert_eq!(base.varcorr, vec![ws(&[9, 12, 80])]);
    assert_eq!(scaled.varcorr, vec![ws(&[9, 3, 5])]);
    assert_eq!(base.ranef, ws(&[3, 20, 12, 64]));
    assert_eq!(scaled.ranef, ws(&[3, 5, 12, 16]));
    assert_eq!(scaled.ranef_levels, base.ranef_levels);
}

#[test]
fn symbolic_factors_are_built_where_they_are_read() {
    let p = schur_plan(GlmmLayout::Structured, false);
    assert!(p.schur && p.observed);
    let p = schur_plan(GlmmLayout::Structured, true);
    assert!(p.schur && !p.observed);
    let p = schur_plan(GlmmLayout::Packed, false);
    assert!(!p.schur && !p.observed);
}

#[test]
fn options_are_set_for_each_draw() {
    let model = intercepts(gamma());
    let mut s: GlmmState<Exact> = GlmmState::for_cluster_spec(&model, 3, &[]);
    assert_eq!(s.prior_w, ws(&[1, 1, 1]));
    let mut opts = options();
    opts.weights = Some(ws(&[7, 8]));
    opts.offset = Some(ws(&[9]));
    opts.parallel_inner = true;
    prep_glmm_design(&mut s, 2, &opts);
    assert_eq!(s.prior_w, ws(&[7, 8, 1]));
    assert!(s.weighted && s.parallel_inner);
    assert_eq!(s.offset, Some(ws(&[9])));
    prep_glmm_design(&mut s, 2, &options());
    assert!(!s.weighted && !s.parallel_inner && s.offset.is_none());
}

fn prebuilt() -> Fit<Exact> {
    let mut f = degenerate_glmm_fit(2, 3);
    f.beta = ws(&[6, 1]);
    f.se = vec![w(2), NAN];
    f.diagnostics.singular = true;
    f.dispersion = w(8);
    f.n_eval = 4;
    f.tau2 = ws(&[1, 2, 3]);
    f.stddev_se = ws(&[4, 5, 6]);
    f.varcorr = vec![ws(&[1]), ws(&[2]), ws(&[3])];
    f.ranef_levels = vec![1, 2, 3];
    f.ranef = ws(&[10, 20, 21, 30, 31, 32]);
    f.diagnostics.pinned = vec![vec![true], vec![false], vec![false]];
    f
}

#[test]
fn groupings_are_reported_in_declaration_order() {
    let mut f = prebuilt();
    let perm = Perm { slot: 2 };
    unpermute_fit(perm, &mut f);
    assert_eq!(f.tau2, ws(&[3, 2, 1]));
    assert_eq!(f.stddev_se, ws(&[6, 5, 4]));
    assert_eq!(f.varcorr, vec![ws(&[3]), ws(&[2]), ws(&[1])]);
    assert_eq!(f.ranef_levels, vec![3, 2, 1]);
    assert_eq!(f.ranef, ws(&[30, 31, 32, 20, 21, 10]));
    assert_eq!(f.diagnostics.pinned, vec![vec![false], vec![false], vec![true]]);
    unpermute_fit(perm, &mut f);
    let g = prebuilt();
    assert_eq!(f.ranef, g.ranef);
    assert_eq!(f.tau2, g.tau2);
    assert!(Perm::identity().is_identity() && !perm.is_identity());
}

#[test]
fn assembled_reports_have_statistics() {
    let model = ModelSpec {
        family: Family::NegativeBinomial {
            link: NegBinomialLink::Log,
        },
        re: None,
    };
    let opts = options();
    let mut ws_ = build_workspace(&model, Perm::identity(), 3, 2, &opts);
    let (x, y) = (ws(&[1, 2, 3, 4, 5, 6]), ws(&[1, 2, 3]));
    let none = GroupIds::default();
    assert_eq!(check_call(&ws_, &x, &y, &none, &opts), Ok(()));
    let job = fit_on(&mut ws_, &x, &y, &none, None, &opts);
    let v = job.finish_prebuilt(prebuilt());
    assert_eq!(v.t_sq(), &[w(9), NAN]);
    assert_eq!(v.var_diag(), &[w(4), NAN]);
    assert_eq!(v.betas(), &ws(&[6, 1])[..]);
    let d = v.diagnostics();
    assert!(!d.converged);
    assert_eq!(d.boundary_hit, 1);
    assert_eq!((v.n_eval(), v.dispersion(), v.joint_t_sq()), (4, w(8), NAN));
    assert!(v.theta().is_empty());
    let f = v.into_fit(&x, &y, &none, 3, 2, &model, &opts, Assembly::Ready);
    assert_eq!(f.ranef, prebuilt().ranef);
}

#[test]
fn views_report_what_the_kernel_left() {
    let v = FitView::new(FitViewKind::Lmm(lmm_result()), Perm::identity());
    assert!(v.theta_declared.is_empty());
    assert_eq!(v.theta(), &ws(&[3, 0])[..]);
    assert_eq!(v.joint_t_sq(), w(11));
    assert_eq!(v.dispersion(), w(2));
    assert_eq!(v.t_sq(), &ws(&[0, 44])[..]);
    assert!(v.converged());
    assert_eq!(v.diagnostics().pivot_col, 1);

    let g = glmm_result(gamma(), false);
    let v = FitView::new(FitViewKind::Glmm(g), Perm::identity());
    assert_eq!((v.n_eval(), v.dispersion()), (8, w(13)));
    assert!(!v.converged());
    assert_eq!(v.diagnostics().pirls_exhausted, 3);

    let o = FitView::new(
        FitViewKind::Ols(FixedResultView {
            betas: ws(&[1, 2]),
            var_diag: ws(&[3]),
            t_sq: ws(&[4]),
            diagnostics: FitDiagnostics::fixed_only(true),
        }),
        Perm::identity(),
    );
    assert_eq!((o.n_eval(), o.dispersion()), (0, NAN));
    assert!(o.theta().is_empty() && o.converged());
    assert_eq!(o.var_diag(), &ws(&[3])[..]);
}

#[test]
fn carried_parameters_come_back_as_the_kernel_had_them() {
    let perm = Perm { slot: 1 };
    let mut r = lmm_result();
    r.theta = ws(&[6, 4]);
    r.groupings.set_slope_scales(ws(&[2]), vec![ws(&[1])]);
    let v = FitView::new(FitViewKind::Lmm(r), perm);
    assert_eq!(v.theta(), &ws(&[4, 3])[..]);
    assert_eq!(
        v.theta().len(),
        theta_width(intercepts(Family::Gaussian).re.as_ref())
    );
    let start = StartValues {
        beta: vec![],
        theta: v.theta().to_vec(),
    };
    let model = intercepts(Family::Gaussian);
    let opts = options();
    let mut workspace = build_workspace(&model, perm, 3, 2, &opts);
    let (x, y) = (ws(&[1, 2, 3, 4, 5, 6]), ws(&[1, 2, 3]));
    let job = fit_on(&mut workspace, &x, &y, &ids(), Some(&start), &opts);
    assert_eq!(job.start.unwrap().theta, ws(&[3, 4]));
    let f = v.into_fit(&x, &y, &ids(), 3, 2, &model, &opts, Assembly::Lmm(lmm_aside()));
    assert_eq!(f.tau2, ws(&[32, 18]));
    assert_eq!(f.diagnostics.pinned, vec![vec![true], vec![false]]);
}

#[test]
fn draws_do_not_see_earlier_draws() {
    let model = intercepts(Family::Gaussian);
    let mut opts = options();
    opts.offset = Some(ws(&[1, 1, 1, 1]));
    let mut workspace = build_workspace(&model, Perm::identity(), 4, 1, &opts);
    let long = GroupIds {
        primary: vec![0, 1, 0, 1],
        extra: vec![vec![0; 4]],
    };
    fit_on(
        &mut workspace,
        &ws(&[5, 6, 7, 8]),
        &ws(&[9, 9, 9, 9]),
        &long,
        None,
        &opts,
    );
    let short = GroupIds {
        primary: vec![0, 1],
        extra: vec![vec![0; 2]],
    };
    opts.offset = Some(ws(&[10, 20]));
    let job = fit_on(&mut workspace, &ws(&[1, 2]), &ws(&[3, 4]), &short, None, &opts);
    assert_eq!(job.route, Route::LmmDense);
    assert_eq!(job.y, ws(&[-7, -16]));
    let mut fresh = build_workspace(&model, Perm::identity(), 4, 1, &opts);
    let again = fit_on(&mut fresh, &ws(&[1, 2]), &ws(&[3, 4]), &short, None, &opts);
    assert_eq!((again.route, again.n, again.p), (job.route, job.n, job.p));
    assert_eq!(again.y, job.y);
    match &workspace.kind {
        FitKind::LmmDense { x_mat, .. } => {
            assert_eq!((x_mat.get(0, 0), x_mat.get(1, 0)), (w(1), w(2)));
            assert_eq!((x_mat.get(2, 0), x_mat.get(3, 0)), (w(7), w(8)));
        }
        _ => panic!("the dense linear mixed route"),
    }
}

#[test]
fn scaled_draws_do_not_see_earlier_draws() {
    let model = intercepts(gamma());
    let mut first = options();
    first.weights = Some(ws(&[5, 6, 7, 8]));
    first.offset = Some(ws(&[1, 1, 1, 1]));
    let mut second = options();
    second.weights = Some(ws(&[2, 3]));
    second.offset = Some(ws(&[10, 20]));
    let long = GroupIds {
        primary: vec![0, 1, 0, 1],
        extra: vec![vec![0; 4]],
    };
    let short = GroupIds {
        primary: vec![0, 1],
        extra: vec![vec![0; 2]],
    };
    let mut used = build_workspace(&model, Perm::identity(), 4, 1, &first);
    fit_on(&mut used, &ws(&[5, 6, 7, 8]), &ws(&[9, 9, 9, 9]), &long, None, &first);
    used.set_slope_scales(ws(&[4]), vec![ws(&[9])]);
    fit_on(&mut used, &ws(&[1, 2]), &ws(&[3, 4]), &short, None, &second);
    used.set_slope_scales(ws(&[2]), vec![ws(&[3])]);
    let mut fresh = build_workspace(&model, Perm::identity(), 4, 1, &second);
    fit_on(&mut fresh, &ws(&[1, 2]), &ws(&[3, 4]), &short, None, &second);
    fresh.set_slope_scales(ws(&[2]), vec![ws(&[3])]);
    for (workspace, past) in [(&used, ws(&[7, 8])), (&fresh, ws(&[1, 1]))] {
        match &workspace.kind {
            FitKind::GlmmDense { state, x_mat } => {
                assert_eq!((x_mat.get(0, 0), x_mat.get(1, 0)), (w(1), w(2)));
                assert_eq!(state.prior_w[..2], ws(&[2, 3])[..]);
                assert_eq!(state.prior_w[2..], past[..]);
                assert!(state.weighted && !state.parallel_inner);
                assert_eq!(state.offset, Some(ws(&[10, 20])));
                let g = &state.groupings;
                assert_eq!(g.primary_scales, ws(&[2]));
                assert_eq!(g.extra_scales, vec![ws(&[3])]);
                assert_eq!((g.primary_q, g.extra_q.clone()), (1, vec![1]));
                assert_eq!((g.k_total, g.extra_slopes_any), (5, false));
            }
            _ => panic!("the dense generalized mixed route"),
        }
    }
}

#[test]
fn scales_leave_the_shifted_response_alone() {
    let model = intercepts(Family::Gaussian);
    let mut opts = options();
    opts.offset = Some(ws(&[10, 20]));
    let two = GroupIds {
        primary: vec![0, 1],
        extra: vec![vec![0; 2]],
    };
    let mut workspace = build_workspace(&model, Perm::identity(), 3, 1, &opts);
    fit_on(&mut workspace, &ws(&[1, 2]), &ws(&[3, 4]), &two, None, &opts);
    workspace.set_slope_scales(ws(&[2]), vec![ws(&[3])]);
    match &workspace.kind {
        FitKind::LmmDense { y_shifted, x_mat, .. } => {
            assert_eq!(*y_shifted, ws(&[-7, -16, 0]));
            assert_eq!((x_mat.get(0, 0), x_mat.get(1, 0)), (w(1), w(2)));
        }
        _ => panic!("the dense linear mixed route"),
    }
}

#[test]
fn degenerate_generalized_draws_are_not_run() {
    let model = intercepts(gamma());
    let opts = options();
    let mut workspace = build_workspace(&model, Perm::identity(), 4, 2, &opts);
    let two = GroupIds {
        primary: vec![0, 1],
        extra: vec![vec![0; 2]],
    };
    let job = fit_on(&mut workspace, &ws(&[1, 2, 3, 4]), &ws(&[1, 2]), &two, None, &opts);
    let f = job.refused.as_ref().unwrap();
    assert_eq!(f.beta, vec![NAN, NAN]);
    assert_eq!(f.tau2, vec![NAN, NAN]);
    let three = GroupIds {
        primary: vec![0, 1, 1],
        extra: vec![vec![0; 3]],
    };
    let x = ws(&[1, 2, 3, 4, 5, 6]);
    let job = fit_on(&mut workspace, &x, &ws(&[1, 2, 3]), &three, None, &opts);
    assert!(job.refused.is_none());
    // The linear mixed kernel refuses such a draw itself.
    let model = intercepts(Family::Gaussian);
    let mut workspace = build_workspace(&model, Perm::identity(), 4, 2, &opts);
    let job = fit_on(&mut workspace, &ws(&[1, 2, 3, 4]), &ws(&[1, 2]), &two, None, &opts);
    assert!(job.refused.is_none());
}

#[test]
fn exact_numbers_are_exact_or_undefined() {
    assert_eq!(w(i64::MAX).plus(w(1)), NAN);
    assert_eq!(w(7).over(w(2)), NAN);
    assert_eq!(w(-6).over(w(2)), w(-3));
    assert_eq!(w(6).over(w(0)), NAN);
    assert_eq!(w(49).sqrt(), w(7));
    assert_eq!(w(50).sqrt(), NAN);
    assert_eq!(w(-4).sqrt(), NAN);
    assert_eq!(w(-8).neg_half(), w(4));
    assert_eq!(w(3).neg_half(), NAN);
    assert_eq!(w(3).max_with(NAN), w(3));
    assert_eq!(w(3).clamp_to(w(5), w(9)), w(5));
    assert!(w(0).is_zero() && w(1).is_one() && w(0).is_nonneg() && !NAN.is_nonneg());
    assert_eq!(Exact::from_count(12), w(12));
    assert_eq!(w(i64::MAX).times(w(2)), NAN);
    assert_eq!(w(2).minus(w(5)), w(-3));
}
