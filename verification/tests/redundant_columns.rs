//! Fitting without redundant columns, and reporting over all of them.
use glmm::diagnostics::{Boundary, Diagnostics, Note};
use glmm::exact::Exact;
use glmm::fit::{degenerate_glmm_fit, unfittable_random_slope_fit, Fit};
use glmm::model::{
    BinomialLink, Family, Grouping, GroupingRelation, ModelSpec, ReStructure, Sizing,
};
use glmm::options::{FitOptions, StartValues};
use glmm::rank::{reduce_design, remap_spec_slopes, scatter_fit, Reduction};

const NAN: Exact = Exact::Undefined;

fn w(v: i64) -> Exact {
    Exact::Whole(v)
}

fn ws(v: &[i64]) -> Vec<Exact> {
    v.iter().map(|&v| w(v)).collect()
}

fn model(family: Family, slopes: Vec<u32>, extra_slopes: Vec<u32>) -> ModelSpec {
    ModelSpec {
        family,
        re: Some(ReStructure {
            sizing: Sizing::FixedClusters { n_clusters: 2 },
            slopes,
            extra_groupings: vec![Grouping {
                relation: GroupingRelation::Crossed { n_clusters: 3 },
                slopes: extra_slopes,
            }],
        }),
    }
}

fn options() -> FitOptions<Exact> {
    FitOptions {
        target_indices: vec![2, 0, 3],
        weights: Some(ws(&[1, 2])),
        offset: Some(ws(&[5, 6])),
        nagq: 1,
        parallel_inner: true,
        dispersion: Some(w(3)),
        ..FitOptions::default()
    }
}

#[test]
fn redundant_columns_leave_the_problem() {
    // Columns 0 and 2 of four are redundant.
    let aliased = [true, false, true, false];
    let x = ws(&[10, 11, 12, 13, 20, 21, 22, 23]);
    let start = StartValues {
        beta: ws(&[1, 2, 3, 4]),
        theta: ws(&[7]),
    };
    let m = model(Family::Gaussian, vec![3], vec![1, 3]);
    let opts = options();
    let r = match reduce_design(&x, 2, 4, &m, Some(&start), &opts, &aliased) {
        Reduction::Reduced(r) => r,
        Reduction::Unfittable(_) => panic!("the slopes stand on kept columns"),
    };
    assert_eq!(r.kept, vec![1, 3]);
    assert_eq!(r.p, 2);
    assert!(r.p < 4);
    assert_eq!(r.x, ws(&[11, 13, 21, 23]));
    let re = r.model.re.as_ref().unwrap();
    assert_eq!(re.slopes, vec![1]);
    assert_eq!(re.extra_groupings[0].slopes, vec![0, 1]);
    assert_eq!(
        re.extra_groupings[0].relation,
        GroupingRelation::Crossed { n_clusters: 3 }
    );
    let s = r.start.unwrap();
    assert_eq!(s.beta, ws(&[2, 4]));
    assert_eq!(s.theta, ws(&[7]));
    assert_eq!(r.opts.target_indices, vec![1]);
    assert_eq!(r.opts.weights, opts.weights);
    assert_eq!(r.opts.offset, opts.offset);
    assert_eq!(r.opts.dispersion, Some(w(3)));
    assert!(r.opts.parallel_inner);
}

#[test]
fn a_cold_start_stays_cold() {
    let start = StartValues {
        beta: vec![],
        theta: ws(&[7]),
    };
    let m = model(Family::Gaussian, vec![], vec![]);
    let opts = FitOptions::default();
    match reduce_design(&ws(&[1, 2]), 1, 2, &m, Some(&start), &opts, &[false, true]) {
        Reduction::Reduced(r) => {
            assert!(r.start.unwrap().beta.is_empty());
        }
        Reduction::Unfittable(_) => panic!("there is no slope"),
    }
    match reduce_design(&ws(&[1, 2]), 1, 2, &m, None, &opts, &[true, true]) {
        Reduction::Reduced(r) => {
            assert!(r.start.is_none());
            assert_eq!(r.p, 0);
            assert!(r.x.is_empty());
        }
        Reduction::Unfittable(_) => panic!("there is no slope"),
    }
}

#[test]
fn a_slope_on_a_redundant_column_is_unfittable() {
    let aliased = [false, false, true];
    let x = ws(&[1, 2, 3]);
    let opts = FitOptions::default();
    for m in [
        model(Family::Gaussian, vec![2], vec![]),
        model(Family::Gaussian, vec![0], vec![1, 2]),
    ] {
        match reduce_design(&x, 1, 3, &m, None, &opts, &aliased) {
            Reduction::Unfittable(f) => {
                assert!(!f.converged());
                assert!(!f.singular());
                assert_eq!(f.aliased(), &vec![false, false, true]);
                assert_eq!(f.beta, vec![NAN; 3]);
                assert_eq!(f.df, 0);
                assert!(f.reml);
            }
            Reduction::Reduced(_) => panic!("a slope was dropped"),
        }
    }
}

#[test]
fn unfittable_fit_keeps_the_parameter_width() {
    let m = model(
        Family::Binomial {
            link: BinomialLink::Logit,
        },
        vec![1],
        vec![],
    );
    let f: Fit<Exact> = unfittable_random_slope_fit(2, &m, &[false, true]);
    assert_eq!(f.tau2, vec![NAN; 4]);
    assert!(f.varcorr.is_empty() && f.fitted.is_empty() && f.ranef.is_empty());
    assert!(!f.reml);
    assert_eq!(f.vcov, vec![vec![NAN; 2]; 2]);
    assert_eq!(f.n_eval, 0);
    let g: Fit<Exact> = degenerate_glmm_fit(2, 4);
    assert_eq!(g.tau2, vec![NAN; 4]);
    assert_eq!(g.aliased(), &vec![false, false]);
}

#[test]
fn slopes_move_or_fail() {
    let m = model(Family::Gaussian, vec![0, 2], vec![2]);
    let out = remap_spec_slopes(&m, &[0, usize::MAX, 1]).unwrap();
    assert_eq!(out.re.as_ref().unwrap().slopes, vec![0, 1]);
    assert_eq!(out.re.as_ref().unwrap().extra_groupings[0].slopes, vec![1]);
    assert!(remap_spec_slopes(&m, &[0, 1, usize::MAX]).is_none());
    let same = remap_spec_slopes(&m, &[0, 1, 2]).unwrap();
    assert_eq!(same.re.as_ref().unwrap().slopes, vec![0, 2]);
    let fixed = ModelSpec {
        family: Family::Gaussian,
        re: None,
    };
    assert!(remap_spec_slopes(&fixed, &[usize::MAX]).unwrap().re.is_none());
}

fn reduced_fit() -> Fit<Exact> {
    let mut diagnostics = Diagnostics::from_flags(true, true, 2);
    diagnostics.aliased = vec![false, true];
    diagnostics.notes = vec![
        Note::IllConditioned {
            columns: vec![1, 0],
            pivot: w(9),
        },
        Note::PirlsExhausted {
            evals: 2,
            final_eval: false,
        },
        Note::HessianSeFallback,
        Note::UnusedGroupingLevels { grouping: 1 },
    ];
    Fit {
        beta: vec![w(5), NAN],
        se: vec![w(6), NAN],
        vcov: vec![ws(&[36, 1]), ws(&[1, 49])],
        tau2: ws(&[8]),
        dispersion: w(4),
        diagnostics,
        varcorr: vec![ws(&[8])],
        stddev_se: ws(&[1]),
        n_eval: 17,
        deviance: w(100),
        loglik: w(-50),
        df: 3,
        reml: true,
        fitted: ws(&[1, 2]),
        ranef: ws(&[3]),
        ranef_levels: vec![1],
    }
}

#[test]
fn reduced_fit_is_reported_over_all_columns() {
    let aliased = [true, false, true, false];
    let f = scatter_fit(4, &aliased, &vec![1, 3], reduced_fit());
    assert_eq!(f.beta, vec![NAN, w(5), NAN, NAN]);
    assert_eq!(f.se, vec![NAN, w(6), NAN, NAN]);
    assert_eq!(f.aliased(), &vec![true, false, true, true]);
    for j in 0..4 {
        assert_eq!(f.aliased()[j], f.beta[j] == NAN && f.se[j] == NAN);
        for k in [0, 2] {
            assert_eq!(f.vcov[j][k], NAN);
            assert_eq!(f.vcov[k][j], NAN);
        }
    }
    assert_eq!(f.vcov[1][1], w(36));
    assert_eq!(f.vcov[1][3], w(1));
    assert_eq!(f.vcov[3][3], w(49));
    match &f.diagnostics.notes[0] {
        Note::IllConditioned { columns, pivot } => {
            assert_eq!(columns, &vec![3, 1]);
            assert_eq!(*pivot, w(9));
        }
        other => panic!("unexpected note {other:?}"),
    }
    assert!(matches!(
        f.diagnostics.notes[1],
        Note::PirlsExhausted {
            evals: 2,
            final_eval: false
        }
    ));
    assert!(matches!(f.diagnostics.notes[2], Note::HessianSeFallback));
    assert!(matches!(
        f.diagnostics.notes[3],
        Note::UnusedGroupingLevels { grouping: 1 }
    ));
    assert!(f.converged() && f.singular());
    assert_eq!(f.diagnostics.boundary, Boundary::AtBoundary);
    assert_eq!(f.df, 3);
    assert_eq!(f.n_eval, 17);
    assert_eq!(f.loglik, w(-50));
    assert_eq!(f.fitted, ws(&[1, 2]));
}
