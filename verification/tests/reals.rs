//! The library on machine floats.
use glmm::diagnostics::Diagnostics;
use glmm::draw::{check_call, fit_on, CallError};
use glmm::fit::{lmm_loglik, Fit};
use glmm::groupings::LmmGroupings;
use glmm::inference::vcov_from_chol;
use glmm::lmm::{lmm_view_to_fit, LmmAside, LmmFit, LmmResultView};
use glmm::matrix::ColMajor;
use glmm::model::{
    BinomialLink, Family, GroupIds, Grouping, GroupingRelation, ModelSpec, NegBinomialLink,
    PoissonLink, ReStructure, Sizing,
};
use glmm::moments::nb_theta_moment_seed;
use glmm::options::FitOptions;
use glmm::perm::Perm;
use glmm::scalar::Scalar;
use glmm::shape::{assert_model_shape, ShapeError};
use glmm::sizing::spec_sized_from_ids_pub;
use glmm::varcorr::{assemble_varcorr, varcorr_block};
use glmm::workspace::build_workspace;

#[derive(Clone, Copy, Debug, PartialEq)]
struct Real(f64);

impl Scalar for Real {
    fn zero_of() -> Self {
        Self::zero()
    }
    fn one_of() -> Self {
        Self::one()
    }
    fn nan_of() -> Self {
        Self::nan()
    }
    fn infinity_of() -> Self {
        Self::infinity()
    }
    fn one_plus_ln_two_pi_of() -> Self {
        Self::one_plus_ln_two_pi()
    }
    fn count_of(n: usize) -> Self {
        Self::from_count(n)
    }
    fn sum_with(self, rhs: Self) -> Self {
        self.plus(rhs)
    }
    fn less(self, rhs: Self) -> Self {
        self.minus(rhs)
    }
    fn product(self, rhs: Self) -> Self {
        self.times(rhs)
    }
    fn quotient(self, rhs: Self) -> Self {
        self.over(rhs)
    }
    fn root(self) -> Self {
        self.sqrt()
    }
    fn logarithm(self) -> Self {
        self.ln()
    }
    fn minus_half(self) -> Self {
        self.neg_half()
    }
    fn larger(self, rhs: Self) -> Self {
        self.max_with(rhs)
    }
    fn clamped(self, lo: Self, hi: Self) -> Self {
        self.clamp_to(lo, hi)
    }
    fn finite(self) -> bool {
        self.is_finite()
    }
    fn nonneg(self) -> bool {
        self.is_nonneg()
    }
    fn nought(self) -> bool {
        self.is_zero()
    }
    fn unit(self) -> bool {
        self.is_one()
    }
    fn zero() -> Self {
        Real(0.0)
    }
    fn one() -> Self {
        Real(1.0)
    }
    fn nan() -> Self {
        Real(f64::NAN)
    }
    fn infinity() -> Self {
        Real(f64::INFINITY)
    }
    fn one_plus_ln_two_pi() -> Self {
        Real(1.0 + (2.0 * std::f64::consts::PI).ln())
    }
    fn from_count(n: usize) -> Self {
        Real(n as f64)
    }
    fn plus(self, rhs: Self) -> Self {
        Real(self.0 + rhs.0)
    }
    fn minus(self, rhs: Self) -> Self {
        Real(self.0 - rhs.0)
    }
    fn times(self, rhs: Self) -> Self {
        Real(self.0 * rhs.0)
    }
    fn over(self, rhs: Self) -> Self {
        Real(self.0 / rhs.0)
    }
    fn sqrt(self) -> Self {
        Real(self.0.sqrt())
    }
    fn ln(self) -> Self {
        Real(self.0.ln())
    }
    fn neg_half(self) -> Self {
        Real(-0.5 * self.0)
    }
    fn max_with(self, rhs: Self) -> Self {
        Real(self.0.max(rhs.0))
    }
    fn clamp_to(self, lo: Self, hi: Self) -> Self {
        if self.0 < lo.0 {
            lo
        } else if self.0 > hi.0 {
            hi
        } else {
            self
        }
    }
    fn is_finite(self) -> bool {
        self.0.is_finite()
    }
    fn is_nonneg(self) -> bool {
        self.0 >= 0.0
    }
    fn is_zero(self) -> bool {
        self.0 == 0.0
    }
    fn is_one(self) -> bool {
        self.0 == 1.0
    }
}

const NB_THETA_LO: f64 = 1e-3;
const NB_THETA_HI: f64 = 1e4;

fn seed(y: &[f64]) -> f64 {
    let y: Vec<Real> = y.iter().map(|&v| Real(v)).collect();
    nb_theta_moment_seed(&y, y.len(), Real(1e-6), Real(NB_THETA_LO), Real(NB_THETA_HI)).0
}

#[test]
fn nb_theta_moment_seed_is_the_glm_seed() {
    let y = [0.0, 4.0, 1.0, 7.0, 2.0, 0.0, 3.0, 9.0];
    let ybar = y.iter().sum::<f64>() / 8.0;
    let var = y.iter().map(|v| (v - ybar).powi(2)).sum::<f64>() / 7.0;
    let expect = (ybar * ybar / (var - ybar).max(1e-6)).clamp(NB_THETA_LO, NB_THETA_HI);
    assert_eq!(seed(&y), expect);
    let flat = [2.0; 8];
    assert_eq!(seed(&flat), NB_THETA_HI);
}

fn reals(v: &[f64]) -> Vec<Real> {
    v.iter().map(|&v| Real(v)).collect()
}

#[test]
fn varcorr_block_is_scaled_lambda_gram() {
    let one = reals(&[1.0, 1.0]);
    let theta = reals(&[2.0, 0.5, 1.0]);
    let vech = varcorr_block(&theta, 2, Real(1.0), &one);
    assert_eq!(vech.len(), 3);
    assert!((vech[0].0 - 4.0).abs() < 1e-12);
    assert!((vech[1].0 - 1.0).abs() < 1e-12);
    assert!((vech[2].0 - 1.25).abs() < 1e-12);
    let scaled = varcorr_block(&theta, 2, Real(3.0), &one);
    assert!((scaled[0].0 - 12.0).abs() < 1e-12);
    assert!((scaled[2].0 - 3.75).abs() < 1e-12);
}

fn fit_with_varcorr(vech: &[f64]) -> Fit<Real> {
    Fit {
        beta: vec![],
        se: vec![],
        vcov: vec![],
        tau2: vec![],
        dispersion: Real(1.0),
        diagnostics: Diagnostics::from_flags(true, false, 0),
        varcorr: vec![reals(vech)],
        stddev_se: vec![],
        n_eval: 0,
        deviance: Real::nan(),
        loglik: Real::nan(),
        df: 0,
        reml: false,
        fitted: vec![],
        ranef: vec![],
        ranef_levels: vec![],
    }
}

#[test]
fn stddev_corr_q1_trivial() {
    let f = fit_with_varcorr(&[9.0]);
    let (sd, corr) = f.stddev_corr(0);
    assert_eq!(sd, reals(&[3.0]));
    assert_eq!(corr, vec![reals(&[1.0])]);
}

#[test]
fn stddev_corr_q2_hand_math() {
    let f = fit_with_varcorr(&[4.0, 1.0, 1.25]);
    let (sd, corr) = f.stddev_corr(0);
    let sd1 = 1.25_f64.sqrt();
    assert!((sd[0].0 - 2.0).abs() < 1e-12);
    assert!((sd[1].0 - sd1).abs() < 1e-12);
    assert_eq!(corr[0][0].0, 1.0);
    assert_eq!(corr[1][1].0, 1.0);
    let rho = 1.0 / (2.0 * sd1);
    assert!((corr[0][1].0 - rho).abs() < 1e-12);
    assert!((corr[1][0].0 - rho).abs() < 1e-12);
}

#[test]
fn stddev_corr_q3_hand_math() {
    let f = fit_with_varcorr(&[4.0, 1.0, 2.0, 9.0, 3.0, 16.0]);
    let (sd, corr) = f.stddev_corr(0);
    assert_eq!(sd, reals(&[2.0, 3.0, 4.0]));
    for i in 0..3 {
        assert_eq!(corr[i][i].0, 1.0);
    }
    assert!((corr[0][1].0 - 1.0 / 6.0).abs() < 1e-12);
    assert!((corr[1][0].0 - 1.0 / 6.0).abs() < 1e-12);
    assert!((corr[0][2].0 - 0.25).abs() < 1e-12);
    assert!((corr[2][0].0 - 0.25).abs() < 1e-12);
    assert!((corr[1][2].0 - 0.25).abs() < 1e-12);
    assert!((corr[2][1].0 - 0.25).abs() < 1e-12);
}

#[test]
fn assemble_varcorr_one_block_per_grouping() {
    let g: LmmGroupings<Real> = LmmGroupings::from_cluster_spec_ext(
        &ModelSpec {
            family: Family::Gaussian,
            re: Some(ReStructure {
                sizing: Sizing::FixedClusters { n_clusters: 4 },
                slopes: vec![1],
                extra_groupings: vec![Grouping {
                    relation: GroupingRelation::Crossed { n_clusters: 3 },
                    slopes: vec![],
                }],
            }),
        },
        16,
        &[1],
        &[],
    );
    let theta = reals(&[2.0, 0.5, 1.0, 0.7]);
    let vc = assemble_varcorr(&theta, &g, Real(1.0));
    assert_eq!(vc.len(), 2);
    assert_eq!(vc[0], reals(&[4.0, 1.0, 1.25]));
    assert!((vc[1][0].0 - 0.49).abs() < 1e-12);
}

#[test]
fn restricted_criterion_on_the_likelihood_scale() {
    let want = -0.5 * (40.0 + 8.0 * (1.0 + (2.0 * std::f64::consts::PI).ln()));
    assert_eq!(lmm_loglik(Real(40.0), 10, 2).0, want);
    assert!(lmm_loglik(Real(f64::INFINITY), 10, 2).0.is_nan());
}

#[test]
fn weights_move_the_linear_mixed_deviance() {
    let model = ModelSpec {
        family: Family::Gaussian,
        re: Some(ReStructure {
            sizing: Sizing::FixedClusters { n_clusters: 1 },
            slopes: vec![],
            extra_groupings: vec![],
        }),
    };
    let v = LmmResultView {
        fit: LmmFit {
            converged: true,
            sigma_sq: Real(1.0),
            deviance: Real(40.0),
            joint_t_sq: Real(0.0),
            boundary_hit: 0,
            pinned_components: 0,
            n_eval: 1,
            pivot: Real(1.0),
            pivot_col: 0,
            ill_conditioned: false,
        },
        betas: reals(&[2.0]),
        var_diag: reals(&[1.0]),
        t_sq: reals(&[4.0]),
        factor: ColMajor::new(1, 1, Real(1.0)),
        theta: reals(&[0.5]),
        groupings: LmmGroupings::from_cluster_spec_ext(&model, 3, &[], &[]),
        n_rows: 3,
        modes: reals(&[0.25]),
    };
    let ids = GroupIds {
        primary: vec![0; 3],
        extra: vec![],
    };
    let x = reals(&[1.0; 3]);
    let w = [0.5, 2.0, 3.0];
    let mut opts = targets(vec![0]);
    opts.weights = Some(reals(&w));
    let aside = LmmAside { negligible: false };
    let f = lmm_view_to_fit(&v, &x, &ids, 3, 1, &opts, &aside);
    let want = 40.0 - w.iter().map(|v: &f64| v.ln()).sum::<f64>();
    assert!((f.deviance.0 - want).abs() < 1e-12);
    assert_eq!(f.loglik, lmm_loglik(f.deviance, 3, 1));
    assert_eq!(f.fitted, reals(&[2.125; 3]));
}

#[test]
fn covariance_from_a_factor() {
    // A = L L' for L = [[2, 0], [1, 3]]: [[4, 2], [2, 10]], with determinant 36.
    let mut l = ColMajor::new(2, 2, Real(0.0));
    l.set(0, 0, Real(2.0));
    l.set(1, 0, Real(1.0));
    l.set(1, 1, Real(3.0));
    let vcov = vcov_from_chol(&l, 2, &[0, 1], Real(36.0));
    let want = [[10.0, -2.0], [-2.0, 4.0]];
    for i in 0..2 {
        for j in 0..2 {
            assert!((vcov[i][j].0 - want[i][j]).abs() < 1e-12);
        }
    }
}

/// A deterministic sequence in (-1, 1).
fn lcg(state: &mut u64) -> f64 {
    *state = state
        .wrapping_mul(6364136223846793005)
        .wrapping_add(1442695040888963407);
    (((*state >> 11) as f64) / ((1u64 << 53) as f64)) * 2.0 - 1.0
}

struct Case {
    x: Vec<Real>,
    y: Vec<Real>,
    n: usize,
    p: usize,
    model: ModelSpec,
    ids: GroupIds,
    opts: FitOptions<Real>,
}

fn targets(target_indices: Vec<u32>) -> FitOptions<Real> {
    FitOptions {
        target_indices,
        ..FitOptions::default()
    }
}

fn ols_case() -> Case {
    let (n, p) = (30, 3);
    let (mut x, mut y) = (vec![], vec![]);
    for i in 0..n {
        let a = i as f64;
        let b = ((i * 5) % 7) as f64 - 3.0;
        x.extend_from_slice(&reals(&[1.0, a, b]));
        y.push(Real(0.7 + 1.1 * a - 0.5 * b + ((i % 3) as f64 - 1.0)));
    }
    Case {
        x,
        y,
        n,
        p,
        model: ModelSpec {
            family: Family::Gaussian,
            re: None,
        },
        ids: GroupIds::default(),
        opts: targets(vec![1, 2]),
    }
}

fn lmm_intercept_case() -> Case {
    let (n_clusters, per, p) = (6usize, 8usize, 2usize);
    let n = n_clusters * per;
    let mut st = 13u64;
    let mut x = vec![Real(0.0); n * p];
    let mut y = vec![Real(0.0); n];
    let mut ids = vec![0u32; n];
    for i in 0..n {
        ids[i] = (i % n_clusters) as u32;
        st = st
            .wrapping_mul(6364136223846793005)
            .wrapping_add(1442695040888963407);
        let x1 = ((st >> 33) as f64 / (1u64 << 31) as f64) - 1.0;
        x[i * 2] = Real(1.0);
        x[i * 2 + 1] = Real(x1);
        let re = 0.3 * ((ids[i] as f64) - (n_clusters as f64) / 2.0);
        y[i] = Real(0.5 + 0.4 * x1 + re + 0.1 * ((i % 5) as f64 - 2.0));
    }
    Case {
        x,
        y,
        n,
        p,
        model: ModelSpec {
            family: Family::Gaussian,
            re: Some(ReStructure {
                sizing: Sizing::FixedClusters { n_clusters: 1 },
                slopes: vec![],
                extra_groupings: vec![],
            }),
        },
        ids: GroupIds {
            primary: ids,
            extra: vec![],
        },
        opts: targets(vec![0, 1]),
    }
}

fn crossed_extra_case(extra_slopes: Vec<u32>) -> Case {
    let (g1, g2, n, p) = (8usize, 5usize, 80usize, 2usize);
    let mut st = 99u64;
    let u1: Vec<f64> = (0..g1).map(|_| 0.5 * lcg(&mut st)).collect();
    let s2: Vec<f64> = (0..g2).map(|_| 0.4 * lcg(&mut st)).collect();
    let mut x = vec![Real(0.0); n * p];
    let mut y = vec![Real(0.0); n];
    let mut pid = vec![0u32; n];
    let mut eid = vec![0u32; n];
    for i in 0..n {
        let c1 = i % g1;
        let c2 = i % g2;
        pid[i] = c1 as u32;
        eid[i] = c2 as u32;
        let x1 = lcg(&mut st);
        x[i * 2] = Real(1.0);
        x[i * 2 + 1] = Real(x1);
        y[i] = Real(0.5 + 0.7 * x1 + u1[c1] + s2[c2] * x1 + 0.2 * lcg(&mut st));
    }
    Case {
        x,
        y,
        n,
        p,
        model: ModelSpec {
            family: Family::Gaussian,
            re: Some(ReStructure {
                sizing: Sizing::FixedClusters { n_clusters: 1 },
                slopes: vec![],
                extra_groupings: vec![Grouping {
                    relation: GroupingRelation::Crossed { n_clusters: 1 },
                    slopes: extra_slopes,
                }],
            }),
        },
        ids: GroupIds {
            primary: pid,
            extra: vec![eid],
        },
        opts: targets(vec![0, 1]),
    }
}

fn crossed_extra_glmm_case() -> Case {
    let (g1, g2, n, p) = (6usize, 4usize, 96usize, 2usize);
    let mut x = vec![Real(0.0); n * p];
    let mut y = vec![Real(0.0); n];
    let mut pid = vec![0u32; n];
    let mut eid = vec![0u32; n];
    for i in 0..n {
        let c1 = i % g1;
        let c2 = (i / g1) % g2;
        pid[i] = c1 as u32;
        eid[i] = c2 as u32;
        let x1 = ((i % 8) as f64) / 8.0 - 0.5;
        x[i * 2] = Real(1.0);
        x[i * 2 + 1] = Real(x1);
        let eta = -0.1 + 0.8 * x1 + 0.3 * (c1 as f64 - 2.5) + 0.25 * (c2 as f64 - 1.5);
        y[i] = if (eta + ((i * 7 % 11) as f64 - 5.0) * 0.15) > 0.0 {
            Real(1.0)
        } else {
            Real(0.0)
        };
    }
    Case {
        x,
        y,
        n,
        p,
        model: ModelSpec {
            family: Family::Binomial {
                link: BinomialLink::Logit,
            },
            re: Some(ReStructure {
                sizing: Sizing::FixedClusters { n_clusters: 1 },
                slopes: vec![],
                extra_groupings: vec![Grouping {
                    relation: GroupingRelation::Crossed { n_clusters: 1 },
                    slopes: vec![],
                }],
            }),
        },
        ids: GroupIds {
            primary: pid,
            extra: vec![eid],
        },
        opts: targets(vec![1]),
    }
}

fn nested_unbalanced_case() -> Case {
    let children_per_parent = [3usize, 2, 2, 2];
    let (rows_per_child, p) = (4usize, 2usize);
    let mut st = 7u64;
    let (mut x, mut y) = (vec![], vec![]);
    let (mut pid, mut eid) = (vec![], vec![]);
    for (parent, &kids) in children_per_parent.iter().enumerate() {
        let u_p = 0.5 * lcg(&mut st);
        for child in 0..kids {
            let u_c = 0.3 * lcg(&mut st);
            for _ in 0..rows_per_child {
                let x1 = lcg(&mut st);
                x.extend_from_slice(&reals(&[1.0, x1]));
                y.push(Real(0.4 + 0.6 * x1 + u_p + u_c + 0.2 * lcg(&mut st)));
                pid.push(parent as u32);
                eid.push((3 * parent + child) as u32);
            }
        }
    }
    let n = y.len();
    Case {
        x,
        y,
        n,
        p,
        model: ModelSpec {
            family: Family::Gaussian,
            re: Some(ReStructure {
                sizing: Sizing::FixedClusters { n_clusters: 1 },
                slopes: vec![],
                extra_groupings: vec![Grouping {
                    relation: GroupingRelation::NestedWithin { n_per_parent: 1 },
                    slopes: vec![],
                }],
            }),
        },
        ids: GroupIds {
            primary: pid,
            extra: vec![eid],
        },
        opts: targets(vec![0, 1]),
    }
}

#[test]
fn build_workspace_routes_fixed_only_to_ols_and_mixed_to_lmm() {
    let opts: FitOptions<Real> = FitOptions::default();
    let fixed = ModelSpec {
        family: Family::Gaussian,
        re: None,
    };
    let ws_fixed = build_workspace(&fixed, Perm::identity(), 100, 3, &opts);
    assert!(ws_fixed.is_ols());

    let c = lmm_intercept_case();
    let (sized, _, perm) = spec_sized_from_ids_pub(&c.model, &c.ids);
    let ws_mix = build_workspace(&sized, perm, c.n, c.p, &opts);
    assert!(ws_mix.is_lmm_dense());

    let glm = ModelSpec {
        family: Family::Poisson {
            link: PoissonLink::Log,
        },
        re: None,
    };
    assert!(build_workspace(&glm, Perm::identity(), 50, 2, &opts).is_glm());

    let nb = ModelSpec {
        family: Family::NegativeBinomial {
            link: NegBinomialLink::Log,
        },
        re: None,
    };
    assert!(build_workspace(&nb, Perm::identity(), 50, 2, &opts).is_prebuilt());
}

#[test]
fn single_intercept_gaussian_routes_to_bobyqa_not_brent() {
    let c = lmm_intercept_case();
    let (sized, _, perm) = spec_sized_from_ids_pub(&c.model, &c.ids);
    let ws = build_workspace(&sized, perm, c.n, c.p, &c.opts);
    assert!(ws.is_lmm_dense());
}

#[test]
fn level_count_mismatch_is_refused() {
    let c = lmm_intercept_case();
    let (sized, _, perm) = spec_sized_from_ids_pub(&c.model, &c.ids);
    let ws = build_workspace(&sized, perm, c.n, c.p, &c.opts);
    let fewer = GroupIds {
        primary: vec![0u32; c.n],
        extra: vec![],
    };
    assert_eq!(
        check_call(&ws, &c.x, &c.y, &fewer, &c.opts),
        Err(CallError::PrimaryLevels)
    );
    assert_eq!(check_call(&ws, &c.x, &c.y, &c.ids, &c.opts), Ok(()));
}

fn refuses_one_level_more(c: &Case) {
    let (sized, _, perm) = spec_sized_from_ids_pub(&c.model, &c.ids);
    let ws = build_workspace(&sized, perm, c.n, c.p, &c.opts);
    let mut more = c.ids.clone();
    more.extra[0][0] = *more.extra[0].iter().max().unwrap() + 1;
    assert_eq!(
        check_call(&ws, &c.x, &c.y, &more, &c.opts),
        Err(CallError::ExtraCapacity { grouping: 0 })
    );
    assert_eq!(check_call(&ws, &c.x, &c.y, &c.ids, &c.opts), Ok(()));
}

#[test]
fn extra_level_count_overflow_is_refused_on_every_route() {
    let sparse = crossed_extra_case(vec![1]);
    let (sized, _, perm) = spec_sized_from_ids_pub(&sparse.model, &sparse.ids);
    assert!(build_workspace(&sized, perm, sparse.n, sparse.p, &sparse.opts).is_prebuilt());
    refuses_one_level_more(&sparse);

    let dense = crossed_extra_case(vec![]);
    let (sized, _, perm) = spec_sized_from_ids_pub(&dense.model, &dense.ids);
    assert!(build_workspace(&sized, perm, dense.n, dense.p, &dense.opts).is_lmm_dense());
    refuses_one_level_more(&dense);

    let glmm = crossed_extra_glmm_case();
    let (sized, _, perm) = spec_sized_from_ids_pub(&glmm.model, &glmm.ids);
    assert!(build_workspace(&sized, perm, glmm.n, glmm.p, &glmm.opts).is_glmm_dense());
    refuses_one_level_more(&glmm);
}

#[test]
fn fit_on_accepts_nested_draw_below_capacity() {
    let c = nested_unbalanced_case();
    let (sized, _, perm) = spec_sized_from_ids_pub(&c.model, &c.ids);
    let mut ws = build_workspace(&sized, perm, c.n, c.p, &c.opts);
    assert_eq!(ws.build_extra_capacity, vec![12]);
    let used = *c.ids.extra[0].iter().max().unwrap() as usize + 1;
    assert_eq!(used, 11);
    assert_eq!(check_call(&ws, &c.x, &c.y, &c.ids, &c.opts), Ok(()));
    let job = fit_on(&mut ws, &c.x, &c.y, &c.ids, None, &c.opts);
    assert_eq!(job.y, c.y);
}

#[test]
fn grown_target_count_is_refused() {
    let c = ols_case();
    let ws = build_workspace(&c.model, Perm::identity(), c.n, c.p, &c.opts);
    let wider = targets(vec![0, 1, 2]);
    assert_eq!(
        check_call(&ws, &c.x, &c.y, &c.ids, &wider),
        Err(CallError::TargetCount)
    );
}

#[test]
fn two_nested_groupings_are_refused() {
    let c = nested_unbalanced_case();
    let mut sized = c.model.clone();
    let nested = sized.re.as_ref().unwrap().extra_groupings[0].clone();
    sized.re.as_mut().unwrap().extra_groupings.push(nested);
    assert_eq!(
        assert_model_shape(&sized, c.p, c.opts.nagq),
        Err(ShapeError::SeveralNested { n_nested: 2 })
    );
}
