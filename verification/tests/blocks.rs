//! Layouts of the random effects, their covariance, their modes and the means.
use glmm::exact::Exact;
use glmm::fitted::lmm_fitted;
use glmm::groupings::{extra_vech_start, ranef_level_counts, re_slope_cols, LmmGroupings};
use glmm::model::{
    theta_width, Family, Grouping, GroupingRelation, ModelSpec, ReStructure, Sizing,
};
use glmm::ranef::{assemble_ranef_dense, assemble_ranef_sparse};
use glmm::varcorr::{assemble_varcorr, varcorr_block, vech_q};

fn w(v: i64) -> Exact {
    Exact::Whole(v)
}

fn ws(v: &[i64]) -> Vec<Exact> {
    v.iter().map(|&v| w(v)).collect()
}

fn model(slopes: Vec<u32>, extra_groupings: Vec<Grouping>) -> ModelSpec {
    ModelSpec {
        family: Family::Gaussian,
        re: Some(ReStructure {
            sizing: Sizing::FixedClusters { n_clusters: 2 },
            slopes,
            extra_groupings,
        }),
    }
}

/// A primary block of two effects, a crossed block of two, a nested intercept.
fn three_blocks() -> (ModelSpec, LmmGroupings<Exact>) {
    let m = model(
        vec![1],
        vec![
            Grouping {
                relation: GroupingRelation::Crossed { n_clusters: 3 },
                slopes: vec![2],
            },
            Grouping {
                relation: GroupingRelation::NestedWithin { n_per_parent: 2 },
                slopes: vec![],
            },
        ],
    );
    let (cols, extra) = re_slope_cols(&m);
    let g = LmmGroupings::from_cluster_spec_ext(&m, 10, &cols, &extra);
    (m, g)
}

#[test]
fn blocks_follow_one_another() {
    let (m, g) = three_blocks();
    assert_eq!(g.primary_q, 2);
    assert_eq!(g.extra_q, vec![2, 1]);
    assert_eq!(ranef_level_counts(&g), vec![2, 3, 4]);
    assert_eq!(g.extra_offsets, vec![4, 10]);
    assert_eq!(g.k_total, 14);
    assert_eq!(extra_vech_start(&g, 0), 3);
    assert_eq!(extra_vech_start(&g, 1), 6);
    assert!(g.extra_slopes_any);
    assert_eq!(g.n_theta(), 7);
    assert_eq!(g.n_theta(), theta_width(m.re.as_ref()));
    assert_eq!(g.primary_slope_cols, vec![1]);
    assert_eq!(g.extra_slope_cols, vec![vec![2], vec![]]);
}

#[test]
fn declared_zero_counts_as_one() {
    let m = model(
        vec![],
        vec![
            Grouping {
                relation: GroupingRelation::Crossed { n_clusters: 0 },
                slopes: vec![],
            },
            Grouping {
                relation: GroupingRelation::NestedWithin { n_per_parent: 0 },
                slopes: vec![],
            },
        ],
    );
    let g: LmmGroupings<Exact> = LmmGroupings::from_cluster_spec_ext(&m, 10, &[], &[]);
    assert_eq!(ranef_level_counts(&g), vec![2, 1, 2]);
    assert!(!g.extra_slopes_any);
}

#[test]
fn scales_belong_to_rows() {
    let (_, mut g) = three_blocks();
    assert!(!g.any_slope_scaled());
    assert_eq!(g.theta_row_scales(), ws(&[1, 1, 1, 1, 1, 1, 1]));
    g.set_slope_scales(ws(&[1, 5]), vec![ws(&[1, 7]), ws(&[1])]);
    assert!(g.any_slope_scaled());
    assert_eq!(g.theta_row_scales(), ws(&[1, 5, 5, 1, 7, 7, 1]));
    assert_eq!(g.k_total, 14);
}

#[test]
fn covariance_is_packed_by_columns() {
    // L = [[1, 0, 0], [2, 3, 0], [4, 5, 6]]
    let theta = ws(&[1, 2, 4, 3, 5, 6]);
    let one = ws(&[1, 1, 1]);
    assert_eq!(
        varcorr_block(&theta, 3, w(1), &one),
        ws(&[1, 2, 4, 13, 23, 77])
    );
    assert_eq!(
        varcorr_block(&theta, 3, w(2), &one),
        ws(&[2, 4, 8, 26, 46, 154])
    );
    // The last row in units of 2.
    let theta = ws(&[1, 2, 4, 3, 6, 8]);
    assert_eq!(
        varcorr_block(&theta, 3, w(1), &ws(&[1, 1, 2])),
        ws(&[1, 2, 2, 13, 13, 29])
    );
}

#[test]
fn one_covariance_block_per_grouping() {
    let (_, g) = three_blocks();
    let theta = ws(&[2, 3, 1, 1, 1, 2, 5]);
    let vc = assemble_varcorr(&theta, &g, w(1));
    assert_eq!(vc, vec![ws(&[4, 6, 10]), ws(&[1, 1, 5]), ws(&[25])]);
}

#[test]
fn width_of_a_block_is_found_back() {
    for q in 0..20 {
        assert_eq!(vech_q(q * (q + 1) / 2), q);
    }
    assert_eq!(vech_q(5), 2);
}

#[test]
fn sparse_modes_are_reported_by_level() {
    let (_, g) = three_blocks();
    let theta = ws(&[2, 3, 1, 1, 1, 2, 5]);
    // Primary by component: intercepts 1 2, slopes 3 4.
    let u = ws(&[1, 2, 3, 4, 1, 2, 3, 4, 5, 6, 1, 2, 3, 4]);
    let b = assemble_ranef_sparse(&theta, &g, &u);
    assert_eq!(b[..4], ws(&[2, 6, 4, 10])[..]);
    assert_eq!(b[4..10], ws(&[1, 5, 3, 11, 5, 17])[..]);
    assert_eq!(b[10..], ws(&[5, 10, 15, 20])[..]);
    assert_eq!(b.len(), g.k_total);
}

#[test]
fn dense_modes_are_reported_by_level() {
    let m = model(
        vec![1],
        vec![Grouping {
            relation: GroupingRelation::Crossed { n_clusters: 3 },
            slopes: vec![],
        }],
    );
    let mut g: LmmGroupings<Exact> = LmmGroupings::from_cluster_spec_ext(&m, 10, &[1], &[]);
    let theta = ws(&[2, 3, 1, 7]);
    // Primary by level.
    let u = ws(&[1, 3, 2, 4, 1, 2, 3]);
    assert_eq!(
        assemble_ranef_dense(&theta, &g, &u),
        ws(&[2, 6, 4, 10, 7, 14, 21])
    );
    // A scaled slope comes out in the units of the design.
    g.set_slope_scales(ws(&[1, 10]), vec![ws(&[1])]);
    let theta = ws(&[2, 30, 10, 7]);
    assert_eq!(
        assemble_ranef_dense(&theta, &g, &u),
        ws(&[2, 6, 4, 10, 7, 14, 21])
    );
}

#[test]
fn both_orders_of_the_modes_give_the_same_effects() {
    let m = model(
        vec![1],
        vec![Grouping {
            relation: GroupingRelation::Crossed { n_clusters: 3 },
            slopes: vec![],
        }],
    );
    let g: LmmGroupings<Exact> = LmmGroupings::from_cluster_spec_ext(&m, 10, &[1], &[]);
    let theta = ws(&[2, 3, 1, 7]);
    let by_level = ws(&[1, 3, 2, 4, 1, 2, 3]);
    let by_component = ws(&[1, 2, 3, 4, 1, 2, 3]);
    assert_eq!(
        assemble_ranef_sparse(&theta, &g, &by_component),
        assemble_ranef_dense(&theta, &g, &by_level)
    );
}

#[test]
fn one_effect_per_level_makes_the_two_orders_one() {
    let m = model(
        vec![],
        vec![Grouping {
            relation: GroupingRelation::Crossed { n_clusters: 3 },
            slopes: vec![],
        }],
    );
    let g: LmmGroupings<Exact> = LmmGroupings::from_cluster_spec_ext(&m, 10, &[], &[]);
    let theta = ws(&[2, 7]);
    let u = ws(&[1, 3, 1, 2, 3]);
    let dense = assemble_ranef_dense(&theta, &g, &u);
    assert_eq!(dense, ws(&[2, 6, 7, 14, 21]));
    assert_eq!(assemble_ranef_sparse(&theta, &g, &u), dense);
}

#[test]
fn means_take_each_rows_own_levels() {
    let (_, g) = three_blocks();
    // Effects: primary (1, 10), (2, 20); crossed (100, 1), (200, 2), (300, 3);
    // nested 1000, 2000, 3000, 4000.
    let ranef = ws(&[1, 10, 2, 20, 100, 1, 200, 2, 300, 3, 1000, 2000, 3000, 4000]);
    let x = ws(&[1, 5, 7, 1, 2, 3]);
    let beta = ws(&[4, 1, 0]);
    let primary = [0, 1];
    let extra = [vec![2, 0], vec![1, 3]];
    let off = ws(&[50000, 0]);
    let mu = lmm_fitted(&x, 2, 3, &beta, &ranef, &g, &primary, &extra, Some(&off));
    // 50000 + (4 + 5) + (1 + 10*5) + (300 + 3*7) + 2000
    assert_eq!(mu[0], w(52381));
    // (4 + 2) + (2 + 20*2) + (100 + 1*3) + 4000
    assert_eq!(mu[1], w(4151));
    let mu = lmm_fitted(&x, 2, 3, &beta, &ranef, &g, &primary, &extra, None);
    assert_eq!(mu[0], w(2381));
}
