//! Level counts from the rows, and the choice of solver.
use glmm::consts::{MAX_CROSSED_LEVELS, MAX_EXTRA_GROUPINGS, MAX_PRIMARY_Q};
use glmm::model::{
    theta_width, Family, GroupIds, Grouping, GroupingRelation, ModelSpec, PoissonLink, ReStructure,
    Sizing,
};
use glmm::draw::{check_call, fit_on};
use glmm::exact::Exact;
use glmm::options::FitOptions;
use glmm::perm::Perm;
use glmm::routing::{classify_design, classify_design_pub, Solver};
use glmm::sizing::{count_levels, spec_sized_from_ids, spec_sized_from_ids_pub, widest_parent};
use glmm::workspace::{build_workspace, PrebuiltRoute, Route};

#[test]
fn theta_width_counts_vech_blocks() {
    let re = ReStructure {
        sizing: Sizing::FixedClusters { n_clusters: 4 },
        slopes: vec![1],
        extra_groupings: vec![Grouping {
            relation: GroupingRelation::Crossed { n_clusters: 3 },
            slopes: vec![],
        }],
    };
    assert_eq!(theta_width(Some(&re)), 3 + 1);
    assert_eq!(theta_width(None), 0);
}

#[test]
fn spec_sized_from_ids_derives_counts() {
    let re = ReStructure {
        sizing: Sizing::FixedClusters { n_clusters: 1 },
        slopes: vec![],
        extra_groupings: vec![
            Grouping {
                relation: GroupingRelation::Crossed { n_clusters: 1 },
                slopes: vec![],
            },
            Grouping {
                relation: GroupingRelation::NestedWithin { n_per_parent: 1 },
                slopes: vec![],
            },
        ],
    };
    let model = ModelSpec {
        family: Family::Gaussian,
        re: Some(re),
    };
    let ids = GroupIds {
        primary: vec![0, 1, 2, 0, 1, 2],
        extra: vec![vec![0, 0, 1, 1, 2, 2], vec![0, 1, 2, 3, 4, 5]],
    };
    let (sized, _ids, _perm) = spec_sized_from_ids(&model, &ids);
    let sre = sized.re.unwrap();
    assert_eq!(sre.sizing, Sizing::FixedClusters { n_clusters: 3 });
    assert_eq!(
        sre.extra_groupings[0].relation,
        GroupingRelation::Crossed { n_clusters: 3 }
    );
    assert_eq!(
        sre.extra_groupings[1].relation,
        GroupingRelation::NestedWithin { n_per_parent: 2 }
    );
}

#[test]
fn spec_sized_from_ids_nested_unbalanced_uses_true_max_per_parent() {
    let re = ReStructure {
        sizing: Sizing::FixedClusters { n_clusters: 1 },
        slopes: vec![],
        extra_groupings: vec![Grouping {
            relation: GroupingRelation::NestedWithin { n_per_parent: 1 },
            slopes: vec![],
        }],
    };
    let model = ModelSpec {
        family: Family::Gaussian,
        re: Some(re),
    };
    let ids = GroupIds {
        primary: vec![0, 1, 1, 2, 2, 2],
        extra: vec![vec![0, 3, 4, 6, 7, 8]],
    };
    let (sized, _ids, _perm) = spec_sized_from_ids(&model, &ids);
    let sre = sized.re.unwrap();
    assert_eq!(sre.sizing, Sizing::FixedClusters { n_clusters: 3 });
    assert_eq!(
        sre.extra_groupings[0].relation,
        GroupingRelation::NestedWithin { n_per_parent: 3 }
    );
}

#[test]
fn spec_sized_from_ids_nested_unbalanced_first_parent_widest() {
    let re = ReStructure {
        sizing: Sizing::FixedClusters { n_clusters: 1 },
        slopes: vec![],
        extra_groupings: vec![Grouping {
            relation: GroupingRelation::NestedWithin { n_per_parent: 1 },
            slopes: vec![],
        }],
    };
    let model = ModelSpec {
        family: Family::Gaussian,
        re: Some(re),
    };
    let ids = GroupIds {
        primary: vec![0, 0, 0, 1, 1, 2],
        extra: vec![vec![0, 1, 2, 3, 4, 5]],
    };
    let (sized, _ids, _perm) = spec_sized_from_ids(&model, &ids);
    let sre = sized.re.unwrap();
    assert_eq!(
        sre.extra_groupings[0].relation,
        GroupingRelation::NestedWithin { n_per_parent: 3 }
    );
}

#[test]
fn classify_routes_at_the_cap_edge() {
    let in_env = ModelSpec {
        family: Family::Gaussian,
        re: Some(ReStructure {
            sizing: Sizing::FixedClusters { n_clusters: 10 },
            slopes: vec![],
            extra_groupings: vec![],
        }),
    };
    assert!(matches!(classify_design_pub(&in_env, 1), Solver::NoZ));

    let over = ModelSpec {
        family: Family::Gaussian,
        re: Some(ReStructure {
            sizing: Sizing::FixedClusters { n_clusters: 10 },
            slopes: vec![],
            extra_groupings: (0..(MAX_EXTRA_GROUPINGS + 1))
                .map(|_| Grouping {
                    relation: GroupingRelation::Crossed { n_clusters: 4 },
                    slopes: vec![],
                })
                .collect(),
        }),
    };
    assert!(matches!(classify_design_pub(&over, 1), Solver::Sparse));

    let wide = ModelSpec {
        family: Family::Gaussian,
        re: Some(ReStructure {
            sizing: Sizing::FixedClusters { n_clusters: 10 },
            slopes: (1..=MAX_PRIMARY_Q as u32).collect(),
            extra_groupings: vec![],
        }),
    };
    assert!(matches!(classify_design_pub(&wide, 1), Solver::Sparse));
}

#[test]
fn classify_routes_many_crossed_levels_to_sparse() {
    let cap = MAX_CROSSED_LEVELS as u32;
    let spec = |extras: Vec<Grouping>| ModelSpec {
        family: Family::Gaussian,
        re: Some(ReStructure {
            sizing: Sizing::FixedClusters { n_clusters: 10 },
            slopes: vec![],
            extra_groupings: extras,
        }),
    };
    let crossed = |n_clusters: u32| Grouping {
        relation: GroupingRelation::Crossed { n_clusters },
        slopes: vec![],
    };
    let over = spec(vec![crossed(cap + 1)]);
    assert!(matches!(classify_design_pub(&over, 1), Solver::Sparse));
    let sum_over = spec(vec![crossed(cap / 2 + 1), crossed(cap / 2 + 1)]);
    assert!(matches!(classify_design_pub(&sum_over, 1), Solver::Sparse));
    let at_cap = spec(vec![crossed(cap)]);
    assert!(matches!(classify_design_pub(&at_cap, 1), Solver::NoZ));
    let nested = spec(vec![Grouping {
        relation: GroupingRelation::NestedWithin {
            n_per_parent: cap + 1,
        },
        slopes: vec![],
    }]);
    assert!(matches!(classify_design_pub(&nested, 1), Solver::NoZ));
}

#[test]
fn classify_routes_slope_extras_to_sparse_all_families() {
    let spec = |family: Family, extra_slopes: Vec<u32>| ModelSpec {
        family,
        re: Some(ReStructure {
            sizing: Sizing::FixedClusters { n_clusters: 10 },
            slopes: vec![],
            extra_groupings: vec![Grouping {
                relation: GroupingRelation::Crossed { n_clusters: 5 },
                slopes: extra_slopes,
            }],
        }),
    };
    let g_slope = spec(Family::Gaussian, vec![1]);
    assert!(matches!(classify_design_pub(&g_slope, 1), Solver::Sparse));
    let g_int = spec(Family::Gaussian, vec![]);
    assert!(matches!(classify_design_pub(&g_int, 1), Solver::NoZ));
    let p_slope = spec(
        Family::Poisson {
            link: PoissonLink::Log,
        },
        vec![1],
    );
    assert!(matches!(classify_design_pub(&p_slope, 1), Solver::Sparse));
}

#[test]
fn classify_fixed_only_is_noz() {
    let ols = ModelSpec {
        family: Family::Gaussian,
        re: None,
    };
    assert!(matches!(classify_design_pub(&ols, 1), Solver::NoZ));
}

#[test]
fn fit_too_many_extra_groupings_routes_sparse() {
    let extra_groupings: Vec<Grouping> = (0..7)
        .map(|_| Grouping {
            relation: GroupingRelation::Crossed { n_clusters: 2 },
            slopes: vec![],
        })
        .collect();
    let model = ModelSpec {
        family: Family::Gaussian,
        re: Some(ReStructure {
            sizing: Sizing::FixedClusters { n_clusters: 2 },
            slopes: vec![],
            extra_groupings,
        }),
    };
    assert!(matches!(classify_design(&model, 1), Solver::Sparse));
    let (n, p) = (8, 1);
    let x = vec![Exact::Whole(1); n * p];
    let y = vec![Exact::Whole(0); n];
    let ids = GroupIds {
        primary: vec![0; n],
        extra: vec![vec![0; n]; 7],
    };
    let opts = FitOptions {
        target_indices: vec![0],
        ..FitOptions::default()
    };
    // The draw reaches the sparse kernel rather than being refused.
    let (sized, ids, perm) = spec_sized_from_ids(&model, &ids);
    let mut ws = build_workspace(&sized, perm, n, p, &opts);
    assert_eq!(check_call(&ws, &x, &y, &ids, &opts), Ok(()));
    let job = fit_on(&mut ws, &x, &y, &ids, None, &opts);
    assert_eq!(job.route, Route::Prebuilt(PrebuiltRoute::LmmSparse));
    assert_eq!(job.p, p);
}

#[test]
fn sizing_twice_changes_nothing() {
    let model = ModelSpec {
        family: Family::Gaussian,
        re: Some(ReStructure {
            sizing: Sizing::FixedSize { cluster_size: 9 },
            slopes: vec![1],
            extra_groupings: vec![
                Grouping {
                    relation: GroupingRelation::Crossed { n_clusters: 70 },
                    slopes: vec![2],
                },
                Grouping {
                    relation: GroupingRelation::NestedWithin { n_per_parent: 70 },
                    slopes: vec![],
                },
            ],
        }),
    };
    let ids = GroupIds {
        primary: vec![0, 0, 1, 1],
        extra: vec![vec![4, 0, 1, 2], vec![0, 1, 2, 2]],
    };
    let (once, ids, perm) = spec_sized_from_ids_pub(&model, &ids);
    assert_eq!(perm, Perm::identity());
    let (twice, _, _) = spec_sized_from_ids_pub(&once, &ids);
    let (a, b) = (once.re.as_ref().unwrap(), twice.re.as_ref().unwrap());
    assert_eq!(a.sizing, Sizing::FixedClusters { n_clusters: 2 });
    assert_eq!(a.sizing, b.sizing);
    assert_eq!(a.slopes, vec![1]);
    assert_eq!(a.extra_groupings[0].slopes, vec![2]);
    for g in 0..2 {
        assert_eq!(a.extra_groupings[g].relation, b.extra_groupings[g].relation);
    }
    assert_eq!(
        a.extra_groupings[0].relation,
        GroupingRelation::Crossed { n_clusters: 5 }
    );
    assert_eq!(
        a.extra_groupings[1].relation,
        GroupingRelation::NestedWithin { n_per_parent: 2 }
    );
    assert_eq!(theta_width(once.re.as_ref()), theta_width(model.re.as_ref()));
}

#[test]
fn empty_rows_are_sized_for_one_level() {
    let model = ModelSpec {
        family: Family::Gaussian,
        re: Some(ReStructure {
            sizing: Sizing::FixedClusters { n_clusters: 7 },
            slopes: vec![],
            extra_groupings: vec![Grouping {
                relation: GroupingRelation::NestedWithin { n_per_parent: 7 },
                slopes: vec![],
            }],
        }),
    };
    let ids = GroupIds {
        primary: vec![],
        extra: vec![vec![]],
    };
    let re = spec_sized_from_ids(&model, &ids).0.re.unwrap();
    assert_eq!(re.sizing, Sizing::FixedClusters { n_clusters: 1 });
    assert_eq!(
        re.extra_groupings[0].relation,
        GroupingRelation::NestedWithin { n_per_parent: 1 }
    );
    assert_eq!(count_levels(&[]), 0);
}

#[test]
fn fixed_effects_model_is_sized_as_it_is() {
    let model = ModelSpec {
        family: Family::Gaussian,
        re: None,
    };
    let (sized, _, _) = spec_sized_from_ids(&model, &GroupIds::default());
    assert!(sized.re.is_none());
    assert_eq!(sized.family, Family::Gaussian);
}

#[test]
fn a_child_counts_once_per_parent() {
    assert_eq!(widest_parent(&[0, 0, 0, 1], &[5, 5, 6, 5], 2), 2);
    assert_eq!(count_levels(&[3, 9, 1]), 10);
    // A level of the largest number needs one more than 32 bits.
    assert_eq!(count_levels(&[u32::MAX]), 1 << 32);
}

#[test]
fn clusters_of_a_fixed_size_cover_the_rows() {
    assert_eq!(Sizing::FixedSize { cluster_size: 4 }.n_clusters_at(9), 3);
    assert_eq!(Sizing::FixedSize { cluster_size: 4 }.n_clusters_at(8), 2);
    assert_eq!(Sizing::FixedSize { cluster_size: 0 }.n_clusters_at(5), 5);
    assert_eq!(Sizing::FixedClusters { n_clusters: 3 }.n_clusters_at(100), 3);
}

#[test]
fn declared_counts_and_row_order_have_no_say_in_the_sizing() {
    let model = |primary: u32, crossed: u32, nested: u32| ModelSpec {
        family: Family::Gaussian,
        re: Some(ReStructure {
            sizing: Sizing::FixedClusters {
                n_clusters: primary,
            },
            slopes: vec![],
            extra_groupings: vec![
                Grouping {
                    relation: GroupingRelation::Crossed {
                        n_clusters: crossed,
                    },
                    slopes: vec![],
                },
                Grouping {
                    relation: GroupingRelation::NestedWithin {
                        n_per_parent: nested,
                    },
                    slopes: vec![],
                },
            ],
        }),
    };
    let ids = GroupIds {
        primary: vec![0, 0, 0, 1],
        extra: vec![vec![0, 1, 4, 2], vec![0, 1, 2, 3]],
    };
    let turned = GroupIds {
        primary: vec![1, 0, 0, 0],
        extra: vec![vec![2, 4, 1, 0], vec![3, 2, 1, 0]],
    };
    let want = format!("{:?}", spec_sized_from_ids(&model(1, 1, 1), &ids).0);
    assert_eq!(format!("{:?}", spec_sized_from_ids(&model(9, 8, 7), &ids).0), want);
    assert_eq!(format!("{:?}", spec_sized_from_ids(&model(1, 1, 1), &turned).0), want);
    assert!(want.contains("n_clusters: 2") && want.contains("n_clusters: 5"));
    assert!(want.contains("n_per_parent: 3"));
}
