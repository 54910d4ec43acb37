//! Refusals: models that cannot be fitted, rows that do not belong to a model,
//! draws that do not have the shape of a workspace.
use glmm::consts::MAX_NAGQ;
use glmm::draw::{check_call, CallError};
use glmm::exact::Exact;
use glmm::model::{
    BinomialLink, Family, GroupIds, Grouping, GroupingRelation, ModelSpec, PoissonLink, ReStructure,
    Sizing,
};
use glmm::options::FitOptions;
use glmm::perm::Perm;
use glmm::shape::{
    assert_group_ids, assert_model_shape, assert_model_shape_pub, GroupIdsError, ShapeError,
};
use glmm::workspace::{build_workspace, FitWorkspace};

fn crossed(slopes: Vec<u32>) -> Grouping {
    Grouping {
        relation: GroupingRelation::Crossed { n_clusters: 2 },
        slopes,
    }
}

fn nested() -> Grouping {
    Grouping {
        relation: GroupingRelation::NestedWithin { n_per_parent: 2 },
        slopes: vec![],
    }
}

fn mixed(family: Family, slopes: Vec<u32>, extra_groupings: Vec<Grouping>) -> ModelSpec {
    ModelSpec {
        family,
        re: Some(ReStructure {
            sizing: Sizing::FixedClusters { n_clusters: 2 },
            slopes,
            extra_groupings,
        }),
    }
}

const LOGIT: Family = Family::Binomial {
    link: BinomialLink::Logit,
};

#[test]
fn quadrature_nodes_are_odd_and_bounded() {
    let m = mixed(LOGIT, vec![], vec![]);
    for nagq in [0, 2, 4, MAX_NAGQ + 1, MAX_NAGQ + 2] {
        assert_eq!(
            assert_model_shape(&m, 1, nagq),
            Err(ShapeError::NagqOutOfRange)
        );
    }
    for nagq in [1, 3, MAX_NAGQ] {
        assert_eq!(assert_model_shape_pub(&m, 1, nagq), Ok(()));
    }
}

#[test]
fn several_nodes_take_one_factor_of_counts() {
    let fixed = ModelSpec {
        family: LOGIT,
        re: None,
    };
    assert_eq!(
        assert_model_shape(&fixed, 1, 3),
        Err(ShapeError::NagqWithoutRandomEffects)
    );
    assert_eq!(assert_model_shape(&fixed, 1, 1), Ok(()));
    assert_eq!(
        assert_model_shape(&mixed(Family::Gaussian, vec![], vec![]), 1, 3),
        Err(ShapeError::NagqOutsideSingleFactor)
    );
    assert_eq!(
        assert_model_shape(&mixed(LOGIT, vec![], vec![crossed(vec![])]), 1, 3),
        Err(ShapeError::NagqOutsideSingleFactor)
    );
    let poisson = Family::Poisson {
        link: PoissonLink::Log,
    };
    assert_eq!(
        assert_model_shape(&mixed(poisson, vec![0, 1], vec![]), 3, 3),
        Ok(())
    );
    assert_eq!(
        assert_model_shape(&mixed(poisson, vec![0, 1, 2], vec![]), 3, 3),
        Err(ShapeError::NagqTooWide)
    );
}

#[test]
fn slopes_name_columns() {
    let p = 2;
    assert_eq!(
        assert_model_shape(&mixed(LOGIT, vec![1, 2, 5], vec![]), p, 1),
        Err(ShapeError::PrimarySlopeOutOfRange { col: 2 })
    );
    assert_eq!(
        assert_model_shape(
            &mixed(LOGIT, vec![1], vec![crossed(vec![0]), crossed(vec![1, 9])]),
            p,
            1
        ),
        Err(ShapeError::ExtraSlopeOutOfRange { col: 9 })
    );
}

#[test]
fn at_most_one_nested_grouping() {
    assert_eq!(
        assert_model_shape(&mixed(LOGIT, vec![], vec![nested(), crossed(vec![])]), 1, 1),
        Ok(())
    );
    assert_eq!(
        assert_model_shape(&mixed(LOGIT, vec![], vec![nested(), crossed(vec![]), nested()]), 1, 1),
        Err(ShapeError::SeveralNested { n_nested: 2 })
    );
}

#[test]
fn ids_cover_the_rows() {
    let m = mixed(LOGIT, vec![], vec![crossed(vec![]), nested()]);
    let re = m.re.as_ref().unwrap();
    let ids = |primary: usize, extra: Vec<usize>| GroupIds {
        primary: vec![0; primary],
        extra: extra.into_iter().map(|n| vec![0; n]).collect(),
    };
    assert_eq!(assert_group_ids(re, &ids(3, vec![3, 3]), 3), Ok(()));
    assert_eq!(
        assert_group_ids(re, &ids(2, vec![3, 3]), 3),
        Err(GroupIdsError::PrimaryLength)
    );
    assert_eq!(
        assert_group_ids(re, &ids(3, vec![3]), 3),
        Err(GroupIdsError::ExtraCount)
    );
    assert_eq!(
        assert_group_ids(re, &ids(3, vec![3, 4]), 3),
        Err(GroupIdsError::ExtraLength { grouping: 1 })
    );
}

fn one() -> Exact {
    Exact::Whole(1)
}

fn workspace() -> (FitWorkspace<Exact>, GroupIds) {
    let model = mixed(Family::Gaussian, vec![], vec![crossed(vec![])]);
    let opts = FitOptions {
        target_indices: vec![0],
        ..FitOptions::default()
    };
    let ids = GroupIds {
        primary: vec![0, 1, 1],
        extra: vec![vec![0, 1, 0]],
    };
    (build_workspace(&model, Perm::identity(), 4, 2, &opts), ids)
}

fn options() -> FitOptions<Exact> {
    FitOptions {
        target_indices: vec![0],
        ..FitOptions::default()
    }
}

#[test]
fn a_draw_matches_its_workspace() {
    let (ws, ids) = workspace();
    let (x, y) = (vec![one(); 6], vec![one(); 3]);
    let good = options();
    assert_eq!(check_call(&ws, &x, &y, &ids, &good), Ok(()));

    let many = vec![one(); 5];
    assert_eq!(
        check_call(&ws, &x, &many, &ids, &good),
        Err(CallError::TooManyRows)
    );
    assert_eq!(
        check_call(&ws, &x[..5], &y, &ids, &good),
        Err(CallError::DesignLength)
    );
    let mut o = options();
    o.nagq = 3;
    assert_eq!(check_call(&ws, &x, &y, &ids, &o), Err(CallError::Nagq));
    let mut o = options();
    o.target_indices = vec![0, 1];
    assert_eq!(
        check_call(&ws, &x, &y, &ids, &o),
        Err(CallError::TargetCount)
    );
    let mut o = options();
    o.weights = Some(vec![one(); 3]);
    assert_eq!(
        check_call(&ws, &x, &y, &ids, &o),
        Err(CallError::WeightsPresence)
    );
    let mut o = options();
    o.offset = Some(vec![one(); 3]);
    assert_eq!(
        check_call(&ws, &x, &y, &ids, &o),
        Err(CallError::OffsetPresence)
    );
    let mut o = options();
    o.parallel_inner = true;
    assert_eq!(
        check_call(&ws, &x, &y, &ids, &o),
        Err(CallError::ParallelInner)
    );
}

#[test]
fn a_draw_keeps_to_its_levels() {
    let (ws, ids) = workspace();
    let (x, y) = (vec![one(); 6], vec![one(); 3]);
    let o = options();
    let mut short = ids.clone();
    short.extra[0] = vec![0];
    assert_eq!(
        check_call(&ws, &x, &y, &short, &o),
        Err(CallError::Ids(GroupIdsError::ExtraLength { grouping: 0 }))
    );
    let mut fewer = ids.clone();
    fewer.primary = vec![0; 3];
    assert_eq!(
        check_call(&ws, &x, &y, &fewer, &o),
        Err(CallError::PrimaryLevels)
    );
    let mut more = ids.clone();
    more.extra[0][0] = 2;
    assert_eq!(
        check_call(&ws, &x, &y, &more, &o),
        Err(CallError::ExtraCapacity { grouping: 0 })
    );
    let mut under = ids.clone();
    under.extra[0] = vec![0; 3];
    assert_eq!(check_call(&ws, &x, &y, &under, &o), Ok(()));
}
