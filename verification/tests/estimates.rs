//! Standard errors, covariance of the fixed effects, matrices.
use glmm::exact::Exact;
use glmm::inference::{fill_se_by_predictor, fill_se_compact, nan_vcov, vcov_from_chol};
use glmm::matrix::{fill_col_major, lower_gram, to_col_major, ColMajor};

const NAN: Exact = Exact::Undefined;

fn w(v: i64) -> Exact {
    Exact::Whole(v)
}

fn ws(v: &[i64]) -> Vec<Exact> {
    v.iter().map(|&v| w(v)).collect()
}

#[test]
fn target_ordered_variances() {
    let mut se = vec![NAN; 4];
    fill_se_compact(&[w(9), w(-1), NAN, w(4)], &[2, 0, 1, 3], &mut se);
    assert_eq!(se, vec![NAN, NAN, w(3), w(2)]);
}

#[test]
fn coefficient_ordered_variances() {
    let mut se = vec![NAN; 4];
    fill_se_by_predictor(&[w(1), w(16), w(-4), w(25)], &[3, 1, 2], &mut se);
    assert_eq!(se, vec![NAN, w(4), NAN, w(5)]);
}

fn lower(p: usize, entries: &[(usize, usize, i64)]) -> ColMajor<Exact> {
    let mut l = ColMajor::new(p, p, w(0));
    for &(i, j, v) in entries {
        l.set(i, j, w(v));
    }
    l
}

#[test]
fn covariance_of_all_coefficients() {
    // L = [[1, 0], [3, 1]], so the inverse of L L' is [[10, -3], [-3, 1]].
    let l = lower(2, &[(0, 0, 1), (1, 0, 3), (1, 1, 1)]);
    let vcov = vcov_from_chol(&l, 2, &[0, 1], w(2));
    assert_eq!(vcov, vec![ws(&[20, -6]), ws(&[-6, 2])]);
    assert_eq!(vcov_from_chol(&l, 2, &[1, 0], w(2)), vcov);
}

#[test]
fn repeated_targets_change_nothing() {
    let l = lower(2, &[(0, 0, 1), (1, 0, 3), (1, 1, 1)]);
    let vcov = vcov_from_chol(&l, 2, &[0, 1], w(2));
    assert_eq!(vcov_from_chol(&l, 2, &[1, 0, 1, 0, 0], w(2)), vcov);
}

#[test]
fn covariance_is_undefined_off_the_targets() {
    let l = lower(3, &[(0, 0, 1), (1, 0, 3), (1, 1, 1), (2, 2, 1)]);
    let vcov = vcov_from_chol(&l, 3, &[1, 7], w(1));
    assert_eq!(vcov[1][1], w(1));
    for i in 0..3 {
        for j in 0..3 {
            if (i, j) != (1, 1) {
                assert_eq!(vcov[i][j], NAN);
            }
        }
    }
}

#[test]
fn zero_pivot_leaves_the_covariance_undefined() {
    let l = lower(2, &[(0, 0, 1), (1, 1, 0)]);
    let vcov = vcov_from_chol(&l, 2, &[0, 1], w(1));
    assert_eq!(vcov, vec![vec![NAN, NAN], vec![NAN, NAN]]);
}

#[test]
fn nothing_estimated() {
    let m: Vec<Vec<Exact>> = nan_vcov(2);
    assert_eq!(m, vec![vec![NAN, NAN], vec![NAN, NAN]]);
}

#[test]
fn designs_by_column() {
    let m = to_col_major(&ws(&[1, 2, 3, 4, 5, 6]), 2, 3);
    assert_eq!((m.nrows(), m.ncols()), (2, 3));
    assert_eq!(m.get(1, 0), w(4));
    assert_eq!(m.get(0, 2), w(3));
    let none: ColMajor<Exact> = to_col_major(&[], 0, 0);
    assert_eq!((none.nrows(), none.ncols()), (1, 1));
    assert_eq!(none.get(0, 0), w(0));
}

#[test]
fn a_shorter_design_leaves_the_rest() {
    let mut m = to_col_major(&ws(&[1, 2, 3, 4, 5, 6]), 3, 2);
    fill_col_major(&mut m, &ws(&[9, 8]), 1, 2);
    assert_eq!(m.get(0, 0), w(9));
    assert_eq!(m.get(0, 1), w(8));
    assert_eq!(m.get(1, 0), w(3));
    assert_eq!(m.get(2, 1), w(6));
}

#[test]
fn gram_of_a_design() {
    let g = lower_gram(&ws(&[1, 2, 1, 3]), 2, 2);
    assert_eq!(g.get(0, 0), w(2));
    assert_eq!(g.get(1, 0), w(5));
    assert_eq!(g.get(1, 1), w(13));
    assert_eq!(g.get(0, 1), w(0));
}
