//! The reported fit.
use crate::diagnostics::{notes_view, pin_grid, Boundary, Diagnostics};
use crate::inference::{is_square, nan_vcov};
use crate::layout::{lemma_vech_index, vech_index};
use crate::model::{lemma_vech, re_width, theta_width, vech, Family, ModelSpec};
use crate::reading::exact;
use crate::scalar::{constant, copied, filled, rows, Scalar};
use crate::varcorr::{fits_width, lemma_width_of, vech_q, width_is_found_back, width_of};
use vstd::prelude::*;

verus! {

/// A reported fit.
#[derive(Debug)]
pub struct Fit<S: Scalar> {
    /// Fixed effects; undefined for a dropped column.
    pub beta: Vec<S>,
    /// Standard errors of the targets; undefined elsewhere.
    pub se: Vec<S>,
    /// Covariance of the fixed effects, on the targets.
    pub vcov: Vec<Vec<S>>,
    /// Squared variance parameters on the scale of the response.
    pub tau2: Vec<S>,
    /// Residual scale of the family.
    pub dispersion: S,
    /// What the fit says of itself.
    pub diagnostics: Diagnostics<S>,
    /// Covariance of the random effects, one packed block per grouping.
    pub varcorr: Vec<Vec<S>>,
    /// Standard errors of the random-effect standard deviations.
    pub stddev_se: Vec<S>,
    /// Evaluations of the objective.
    pub n_eval: usize,
    /// The minimized criterion.
    pub deviance: S,
    /// The log-likelihood.
    pub loglik: S,
    /// Estimated parameters.
    pub df: usize,
    /// The criterion is the restricted one.
    pub reml: bool,
    /// Mean of each row.
    pub fitted: Vec<S>,
    /// Conditional modes, grouping by grouping, level by level.
    pub ranef: Vec<S>,
    /// Level count of each grouping.
    pub ranef_levels: Vec<usize>,
}

impl<S: Scalar> Fit<S> {
    /// Nothing was estimated: every number is undefined, every list that depends
    /// on an estimate is empty, and no parameter is counted.
    pub open spec fn is_unestimated(&self, p: nat, n_theta: nat) -> bool {
        &&& self.beta@ == constant(p, S::nan_of())
        &&& self.se@ == constant(p, S::nan_of())
        &&& rows(self.vcov@) == constant(p, constant(p, S::nan_of()))
        &&& self.tau2@ == constant(n_theta, S::nan_of())
        &&& self.dispersion == S::nan_of()
        &&& !self.diagnostics.converged
        &&& !self.diagnostics.singular
        &&& self.diagnostics.boundary is Interior
        &&& self.diagnostics.pinned@.len() == 0
        &&& self.diagnostics.notes@.len() == 0
        &&& self.varcorr@.len() == 0
        &&& self.stddev_se@.len() == 0
        &&& self.n_eval == 0
        &&& self.deviance == S::nan_of()
        &&& self.loglik == S::nan_of()
        &&& self.df == 0
        &&& self.fitted@.len() == 0
        &&& self.ranef@.len() == 0
        &&& self.ranef_levels@.len() == 0
    }

    /// The two report the same, in every field.
    pub open spec fn same(&self, other: &Fit<S>) -> bool {
        &&& self.beta@ == other.beta@
        &&& self.se@ == other.se@
        &&& rows(self.vcov@) == rows(other.vcov@)
        &&& self.tau2@ == other.tau2@
        &&& self.dispersion == other.dispersion
        &&& self.diagnostics.converged == other.diagnostics.converged
        &&& self.diagnostics.singular == other.diagnostics.singular
        &&& self.diagnostics.aliased@ == other.diagnostics.aliased@
        &&& self.diagnostics.boundary == other.diagnostics.boundary
        &&& rows(self.diagnostics.pinned@) == rows(other.diagnostics.pinned@)
        &&& notes_view(self.diagnostics.notes@) == notes_view(other.diagnostics.notes@)
        &&& rows(self.varcorr@) == rows(other.varcorr@)
        &&& self.stddev_se@ == other.stddev_se@
        &&& self.n_eval == other.n_eval
        &&& self.deviance == other.deviance
        &&& self.loglik == other.loglik
        &&& self.df == other.df
        &&& self.reml == other.reml
        &&& self.fitted@ == other.fitted@
        &&& self.ranef@ == other.ranef@
        &&& self.ranef_levels@ == other.ranef_levels@
    }

    /// Whether the fit reached its convergence criterion.
    pub fn converged(&self) -> (r: bool)
        ensures
            r == self.diagnostics.converged,
    {
        self.diagnostics.converged
    }

    /// Whether a variance component is pinned or negligible.
    pub fn singular(&self) -> (r: bool)
        ensures
            r == self.diagnostics.singular,
    {
        self.diagnostics.singular
    }

    /// For each column, whether it was dropped as redundant.
    pub fn aliased(&self) -> (r: &Vec<bool>)
        ensures
            r@ == self.diagnostics.aliased@,
    {
        &self.diagnostics.aliased
    }

    /// Standard deviation of each effect of grouping `g`, and the correlations
    /// between them.
    pub fn stddev_corr(&self, g: usize) -> (r: (Vec<S>, Vec<Vec<S>>))
        requires
            g < self.varcorr@.len(),
        ensures
            r.0@ == stddevs(self.varcorr@[g as int]@),
            is_square(r.1@, width_of(self.varcorr@[g as int]@.len())),
            forall|i: int, j: int|
                0 <= i < r.1@.len() && 0 <= j < r.1@.len() ==> #[trigger] r.1@[i]@[j]
                    == correlation(self.varcorr@[g as int]@, i, j),
    {
        let block: &Vec<S> = &self.varcorr[g];
        let q: usize = vech_q(block.len());
        proof {
            lemma_block_width(block@.len());
        }
        let mut sd: Vec<S> = Vec::with_capacity(q);
        let mut at: usize = 0;
        let mut c: usize = 0;
        while c < q
            invariant
                c <= q,
                q == width_of(block@.len()),
                vech(q as nat) <= block@.len(),
                c < q ==> at == vech_index(q as nat, c as int, c as int),
                sd@ == stddevs(block@).take(c as int),
            decreases q - c,
        {
            proof {
                lemma_vech_index(q as nat, c as int, c as int);
                if c + 1 < q {
                    lemma_vech_index(q as nat, c + 1, c + 1);
                }
            }
            assert(block.len() == block@.len());
            sd.push(block[at].sqrt());
            if c + 1 < q {
                at = at + (q - c);
            }
            c = c + 1;
        }
        assert(sd@ =~= stddevs(block@));
        let mut corr: Vec<Vec<S>> = Vec::with_capacity(q);
        let mut i: usize = 0;
        while i < q
            invariant
                i <= q,
                q == width_of(block@.len()),
                vech(q as nat) <= block@.len(),
                sd@ == stddevs(block@),
                corr@.len() == i,
                forall|a: int|
                    0 <= a < i ==> (#[trigger] corr@[a])@ == Seq::new(
                        q as nat,
                        |b: int| correlation(block@, a, b),
                    ),
            decreases q - i,
        {
            let row: Vec<S> = correlation_row(block, q, sd.as_slice(), i);
            corr.push(row);
            i = i + 1;
        }
        (sd, corr)
    }
}

/// The largest triangle that fits into a block does fit.
proof fn lemma_block_width(len: nat)
    ensures
        vech(width_of(len)) <= len,
{
    let q = lemma_some_width(len);
    lemma_width_of(len, q);
}

/// Some triangle is the largest that fits.
proof fn lemma_some_width(len: nat) -> (q: nat)
    ensures
        fits_width(len, q),
    decreases len,
{
    if len == 0 {
        lemma_vech(0);
        0
    } else {
        let q = lemma_some_width((len - 1) as nat);
        lemma_vech((q + 1) as nat);
        if len < vech((q + 1) as nat) {
            q
        } else {
            q + 1
        }
    }
}

/// Square roots of the diagonal of a packed covariance block.
pub open spec fn stddevs<S: Scalar>(block: Seq<S>) -> Seq<S> {
    let q = width_of(block.len());
    Seq::new(q, |i: int| block[vech_index(q, i, i)].root())
}

/// Correlation of effects `i` and `j` of a packed covariance block: their
/// covariance over their standard deviations, and 1 of an effect with itself.
pub open spec fn correlation<S: Scalar>(block: Seq<S>, i: int, j: int) -> S {
    let q = width_of(block.len());
    if i == j {
        S::one_of()
    } else if j < i {
        block[vech_index(q, i, j)].quotient(stddevs(block)[i].product(stddevs(block)[j]))
    } else {
        block[vech_index(q, j, i)].quotient(stddevs(block)[j].product(stddevs(block)[i]))
    }
}

/// Correlations are symmetric.
pub proof fn correlation_is_symmetric<S: Scalar>(block: Seq<S>, i: int, j: int)
    ensures
        correlation(block, i, j) == correlation(block, j, i),
{
}

/// A pin flag pairs with the standard deviation of the same effect: where anything
/// is pinned, a block has as many flags as standard deviations.
pub proof fn pins_pair_with_stddevs<S: Scalar>(mask: u64, varcorr: Seq<Seq<S>>, g: int)
    requires
        mask != 0,
        0 <= g < varcorr.len(),
    ensures
        pin_grid(mask, varcorr)[g].len() == stddevs(varcorr[g]).len(),
{
}

/// Entry `(r, c)` of a packed block, of `q` effects.
fn packed_entry<S: Scalar>(block: &Vec<S>, q: usize, r: usize, c: usize) -> (v: S)
    requires
        c <= r < q,
        vech(q as nat) <= block@.len(),
    ensures
        v == block@[vech_index(q as nat, r as int, c as int)],
{
    let mut at: usize = r;
    let mut k: usize = 0;
    while k < c
        invariant
            k <= c,
            c <= r < q,
            vech(q as nat) <= block@.len(),
            at == vech_index(q as nat, r as int, k as int),
        decreases c - k,
    {
        proof {
            lemma_vech_index(q as nat, r as int, k as int);
            lemma_vech_index(q as nat, r as int, k + 1);
            assert(block.len() == block@.len());
        }
        at = at + (q - k - 1);
        k = k + 1;
    }
    proof {
        lemma_vech_index(q as nat, r as int, c as int);
    }
    block[at]
}

/// Row `i` of the correlations of a block.
fn correlation_row<S: Scalar>(block: &Vec<S>, q: usize, sd: &[S], i: usize) -> (row: Vec<S>)
    requires
        i < q,
        q == width_of(block@.len()),
        vech(q as nat) <= block@.len(),
        sd@ == stddevs(block@),
    ensures
        row@ == Seq::new(q as nat, |b: int| correlation(block@, i as int, b)),
{
    let mut row: Vec<S> = Vec::with_capacity(q);
    let mut j: usize = 0;
    while j < q
        invariant
            j <= q,
            i < q,
            q == width_of(block@.len()),
            vech(q as nat) <= block@.len(),
            sd@ == stddevs(block@),
            row@.len() == j,
            forall|b: int| 0 <= b < j ==> #[trigger] row@[b] == correlation(block@, i as int, b),
        decreases q - j,
    {
        if i == j {
            row.push(S::one());
        } else if j < i {
            row.push(packed_entry(block, q, i, j).over(sd[i].times(sd[j])));
        } else {
            row.push(packed_entry(block, q, j, i).over(sd[j].times(sd[i])));
        }
        j = j + 1;
    }
    row
}

/// The log-likelihood of a linear mixed model with this deviance.
pub open spec fn lmm_loglik_of<S: Scalar>(deviance: S, n: nat, p: nat) -> S {
    if !deviance.finite() || n <= p {
        S::nan_of()
    } else {
        deviance.sum_with(
            S::count_of((n - p) as usize).product(S::one_plus_ln_two_pi_of()),
        ).minus_half()
    }
}

/// The restricted criterion of a linear mixed model on the scale of a
/// log-likelihood: `-(deviance + (n - p) (1 + ln 2 pi)) / 2`. Undefined for a
/// deviance that is not finite and for a design without residual degrees of
/// freedom.
pub fn lmm_loglik<S: Scalar>(deviance: S, n: usize, p: usize) -> (r: S)
    ensures
        r == lmm_loglik_of(deviance, n as nat, p as nat),
        deviance.finite() && n > p ==> r == deviance.sum_with(
            S::count_of((n - p) as usize).product(S::one_plus_ln_two_pi_of()),
        ).minus_half(),
        !deviance.finite() || n <= p ==> r == S::nan_of(),
{
    if !deviance.is_finite() || n <= p {
        return S::nan();
    }
    deviance.plus(S::from_count(n - p).times(S::one_plus_ln_two_pi())).neg_half()
}

/// The log-likelihood of a generalized mixed model with this deviance.
pub open spec fn glmm_loglik_of<S: Scalar>(family: Family, deviance: S, saturated: S) -> S {
    if !deviance.finite() {
        S::nan_of()
    } else if family is Gamma || family is NegativeBinomial {
        deviance.minus_half()
    } else {
        deviance.minus_half().sum_with(saturated)
    }
}

/// The log-likelihood of a generalized mixed model: half of the deviance, with
/// the other sign, plus the log-likelihood `saturated` of the saturated model. A
/// gamma deviance holds that part already, and so does a negative binomial one: its
/// search runs over the dispersion too, on minus twice the log-likelihood itself.
/// Undefined for a deviance that is not finite.
pub fn glmm_loglik<S: Scalar>(family: Family, deviance: S, saturated: S) -> (r: S)
    ensures
        r == glmm_loglik_of(family, deviance, saturated),
        !deviance.finite() ==> r == S::nan_of(),
        deviance.finite() && (family is Gamma || family is NegativeBinomial) ==> r
            == deviance.minus_half(),
        deviance.finite() && (family is Binomial || family is Poisson || family is InverseGaussian
            || family is Gaussian) ==> r == deviance.minus_half().sum_with(saturated),
{
    if !deviance.is_finite() {
        return S::nan();
    }
    match family {
        Family::Gamma { .. } | Family::NegativeBinomial { .. } => deviance.neg_half(),
        _ => deviance.neg_half().plus(saturated),
    }
}

/// Scale parameters that a family estimates.
pub open spec fn scale_df(family: Family, dispersion_fixed: bool) -> nat {
    match family {
        Family::Gaussian | Family::NegativeBinomial { .. } | Family::InverseGaussian { .. } => 1,
        Family::Gamma { .. } => if dispersion_fixed {
            0
        } else {
            1
        },
        Family::Binomial { .. } | Family::Poisson { .. } => 0,
    }
}

/// Estimated parameters of a fit: the retained fixed effects, the variance
/// parameters, and the scale where the family estimates one. A gamma dispersion
/// that is held fixed is not estimated.
pub fn model_df(
    family: Family,
    p_retained: usize,
    n_theta: usize,
    dispersion_fixed: bool,
) -> (r: usize)
    requires
        p_retained + n_theta < usize::MAX,
    ensures
        r == p_retained + n_theta + scale_df(family, dispersion_fixed),
        family is Gaussian || family is NegativeBinomial || family is InverseGaussian ==> r
            == p_retained + n_theta + 1,
        family is Gamma && !dispersion_fixed ==> r == p_retained + n_theta + 1,
        family is Gamma && dispersion_fixed ==> r == p_retained + n_theta,
        family is Binomial || family is Poisson ==> r == p_retained + n_theta,
{
    let scale: usize = match family {
        Family::Gaussian | Family::NegativeBinomial { .. } | Family::InverseGaussian { .. } => 1,
        Family::Gamma { .. } => if dispersion_fixed {
            0
        } else {
            1
        },
        Family::Binomial { .. } | Family::Poisson { .. } => 0,
    };
    p_retained + n_theta + scale
}

/// Holding a dispersion fixed costs a gamma fit one parameter less, and no other
/// fit anything.
pub proof fn held_dispersion_costs_no_parameter(family: Family)
    ensures
        scale_df(family, false) == scale_df(family, true) + if family is Gamma {
            1nat
        } else {
            0
        },
{
}

/// A fit of `p` fixed effects and `n_theta` variance parameters in which nothing
/// was estimated.
fn unestimated<S: Scalar>(
    p: usize,
    n_theta: usize,
    aliased: Vec<bool>,
    reml: bool,
) -> (r: Fit<S>)
    ensures
        r.is_unestimated(p as nat, n_theta as nat),
        r.diagnostics.aliased@ == aliased@,
        r.reml == reml,
{
    let mut diagnostics: Diagnostics<S> = Diagnostics::from_flags(false, false, p);
    diagnostics.aliased = aliased;
    let fit: Fit<S> = Fit {
        beta: filled(p, S::nan()),
        se: filled(p, S::nan()),
        vcov: nan_vcov(p),
        tau2: filled(n_theta, S::nan()),
        dispersion: S::nan(),
        diagnostics,
        varcorr: Vec::new(),
        stddev_se: Vec::new(),
        n_eval: 0,
        deviance: S::nan(),
        loglik: S::nan(),
        df: 0,
        reml,
        fitted: Vec::new(),
        ranef: Vec::new(),
        ranef_levels: Vec::new(),
    };
    assert(rows(fit.vcov@) =~= constant(p as nat, constant(p as nat, S::nan_of())));
    fit
}

/// The fit of a generalized mixed model whose fixed effects cannot be estimated:
/// as many rows as columns or fewer, or no column at all.
pub fn degenerate_glmm_fit<S: Scalar>(p: usize, n_theta: usize) -> (r: Fit<S>)
    ensures
        r.is_unestimated(p as nat, n_theta as nat),
        r.diagnostics.aliased@ == constant(p as nat, false),
        !r.reml,
{
    unestimated(p, n_theta, filled(p, false), false)
}

/// The fit of a model in which a redundant column is also a random slope: no
/// reduced model exists. The redundant columns are named all the same.
pub fn unfittable_random_slope_fit<S: Scalar>(
    p: usize,
    model: &ModelSpec,
    aliased: &[bool],
) -> (r: Fit<S>)
    requires
        2 * re_width(model@.re) <= usize::MAX,
    ensures
        r.is_unestimated(p as nat, re_width(model@.re)),
        r.diagnostics.aliased@ == aliased@,
        r.reml == (model.family is Gaussian),
{
    let n_theta: usize = theta_width(model.re.as_ref());
    let reml: bool = matches!(model.family, Family::Gaussian);
    unestimated(p, n_theta, copied(aliased), reml)
}

/// A fit counts the fixed effects, the variance parameters, and one parameter more
/// exactly if its family has a scale to estimate: a Gaussian, a negative binomial or an
/// inverse Gaussian one does, a gamma one where its dispersion is not held, and a binomial
/// or Poisson one never.
pub proof fn one_parameter_for_an_estimated_scale(family: Family, dispersion_fixed: bool)
    ensures
        scale_df(family, dispersion_fixed) == (match family {
            Family::Gaussian => 1int,
            Family::Binomial { .. } => 0,
            Family::Poisson { .. } => 0,
            Family::Gamma { .. } => if dispersion_fixed {
                0
            } else {
                1
            },
            Family::InverseGaussian { .. } => 1,
            Family::NegativeBinomial { .. } => 1,
        }),
{
}

/// Minus twice the log-likelihood of a linear mixed model is its deviance and the
/// constant of the Gaussian density, once for each residual degree of freedom.
pub proof fn linear_criterion_is_minus_twice_the_loglik<S: Scalar>(
    value: spec_fn(S) -> real,
    deviance: S,
    n: nat,
    p: nat,
)
    requires
        exact(value),
        deviance.finite(),
        S::one_plus_ln_two_pi_of().finite(),
        p < n <= usize::MAX,
    ensures
        lmm_loglik_of(deviance, n, p).finite(),
        -2real * value(lmm_loglik_of(deviance, n, p)) == value(deviance) + (n - p) as real * value(
            S::one_plus_ln_two_pi_of(),
        ),
{
}

/// Minus twice the log-likelihood of a generalized mixed model is its deviance: all of it
/// for a gamma and a negative binomial response, and without minus twice the
/// log-likelihood of the saturated model for the others.
pub proof fn generalized_deviance_is_minus_twice_the_loglik<S: Scalar>(
    value: spec_fn(S) -> real,
    family: Family,
    deviance: S,
    saturated: S,
)
    requires
        exact(value),
        deviance.finite(),
        saturated.finite(),
    ensures
        glmm_loglik_of(family, deviance, saturated).finite(),
        -2real * value(glmm_loglik_of(family, deviance, saturated)) == (match family {
            Family::Gamma { .. } => value(deviance),
            Family::NegativeBinomial { .. } => value(deviance),
            Family::Binomial { .. } => value(deviance) - 2real * value(saturated),
            Family::Poisson { .. } => value(deviance) - 2real * value(saturated),
            Family::InverseGaussian { .. } => value(deviance) - 2real * value(saturated),
            Family::Gaussian => value(deviance) - 2real * value(saturated),
        }),
{
}

/// A packed block over `q` effects has `q` standard deviations, the roots of its
/// diagonal; an effect has correlation 1 with itself, and with another the covariance over
/// the two standard deviations.
pub proof fn deviations_and_correlations_rebuild_the_block<S: Scalar>(
    value: spec_fn(S) -> real,
    block: Seq<S>,
    q: nat,
    i: int,
    j: int,
)
    requires
        2 * block.len() == q * (q + 1),
        0 <= j <= i < q,
    ensures
        width_of(block.len()) == q,
        stddevs(block).len() == q,
        stddevs(block)[i] == block[vech_index(q, i, i)].root(),
        correlation(block, i, i) == S::one_of(),
        j < i ==> correlation(block, i, j) == block[vech_index(q, i, j)].quotient(
            stddevs(block)[i].product(stddevs(block)[j]),
        ),
        correlation(block, j, i) == correlation(block, i, j),
        exact(value) && j < i && block[vech_index(q, i, j)].finite() && stddevs(block)[i].finite()
            && stddevs(block)[j].finite() && value(stddevs(block)[i]) != 0real && value(
            stddevs(block)[j],
        ) != 0real ==> value(correlation(block, i, j)) * value(stddevs(block)[i]) * value(
            stddevs(block)[j],
        ) == value(block[vech_index(q, i, j)]),
{
    lemma_vech(q);
    width_is_found_back(q);
    if exact(value) && j < i && block[vech_index(q, i, j)].finite() && stddevs(block)[i].finite()
        && stddevs(block)[j].finite() && value(stddevs(block)[i]) != 0real && value(
        stddevs(block)[j],
    ) != 0real {
        let a = value(stddevs(block)[i]);
        let b = value(stddevs(block)[j]);
        let v = value(block[vech_index(q, i, j)]);
        assert(a * b != 0real && (v / (a * b)) * a * b == v) by (nonlinear_arith)
            requires
                a != 0real,
                b != 0real,
        ;
    }
}

/// A fit that estimates nothing says so in every field: each estimate undefined, nothing
/// listed, nothing counted, not converged and not singular.
pub proof fn unestimated_fits_say_nothing<S: Scalar>(
    f: Fit<S>,
    p: nat,
    n_theta: nat,
    i: int,
    j: int,
    k: int,
)
    requires
        f.is_unestimated(p, n_theta),
    ensures
        f.beta@.len() == p && f.se@.len() == p && f.vcov@.len() == p && f.tau2@.len() == n_theta,
        0 <= i < p ==> f.beta@[i] == S::nan_of() && f.se@[i] == S::nan_of() && f.vcov@[i]@.len()
            == p,
        0 <= i < p && 0 <= j < p ==> f.vcov@[i]@[j] == S::nan_of(),
        0 <= k < n_theta ==> f.tau2@[k] == S::nan_of(),
        f.dispersion == S::nan_of() && f.deviance == S::nan_of() && f.loglik == S::nan_of(),
        !f.diagnostics.converged && !f.diagnostics.singular,
        f.diagnostics.boundary == Boundary::Interior,
        f.diagnostics.pinned@.len() == 0 && f.diagnostics.notes@.len() == 0,
        f.varcorr@.len() == 0 && f.stddev_se@.len() == 0 && f.fitted@.len() == 0,
        f.ranef@.len() == 0 && f.ranef_levels@.len() == 0,
        f.n_eval == 0 && f.df == 0,
{
    assert(rows(f.vcov@).len() == f.vcov@.len());
    if 0 <= i < p {
        assert(rows(f.vcov@)[i] == f.vcov@[i]@);
        assert(rows(f.vcov@)[i] == constant(p, S::nan_of()));
    }
}

} // verus!
