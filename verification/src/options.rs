//! Options of a fit, and where its search starts.
use crate::scalar::{copied, Scalar};
use vstd::prelude::*;

verus! {

/// Where the standard errors of a generalized mixed model come from.
#[derive(Clone, Copy, Debug, PartialEq, Eq, Structural)]
pub enum WaldSe {
    /// The joint Hessian of the variance parameters and the fixed effects.
    Hessian,
    /// The fixed-effects factor alone.
    Rx,
}

/// Where a search starts. An empty part is a cold start of that part.
#[derive(Debug)]
pub struct StartValues<S: Scalar> {
    /// Fixed effects.
    pub beta: Vec<S>,
    /// Variance parameters, in declaration order.
    pub theta: Vec<S>,
}

/// Options of a fit.
#[derive(Debug)]
pub struct FitOptions<S: Scalar> {
    /// Coefficients to report standard errors of.
    pub target_indices: Vec<u32>,
    /// Prior weight of each row.
    pub weights: Option<Vec<S>>,
    /// Known part of the linear predictor of each row.
    pub offset: Option<Vec<S>>,
    /// Quadrature nodes; 1 is the Laplace approximation.
    pub nagq: u8,
    /// Where the standard errors come from.
    pub wald_se: WaldSe,
    /// Whether one fit may use several threads.
    pub parallel_inner: bool,
    /// A gamma dispersion to hold fixed.
    pub dispersion: Option<S>,
    /// Whether the search of a linear mixed model scores the boundary.
    pub boundary_score: bool,
}

/// What an optional vector holds.
pub open spec fn opt_seq<S>(v: Option<Vec<S>>) -> Option<Seq<S>> {
    match v {
        Some(v) => Some(v@),
        None => None,
    }
}

/// A copy of an optional vector.
pub fn copied_opt<S: Copy>(v: &Option<Vec<S>>) -> (r: Option<Vec<S>>)
    ensures
        opt_seq(r) == opt_seq(*v),
{
    match v {
        Some(v) => Some(copied(v.as_slice())),
        None => None,
    }
}

impl<S: Scalar> StartValues<S> {
    /// The two say the same.
    pub open spec fn same(&self, other: &StartValues<S>) -> bool {
        self.beta@ == other.beta@ && self.theta@ == other.theta@
    }
}

impl<S: Scalar> FitOptions<S> {
    /// The two say the same but for the targets.
    pub open spec fn same_but_targets(&self, other: &FitOptions<S>) -> bool {
        &&& opt_seq(self.weights) == opt_seq(other.weights)
        &&& opt_seq(self.offset) == opt_seq(other.offset)
        &&& self.nagq == other.nagq
        &&& self.wald_se == other.wald_se
        &&& self.parallel_inner == other.parallel_inner
        &&& self.dispersion == other.dispersion
        &&& self.boundary_score == other.boundary_score
    }

    /// These options with other targets.
    pub fn with_targets(&self, target_indices: Vec<u32>) -> (r: FitOptions<S>)
        ensures
            r.target_indices@ == target_indices@,
            r.same_but_targets(self),
    {
        FitOptions {
            target_indices,
            weights: copied_opt(&self.weights),
            offset: copied_opt(&self.offset),
            nagq: self.nagq,
            wald_se: self.wald_se,
            parallel_inner: self.parallel_inner,
            dispersion: self.dispersion,
            boundary_score: self.boundary_score,
        }
    }
}

impl<S: Scalar> Default for FitOptions<S> {
    /// No targets, no weights, no offset, the Laplace approximation, standard
    /// errors from the Hessian, one thread, an estimated dispersion, no score at the
    /// boundary.
    fn default() -> (r: FitOptions<S>)
        ensures
            r.target_indices@.len() == 0,
            r.weights is None,
            r.offset is None,
            r.nagq == 1,
            r.wald_se == WaldSe::Hessian,
            !r.parallel_inner,
            r.dispersion is None,
            !r.boundary_score,
    {
        FitOptions {
            target_indices: Vec::new(),
            weights: None,
            offset: None,
            nagq: 1,
            wald_se: WaldSe::Hessian,
            parallel_inner: false,
            dispersion: None,
            boundary_score: false,
        }
    }
}

/// The variance parameters to start from, as a kernel takes them: an empty part
/// of the start is no start.
pub fn warm_theta<'a, S: Scalar>(start: Option<&'a StartValues<S>>) -> (r: Option<&'a [S]>)
    ensures
        match r {
            Some(t) => start is Some && t@ == start->0.theta@ && t@.len() > 0,
            None => start is None || start->0.theta@.len() == 0,
        },
{
    match start {
        Some(s) => if s.theta.len() > 0 {
            Some(s.theta.as_slice())
        } else {
            None
        },
        None => None,
    }
}

/// What an optional vector holds is there exactly if the vector is, entry by entry.
pub proof fn optional_vectors_are_read_as_they_are<S>(v: Option<Vec<S>>, i: int)
    ensures
        opt_seq(v) is Some <==> v is Some,
        v is Some ==> opt_seq(v)->0.len() == v->0@.len(),
        v is Some && 0 <= i < v->0@.len() ==> opt_seq(v)->0[i] == v->0@[i],
{
}

/// Options that differ in their targets alone have every other option in common.
pub proof fn other_options_are_kept<S: Scalar>(a: FitOptions<S>, b: FitOptions<S>)
    requires
        a.same_but_targets(&b),
    ensures
        a.weights is Some <==> b.weights is Some,
        a.weights is Some ==> a.weights->0@ == b.weights->0@,
        a.offset is Some <==> b.offset is Some,
        a.offset is Some ==> a.offset->0@ == b.offset->0@,
        a.nagq == b.nagq,
        a.wald_se == b.wald_se,
        a.parallel_inner == b.parallel_inner,
        a.dispersion == b.dispersion,
        a.boundary_score == b.boundary_score,
{
}

} // verus!
