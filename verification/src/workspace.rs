//! One workspace per shape: classify a design once, then fit draw after draw on
//! it.
use crate::glmm::{is_fresh, GlmmState};
use crate::groupings::{
    declared_extra_levels, declared_levels, declared_slope_cols, declared_widths, layout_fits,
    own_extra_cols, re_slope_cols, widened,
    LmmGroupings,
};
use crate::matrix::{at_least_one, zeros, ColMajor};
use crate::model::{
    Family, GroupingRelation, GroupingView, ModelSpec, ModelView, ReStructure,
};
use crate::options::FitOptions;
use crate::perm::Perm;
use crate::routing::{classify_design, in_envelope, route, slope_extras_are_sparse, Solver};
use crate::scalar::{constant, filled, rows, Scalar};
use crate::shape::shape_error;
use vstd::prelude::*;

verus! {

/// A route whose kernel assembles its report itself.
#[derive(Clone, Copy, Debug, PartialEq, Eq, Structural)]
pub enum PrebuiltRoute {
    /// Negative binomial without random effects.
    GlmNb,
    /// Negative binomial with random effects, dense.
    GlmmNbDense,
    /// Linear mixed, sparse.
    LmmSparse,
    /// Generalized mixed, sparse.
    GlmmSparse,
    /// Negative binomial with random effects, sparse.
    GlmmNbSparse,
}

/// The kernel that fits a design.
#[derive(Clone, Copy, Debug, PartialEq, Eq, Structural)]
pub enum Route {
    /// Least squares.
    Ols,
    /// A generalized linear model.
    Glm,
    /// A linear mixed model, dense.
    LmmDense,
    /// A generalized mixed model, dense.
    GlmmDense,
    /// A kernel that assembles its report itself.
    Prebuilt(PrebuiltRoute),
}

/// The route of a sized model.
pub open spec fn route_of(m: ModelView) -> Route {
    match m.re {
        None => match m.family {
            Family::Gaussian => Route::Ols,
            Family::NegativeBinomial { .. } => Route::Prebuilt(PrebuiltRoute::GlmNb),
            _ => Route::Glm,
        },
        Some(_) => match route(m) {
            Solver::NoZ => match m.family {
                Family::Gaussian => Route::LmmDense,
                Family::NegativeBinomial { .. } => Route::Prebuilt(PrebuiltRoute::GlmmNbDense),
                _ => Route::GlmmDense,
            },
            Solver::Sparse => match m.family {
                Family::Gaussian => Route::Prebuilt(PrebuiltRoute::LmmSparse),
                Family::NegativeBinomial { .. } => Route::Prebuilt(PrebuiltRoute::GlmmNbSparse),
                _ => Route::Prebuilt(PrebuiltRoute::GlmmSparse),
            },
        },
    }
}

/// What each route keeps from draw to draw.
#[derive(Debug)]
pub enum FitKind<S: Scalar> {
    /// Least squares.
    Ols {
        /// The design, by columns.
        x_mat: ColMajor<S>,
    },
    /// A generalized linear model.
    Glm {
        /// The design, by columns.
        x_mat: ColMajor<S>,
    },
    /// A linear mixed model, dense.
    LmmDense {
        /// The layout of the random effects.
        groupings: LmmGroupings<S>,
        /// The design, by columns.
        x_mat: ColMajor<S>,
        /// The response without its offset.
        y_shifted: Vec<S>,
    },
    /// A generalized mixed model, dense.
    GlmmDense {
        /// Options and layout.
        state: GlmmState<S>,
        /// The design, by columns.
        x_mat: ColMajor<S>,
    },
    /// A kernel that assembles its report itself keeps nothing.
    Prebuilt(PrebuiltRoute),
}

/// A workspace for one shape. The route and the options that shape the buffers
/// are fixed when it is built; a draw that does not match them is refused, because
/// a draw with more levels than the shape would run into the block of the next
/// grouping.
#[derive(Debug)]
pub struct FitWorkspace<S: Scalar> {
    /// Most rows of a draw.
    pub n_max: usize,
    /// Columns of the design.
    pub p: usize,
    /// The model, with its level counts.
    pub sized: ModelSpec,
    /// The order that the model holds the groupings in.
    pub perm: Perm,
    /// Primary levels; 0 without random effects.
    pub build_primary_levels: usize,
    /// Levels that each extra grouping has room for.
    pub build_extra_capacity: Vec<usize>,
    /// Quadrature nodes.
    pub nagq: u8,
    /// Number of targets.
    pub n_targets: usize,
    /// Draws have weights.
    pub has_weights: bool,
    /// Draws have an offset.
    pub has_offset: bool,
    /// One fit may use several threads.
    pub parallel_inner: bool,
    /// What the route keeps.
    pub kind: FitKind<S>,
}

/// A matrix for designs of up to `n_max` rows and `p` columns.
pub open spec fn holds_design<S: Scalar>(m: ColMajor<S>, n_max: nat, p: nat) -> bool {
    &&& m.wf()
    &&& m.height() == at_least_one(n_max)
    &&& m.width() == at_least_one(p)
}

impl<S: Scalar> FitKind<S> {
    /// The route that this is kept for.
    pub open spec fn route(&self) -> Route {
        match *self {
            FitKind::Ols { .. } => Route::Ols,
            FitKind::Glm { .. } => Route::Glm,
            FitKind::LmmDense { .. } => Route::LmmDense,
            FitKind::GlmmDense { .. } => Route::GlmmDense,
            FitKind::Prebuilt(r) => Route::Prebuilt(r),
        }
    }

    /// The buffers hold any draw of up to `n_max` rows and `p` columns.
    pub open spec fn wf(&self, n_max: nat, p: nat) -> bool {
        match *self {
            FitKind::Ols { x_mat } => holds_design(x_mat, n_max, p),
            FitKind::Glm { x_mat } => holds_design(x_mat, n_max, p),
            FitKind::LmmDense { groupings, x_mat, y_shifted } => {
                &&& groupings.wf()
                &&& holds_design(x_mat, n_max, p)
                &&& y_shifted@.len() == at_least_one(n_max)
            },
            FitKind::GlmmDense { state, x_mat } => {
                &&& state.groupings.wf()
                &&& !state.groupings.extra_slopes_any
                &&& holds_design(x_mat, n_max, p)
                &&& state.prior_w@.len() == at_least_one(n_max)
            },
            FitKind::Prebuilt(_) => true,
        }
    }

    /// Entry of row `i` in column `j` of the kept design.
    pub open spec fn design(&self, i: int, j: int) -> S {
        match *self {
            FitKind::Ols { x_mat } => x_mat.cell(i, j),
            FitKind::Glm { x_mat } => x_mat.cell(i, j),
            FitKind::LmmDense { x_mat, .. } => x_mat.cell(i, j),
            FitKind::GlmmDense { x_mat, .. } => x_mat.cell(i, j),
            FitKind::Prebuilt(_) => S::nan_of(),
        }
    }

    /// The layout of the random effects; none where the route keeps none.
    pub open spec fn layout(&self) -> Option<LmmGroupings<S>> {
        match *self {
            FitKind::LmmDense { groupings, .. } => Some(groupings),
            FitKind::GlmmDense { state, .. } => Some(state.groupings),
            _ => None,
        }
    }
}

/// Levels that extra grouping `g` has room for, over `n_primary` primary levels.
pub open spec fn capacity_of(g: GroupingView, n_primary: nat) -> nat {
    declared_extra_levels(g.relation, n_primary)
}

/// Primary levels that a workspace for `n_max` rows is built for.
pub open spec fn primary_levels(m: ModelView, n_max: nat) -> nat {
    match m.re {
        Some(re) => re.sizing.clusters_at(n_max),
        None => 0,
    }
}

/// The extra groupings of a model.
pub open spec fn extras_of(m: ModelView) -> Seq<GroupingView> {
    match m.re {
        Some(re) => re.extra_groupings,
        None => Seq::empty(),
    }
}

/// The buffers of a shape can be numbered: its design, its level capacities and,
/// for a mixed model on a dense route, its layout.
pub open spec fn buildable(m: ModelView, n_max: nat, p: nat) -> bool {
    &&& n_max * p <= usize::MAX
    &&& forall|g: int|
        0 <= g < extras_of(m).len() ==> capacity_of(
            #[trigger] extras_of(m)[g],
            primary_levels(m, n_max),
        ) <= usize::MAX
    &&& route_of(m) is LmmDense ==> layout_fits(
        m.re->0,
        n_max,
        widened(m.re->0.slopes),
        own_extra_cols(m.re->0),
    )
    &&& route_of(m) is GlmmDense ==> layout_fits(
        m.re->0,
        n_max,
        widened(m.re->0.slopes),
        Seq::empty(),
    )
}

/// The layout of the random effects of a mixed model over `n_max` rows: a block for
/// each grouping, as wide as its slopes make it, with the declared levels, and every
/// slope on its own design column.
pub open spec fn holds_layout<S: Scalar>(g: LmmGroupings<S>, m: ModelView, n_max: nat) -> bool {
    let re = m.re->0;
    &&& g.wf()
    &&& g.widths() == declared_widths(
        re.extra_groupings.len(),
        widened(re.slopes),
        own_extra_cols(re),
    )
    &&& g.levels() == declared_levels(re, n_max)
    &&& g.slope_cols() == declared_slope_cols(re)
}

/// A model over `n_max` rows has one layout, but for its scales: the blocks, the
/// levels, the slope columns and what follows from them.
pub proof fn one_model_has_one_layout<S: Scalar>(
    a: LmmGroupings<S>,
    b: LmmGroupings<S>,
    m: ModelView,
    n_max: nat,
)
    requires
        holds_layout(a, m, n_max),
        holds_layout(b, m, n_max),
    ensures
        a.widths() == b.widths(),
        a.levels() == b.levels(),
        a.slope_cols() == b.slope_cols(),
        a.k_total == b.k_total,
        a.extra_slopes_any == b.extra_slopes_any,
{
    assert(a.widths().len() == 1 + a.extra_q@.len());
    assert(b.widths().len() == 1 + b.extra_q@.len());
    assert forall|e: int| 0 <= e < a.extra_q@.len() implies (#[trigger] a.extra_slope_cols@[e])@
        == b.extra_slope_cols@[e]@ by {
        assert(a.slope_cols()[e + 1] == b.slope_cols()[e + 1]);
    }
    if a.extra_slopes_any {
        let e = choose|e: int|
            0 <= e < a.extra_q@.len() && (#[trigger] a.extra_slope_cols@[e])@.len() > 0;
        assert(b.extra_slope_cols@[e]@.len() > 0);
    }
    if b.extra_slopes_any {
        let e = choose|e: int|
            0 <= e < b.extra_q@.len() && (#[trigger] b.extra_slope_cols@[e])@.len() > 0;
        assert(a.extra_slope_cols@[e]@.len() > 0);
    }
}

/// The buffers as they are built: nothing of a draw in them, unit weights, and no
/// row of a factor scaled.
pub open spec fn is_fresh_kind<S: Scalar>(kind: FitKind<S>, n_max: nat, p: nat) -> bool {
    &&& !(kind is Prebuilt) ==> forall|i: int, j: int|
        0 <= i < at_least_one(n_max) && 0 <= j < at_least_one(p) ==> #[trigger] kind.design(i, j)
            == S::zero_of()
    &&& kind.layout() matches Some(g) ==> g.unscaled_rows()
    &&& kind matches FitKind::LmmDense { y_shifted, .. } ==> y_shifted@ == constant(
        at_least_one(n_max),
        S::zero_of(),
    )
    &&& kind matches FitKind::GlmmDense { state, .. } ==> is_fresh(state, n_max)
}

impl<S: Scalar> FitWorkspace<S> {
    /// The shape is one that can be fitted, the route is that of the model, the
    /// layout is that of the model's groupings, and the buffers hold any draw of
    /// the shape. Where draws have no weights, those of the workspace are 1.
    pub open spec fn wf(&self) -> bool {
        &&& shape_error(self.sized@, self.p as nat, self.nagq) is None
        &&& self.kind.route() == route_of(self.sized@)
        &&& self.kind.wf(self.n_max as nat, self.p as nat)
        &&& self.kind.layout() matches Some(g) ==> holds_layout(
            g,
            self.sized@,
            self.n_max as nat,
        )
        &&& !self.has_weights ==> (self.kind matches FitKind::GlmmDense { state, .. }
            ==> state.prior_w@ == constant(at_least_one(self.n_max as nat), S::one_of()))
        &&& self.build_primary_levels == primary_levels(self.sized@, self.n_max as nat)
        &&& self.build_extra_capacity@.len() == extras_of(self.sized@).len()
        &&& forall|g: int|
            0 <= g < self.build_extra_capacity@.len() ==> #[trigger] self.build_extra_capacity@[g]
                == capacity_of(extras_of(self.sized@)[g], self.build_primary_levels as nat)
    }

    /// The route of the workspace.
    pub fn route(&self) -> (r: Route)
        ensures
            r == self.kind.route(),
    {
        match &self.kind {
            FitKind::Ols { .. } => Route::Ols,
            FitKind::Glm { .. } => Route::Glm,
            FitKind::LmmDense { .. } => Route::LmmDense,
            FitKind::GlmmDense { .. } => Route::GlmmDense,
            FitKind::Prebuilt(r) => Route::Prebuilt(*r),
        }
    }

    /// Set what the kernel multiplies each row of each factor by, for the draw at
    /// hand; what an earlier draw set is gone, and the rest stays as it is.
    pub fn set_slope_scales(&mut self, primary: Vec<S>, extra: Vec<Vec<S>>)
        requires
            old(self).wf(),
            old(self).kind.layout() is Some,
            primary@.len() == old(self).kind.layout()->0.primary_q,
            extra@.len() == old(self).kind.layout()->0.extra_q@.len(),
            forall|e: int|
                0 <= e < extra@.len() ==> (#[trigger] extra@[e])@.len()
                    == old(self).kind.layout()->0.extra_q@[e],
        ensures
            final(self).wf(),
            *final(self) == old(self).rescaled(primary, extra),
            final(self).kind.layout()->0.scales() == seq![primary@] + rows(extra@),
    {
        match &mut self.kind {
            FitKind::LmmDense { groupings, .. } => {
                groupings.set_slope_scales(primary, extra);
            },
            FitKind::GlmmDense { state, .. } => {
                state.groupings.set_slope_scales(primary, extra);
            },
            _ => {},
        }
    }

    /// The workspace with other scales, and nothing else changed: the same route,
    /// shape and design, on the linear route the same response without its offset,
    /// and on the generalized one the same weights, weight flag, offset and use of
    /// threads.
    pub open spec fn rescaled(&self, primary: Vec<S>, extra: Vec<Vec<S>>) -> FitWorkspace<S> {
        FitWorkspace {
            kind: match self.kind {
                FitKind::LmmDense { groupings, x_mat, y_shifted } => FitKind::LmmDense {
                    groupings: groupings.rescaled(primary, extra),
                    x_mat,
                    y_shifted,
                },
                FitKind::GlmmDense { state, x_mat } => FitKind::GlmmDense {
                    state: GlmmState {
                        groupings: state.groupings.rescaled(primary, extra),
                        ..state
                    },
                    x_mat,
                },
                kind => kind,
            },
            ..*self
        }
    }

    /// The two are built for one shape, and for the same fixed options.
    pub open spec fn same_shape(&self, other: &FitWorkspace<S>) -> bool {
        &&& self.n_max == other.n_max
        &&& self.p == other.p
        &&& self.sized@ == other.sized@
        &&& self.perm == other.perm
        &&& self.nagq == other.nagq
        &&& self.n_targets == other.n_targets
        &&& self.has_weights == other.has_weights
        &&& self.has_offset == other.has_offset
        &&& self.parallel_inner == other.parallel_inner
    }

    /// Whether the route is least squares.
    pub fn is_ols(&self) -> (r: bool)
        ensures
            r == (self.kind.route() is Ols),
    {
        matches!(self.kind, FitKind::Ols { .. })
    }

    /// Whether the route is a generalized linear model.
    pub fn is_glm(&self) -> (r: bool)
        ensures
            r == (self.kind.route() is Glm),
    {
        matches!(self.kind, FitKind::Glm { .. })
    }

    /// Whether the route is the dense linear mixed one.
    pub fn is_lmm_dense(&self) -> (r: bool)
        ensures
            r == (self.kind.route() is LmmDense),
    {
        matches!(self.kind, FitKind::LmmDense { .. })
    }

    /// Whether the route is the dense generalized mixed one.
    pub fn is_glmm_dense(&self) -> (r: bool)
        ensures
            r == (self.kind.route() is GlmmDense),
    {
        matches!(self.kind, FitKind::GlmmDense { .. })
    }

    /// Whether the kernel assembles its report itself.
    pub fn is_prebuilt(&self) -> (r: bool)
        ensures
            r == (self.kind.route() is Prebuilt),
    {
        matches!(self.kind, FitKind::Prebuilt(_))
    }
}

/// The buffers of a route for a sized model.
fn build_kind<S: Scalar>(sized: &ModelSpec, n_max: usize, p: usize, nagq: u8) -> (r: FitKind<S>)
    requires
        shape_error(sized@, p as nat, nagq) is None,
        buildable(sized@, n_max as nat, p as nat),
    ensures
        r.route() == route_of(sized@),
        r.wf(n_max as nat, p as nat),
        r.layout() matches Some(g) ==> holds_layout(g, sized@, n_max as nat),
        is_fresh_kind(r, n_max as nat, p as nat),
{
    let re: &ReStructure = match &sized.re {
        None => {
            return match sized.family {
                Family::Gaussian => FitKind::Ols { x_mat: zeros(n_max, p) },
                Family::NegativeBinomial { .. } => FitKind::Prebuilt(PrebuiltRoute::GlmNb),
                _ => FitKind::Glm { x_mat: zeros(n_max, p) },
            };
        },
        Some(re) => re,
    };
    match classify_design(sized, nagq) {
        Solver::NoZ => match sized.family {
            Family::Gaussian => {
                let (slope_cols, extra_slope_cols): (Vec<usize>, Vec<Vec<usize>>) = re_slope_cols(
                    sized,
                );
                assert(rows(extra_slope_cols@) =~= own_extra_cols(sized@.re->0));
                let groupings: LmmGroupings<S> = LmmGroupings::from_cluster_spec_ext(
                    sized,
                    n_max,
                    slope_cols.as_slice(),
                    extra_slope_cols.as_slice(),
                );
                assert(groupings.slope_cols() =~= declared_slope_cols(sized@.re->0));
                let len: usize = if n_max == 0 {
                    1
                } else {
                    n_max
                };
                FitKind::LmmDense {
                    groupings,
                    x_mat: zeros(n_max, p),
                    y_shifted: filled(len, S::zero()),
                }
            },
            Family::NegativeBinomial { .. } => FitKind::Prebuilt(PrebuiltRoute::GlmmNbDense),
            _ => {
                let (slope_cols, _extra): (Vec<usize>, Vec<Vec<usize>>) = re_slope_cols(sized);
                let state: GlmmState<S> = GlmmState::for_cluster_spec(
                    sized,
                    n_max,
                    slope_cols.as_slice(),
                );
                proof {
                    // On this route no extra grouping has a slope.
                    let re_v = sized@.re->0;
                    let g = state.groupings;
                    assert(in_envelope(re_v));
                    assert(g.widths().len() == 1 + g.extra_q@.len());
                    assert forall|e: int| 0 <= e < re_v.extra_groupings.len() implies (
                    #[trigger] g.extra_slope_cols@[e])@ == own_extra_cols(re_v)[e] by {
                        assert(re_v.extra_groupings[e].slopes.len() == 0);
                        assert(g.extra_slope_cols@[e]@.len() == 0);
                        assert(g.extra_slope_cols@[e]@ =~= own_extra_cols(re_v)[e]);
                    }
                    assert(g.slope_cols() =~= declared_slope_cols(re_v));
                    assert(g.widths() =~= declared_widths(
                        re_v.extra_groupings.len(),
                        widened(re_v.slopes),
                        own_extra_cols(re_v),
                    ));
                }
                FitKind::GlmmDense { state, x_mat: zeros(n_max, p) }
            },
        },
        Solver::Sparse => match sized.family {
            Family::Gaussian => FitKind::Prebuilt(PrebuiltRoute::LmmSparse),
            Family::NegativeBinomial { .. } => FitKind::Prebuilt(PrebuiltRoute::GlmmNbSparse),
            _ => FitKind::Prebuilt(PrebuiltRoute::GlmmSparse),
        },
    }
}

/// Classify a sized design once, and build its workspace for draws of up to
/// `n_max` rows. The route depends on the family, on whether there are random
/// effects, and on whether these are within the envelope of the dense kernels. Every
/// slope stands on its own design column, weights are 1, and no row is scaled. What
/// the options fix stays fixed: the nodes, the number of targets, whether
/// there are weights and an offset, and the use of threads.
pub fn build_workspace<S: Scalar>(
    sized: &ModelSpec,
    perm: Perm,
    n_max: usize,
    p: usize,
    opts: &FitOptions<S>,
) -> (ws: FitWorkspace<S>)
    requires
        shape_error(sized@, p as nat, opts.nagq) is None,
        buildable(sized@, n_max as nat, p as nat),
    ensures
        ws.wf(),
        ws.kind is Ols <==> sized@.re is None && sized.family is Gaussian,
        ws.kind is Glm <==> sized@.re is None && (sized.family is Binomial || sized.family
            is Poisson || sized.family is Gamma || sized.family is InverseGaussian),
        ws.kind == FitKind::<S>::Prebuilt(PrebuiltRoute::GlmNb) <==> sized@.re is None
            && sized.family is NegativeBinomial,
        ws.kind is LmmDense || ws.kind == FitKind::<S>::Prebuilt(PrebuiltRoute::LmmSparse)
            <==> sized@.re is Some && sized.family is Gaussian,
        ws.kind is GlmmDense || ws.kind == FitKind::<S>::Prebuilt(PrebuiltRoute::GlmmSparse)
            <==> sized@.re is Some && (sized.family is Binomial || sized.family is Poisson
            || sized.family is Gamma || sized.family is InverseGaussian),
        ws.kind == FitKind::<S>::Prebuilt(PrebuiltRoute::GlmmNbDense) || ws.kind
            == FitKind::<S>::Prebuilt(PrebuiltRoute::GlmmNbSparse) <==> sized@.re is Some
            && sized.family is NegativeBinomial,
        ws.n_max == n_max,
        ws.p == p,
        ws.sized@ == sized@,
        ws.perm == perm,
        ws.nagq == opts.nagq,
        ws.n_targets == opts.target_indices@.len(),
        ws.has_weights == (opts.weights is Some),
        ws.has_offset == (opts.offset is Some),
        ws.parallel_inner == opts.parallel_inner,
        ws.kind matches FitKind::LmmDense { groupings, .. } ==> {
            &&& groupings.primary_slope_cols@ == widened(sized@.re->0.slopes)
            &&& forall|e: int|
                0 <= e < extras_of(sized@).len() ==> (#[trigger] groupings.extra_slope_cols@[e])@
                    == own_extra_cols(sized@.re->0)[e]
        },
        ws.kind matches FitKind::GlmmDense { state, .. } ==> state.groupings.primary_slope_cols@
            == widened(sized@.re->0.slopes),
        is_fresh_kind(ws.kind, n_max as nat, p as nat),
{
    let kind: FitKind<S> = build_kind(sized, n_max, p, opts.nagq);
    proof {
        if kind.layout() is Some {
            let g = kind.layout()->0;
            assert(g.slope_cols()[0] == g.primary_slope_cols@);
            assert(g.widths().len() == 1 + extras_of(sized@).len());
            assert forall|e: int| 0 <= e < extras_of(sized@).len() implies (
            #[trigger] g.extra_slope_cols@[e])@ == own_extra_cols(sized@.re->0)[e] by {
                assert(g.slope_cols()[e + 1] == g.extra_slope_cols@[e]@);
            }
        }
    }
    let mut levels: usize = 0;
    let mut capacity: Vec<usize> = Vec::new();
    if let Some(re) = &sized.re {
        levels = re.sizing.n_clusters_at(n_max);
        let ghost extra = extras_of(sized@);
        let mut g: usize = 0;
        while g < re.extra_groupings.len()
            invariant
                g <= re.extra_groupings.len(),
                sized@.re == Some(re@),
                extra == extras_of(sized@),
                levels == primary_levels(sized@, n_max as nat),
                buildable(sized@, n_max as nat, p as nat),
                capacity@.len() == g,
                forall|k: int|
                    0 <= k < g ==> #[trigger] capacity@[k] == capacity_of(
                        extra[k],
                        levels as nat,
                    ),
            decreases re.extra_groupings.len() - g,
        {
            assert(extra[g as int] == re.extra_groupings@[g as int]@);
            let room: usize = match re.extra_groupings[g].relation {
                GroupingRelation::Crossed { n_clusters } => if n_clusters == 0 {
                    1
                } else {
                    n_clusters as usize
                },
                GroupingRelation::NestedWithin { n_per_parent } => if n_per_parent == 0 {
                    levels
                } else {
                    levels * n_per_parent as usize
                },
            };
            capacity.push(room);
            g = g + 1;
        }
    }
    FitWorkspace {
        n_max,
        p,
        sized: sized.clone(),
        perm,
        build_primary_levels: levels,
        build_extra_capacity: capacity,
        nagq: opts.nagq,
        n_targets: opts.target_indices.len(),
        has_weights: opts.weights.is_some(),
        has_offset: opts.offset.is_some(),
        parallel_inner: opts.parallel_inner,
        kind,
    }
}

/// A design with a slope in an extra grouping gets no dense workspace: the dense
/// kernels hold the intercepts of the extras alone.
pub proof fn slope_extras_get_no_dense_workspace(m: ModelView, g: int)
    requires
        m.re is Some,
        0 <= g < m.re->0.extra_groupings.len(),
        m.re->0.extra_groupings[g].slopes.len() > 0,
    ensures
        route_of(m) is Prebuilt,
{
    slope_extras_are_sparse(m, g);
}

/// A model without random effects is fitted without a search over variance
/// parameters, whatever its family.
pub proof fn fixed_effects_need_no_search(m: ModelView)
    requires
        m.re is None,
    ensures
        route_of(m) is Ols || route_of(m) is Glm || route_of(m) == Route::Prebuilt(
            PrebuiltRoute::GlmNb,
        ),
{
}

/// Every family has its own kernel. Without random effects: least squares for a Gaussian
/// response and no other, the negative binomial kernel for a negative binomial one, and
/// iterated weighted least squares for a binomial, Poisson, gamma or inverse Gaussian
/// one. With random effects: the linear mixed kernels for a Gaussian response and no
/// other, the negative binomial mixed ones for a negative binomial one, and the
/// generalized mixed ones for the rest.
pub proof fn families_have_their_kernels<S: Scalar>(ws: FitWorkspace<S>)
    requires
        ws.wf(),
    ensures
        ({
            let fixed = ws.sized.re is None;
            let solver = route(ws.sized@);
            match ws.sized.family {
                Family::Gaussian => if fixed {
                    ws.kind is Ols
                } else if solver == Solver::NoZ {
                    ws.kind is LmmDense
                } else {
                    ws.kind == FitKind::<S>::Prebuilt(PrebuiltRoute::LmmSparse)
                },
                Family::NegativeBinomial { .. } => if fixed {
                    ws.kind == FitKind::<S>::Prebuilt(PrebuiltRoute::GlmNb)
                } else if solver == Solver::NoZ {
                    ws.kind == FitKind::<S>::Prebuilt(PrebuiltRoute::GlmmNbDense)
                } else {
                    ws.kind == FitKind::<S>::Prebuilt(PrebuiltRoute::GlmmNbSparse)
                },
                Family::Binomial { .. } => if fixed {
                    ws.kind is Glm
                } else if solver == Solver::NoZ {
                    ws.kind is GlmmDense
                } else {
                    ws.kind == FitKind::<S>::Prebuilt(PrebuiltRoute::GlmmSparse)
                },
                Family::Poisson { .. } => if fixed {
                    ws.kind is Glm
                } else if solver == Solver::NoZ {
                    ws.kind is GlmmDense
                } else {
                    ws.kind == FitKind::<S>::Prebuilt(PrebuiltRoute::GlmmSparse)
                },
                Family::Gamma { .. } => if fixed {
                    ws.kind is Glm
                } else if solver == Solver::NoZ {
                    ws.kind is GlmmDense
                } else {
                    ws.kind == FitKind::<S>::Prebuilt(PrebuiltRoute::GlmmSparse)
                },
                Family::InverseGaussian { .. } => if fixed {
                    ws.kind is Glm
                } else if solver == Solver::NoZ {
                    ws.kind is GlmmDense
                } else {
                    ws.kind == FitKind::<S>::Prebuilt(PrebuiltRoute::GlmmSparse)
                },
            }
        }),
{
}

/// The link of a family has no say in its kernel: two workspaces whose models differ in a
/// link alone are on one route.
pub proof fn links_do_not_route<S: Scalar>(a: FitWorkspace<S>, b: FitWorkspace<S>)
    requires
        a.wf(),
        b.wf(),
        a.sized@.re == b.sized@.re,
        (a.sized.family is Binomial && b.sized.family is Binomial) || (a.sized.family is Gamma
            && b.sized.family is Gamma) || (a.sized.family is InverseGaussian && b.sized.family
            is InverseGaussian),
    ensures
        a.kind is Glm == b.kind is Glm,
        a.kind is GlmmDense == b.kind is GlmmDense,
        a.kind == FitKind::<S>::Prebuilt(PrebuiltRoute::GlmmSparse) <==> b.kind
            == FitKind::<S>::Prebuilt(PrebuiltRoute::GlmmSparse),
{
}

/// A workspace has room for the shape: as many primary levels as the model has clusters
/// over its rows, and in each extra grouping the levels that the model declares, those of
/// a nested one within every cluster. Without random effects there is nothing to hold.
pub proof fn workspaces_have_room_for_their_shape<S: Scalar>(ws: FitWorkspace<S>, g: int)
    requires
        ws.wf(),
    ensures
        ws.sized@.re is None ==> ws.build_primary_levels == 0 && ws.build_extra_capacity@.len() == 0,
        ws.sized@.re is Some ==> {
            let re = ws.sized@.re->0;
            let clusters = re.sizing.clusters_at(ws.n_max as nat);
            &&& ws.build_primary_levels == clusters
            &&& ws.build_extra_capacity@.len() == re.extra_groupings.len()
            &&& 0 <= g < re.extra_groupings.len() ==> ws.build_extra_capacity@[g] == (
            match re.extra_groupings[g].relation {
                GroupingRelation::Crossed { n_clusters } => if n_clusters == 0 {
                    1int
                } else {
                    n_clusters as int
                },
                GroupingRelation::NestedWithin { n_per_parent } => if n_per_parent == 0 {
                    clusters as int
                } else {
                    clusters * n_per_parent
                },
            })
        },
{
    if ws.sized@.re is Some && 0 <= g < ws.sized@.re->0.extra_groupings.len() {
        assert(ws.build_extra_capacity@[g] == capacity_of(
            extras_of(ws.sized@)[g],
            ws.build_primary_levels as nat,
        ));
    }
}

/// The layout of a workspace is that of its model: an intercept and the slopes of each
/// grouping, every slope on the column that it names, and the levels of the shape.
pub proof fn workspaces_lay_out_their_model<S: Scalar>(ws: FitWorkspace<S>, e: int, d: int)
    requires
        ws.wf(),
        ws.kind.layout() is Some,
    ensures
        ({
            let re = ws.sized@.re->0;
            let g = ws.kind.layout()->0;
            &&& ws.sized@.re is Some
            &&& g.primary_q == 1 + re.slopes.len()
            &&& g.n_primary == ws.build_primary_levels
            &&& g.extra_q@.len() == re.extra_groupings.len()
            &&& g.primary_slope_cols@.len() == re.slopes.len()
            &&& 0 <= d < re.slopes.len() ==> g.primary_slope_cols@[d] == re.slopes[d]
            &&& 0 <= e < re.extra_groupings.len() ==> {
                &&& g.extra_q@[e] == 1 + re.extra_groupings[e].slopes.len()
                &&& g.levels()[e + 1] == ws.build_extra_capacity@[e]
                &&& g.extra_slope_cols@[e]@.len() == re.extra_groupings[e].slopes.len()
                &&& 0 <= d < re.extra_groupings[e].slopes.len() ==> g.extra_slope_cols@[e]@[d]
                    == re.extra_groupings[e].slopes[d]
            }
        }),
{
    let re = ws.sized@.re->0;
    let g = ws.kind.layout()->0;
    assert(g.widths().len() == 1 + g.extra_q@.len());
    assert(g.widths()[0] == g.primary_q);
    assert(g.levels()[0] == g.n_primary);
    assert(g.slope_cols()[0] == g.primary_slope_cols@);
    if 0 <= e < re.extra_groupings.len() {
        assert(g.widths()[e + 1] == g.extra_q@[e]);
        assert(g.slope_cols()[e + 1] == g.extra_slope_cols@[e]@);
        assert(ws.build_extra_capacity@[e] == capacity_of(
            extras_of(ws.sized@)[e],
            ws.build_primary_levels as nat,
        ));
    }
}

/// The buffers of a fresh workspace hold nothing: a design of zeros, unit weights and no
/// weight flag, no offset, one thread, and unit scales.
pub proof fn fresh_workspaces_hold_nothing<S: Scalar>(
    kind: FitKind<S>,
    n_max: nat,
    p: nat,
    i: int,
    j: int,
    e: int,
    r: int,
)
    requires
        is_fresh_kind(kind, n_max, p),
        kind.wf(n_max, p),
    ensures
        !(kind is Prebuilt) && 0 <= i < n_max && 0 <= j < p ==> kind.design(i, j) == S::zero_of(),
        kind.layout() is Some && 0 <= e < kind.layout()->0.widths().len() && 0 <= r
            < kind.layout()->0.widths()[e] ==> kind.layout()->0.scales()[e][r] == S::one_of(),
        kind is LmmDense && 0 <= i < n_max ==> kind->LmmDense_y_shifted@[i] == S::zero_of(),
        kind is GlmmDense && 0 <= i < n_max ==> kind->GlmmDense_state.prior_w@[i] == S::one_of(),
        kind is GlmmDense ==> {
            let state = kind->GlmmDense_state;
            !state.weighted && !state.parallel_inner && state.offset is None
        },
{
    if kind.layout() is Some && 0 <= e < kind.layout()->0.widths().len() {
        let g = kind.layout()->0;
        assert(g.scales()[e] == constant(g.widths()[e], S::one_of()));
    }
}

} // verus!
