//! Which solver a design is fitted by.
use crate::consts::{MAX_CROSSED_LEVELS, MAX_EXTRA_GROUPINGS, MAX_PRIMARY_Q, MAX_THETA};
use crate::model::{
    extra_width, lemma_vech, lemma_vech_monotone, re_width, vech, GroupingRelation, GroupingView,
    ModelSpec, ModelView, ReStructure, ReView,
};
use vstd::prelude::*;

verus! {

/// The two families of solvers for random effects.
#[derive(Clone, Copy, Debug, PartialEq, Eq, Structural)]
pub enum Solver {
    /// The dense kernels, which never form the random-effect design.
    NoZ,
    /// The sparse kernels, without an envelope.
    Sparse,
}

/// Levels of the crossed groupings among the first `k` extras.
pub open spec fn crossed_levels(extra: Seq<GroupingView>, k: nat) -> nat
    decreases k,
{
    if k == 0 {
        0
    } else {
        crossed_levels(extra, (k - 1) as nat) + match extra[k - 1].relation {
            GroupingRelation::Crossed { n_clusters } => n_clusters as nat,
            GroupingRelation::NestedWithin { .. } => 0,
        }
    }
}

/// The dense kernels hold this structure: few enough groupings, a narrow enough
/// primary block, extras with an intercept alone, and few enough crossed levels.
pub open spec fn in_envelope(re: ReView) -> bool {
    &&& re.extra_groupings.len() <= MAX_EXTRA_GROUPINGS
    &&& 1 + re.slopes.len() <= MAX_PRIMARY_Q
    &&& forall|g: int|
        0 <= g < re.extra_groupings.len() ==> (#[trigger] re.extra_groupings[g]).slopes.len() == 0
    &&& crossed_levels(re.extra_groupings, re.extra_groupings.len()) <= MAX_CROSSED_LEVELS
}

/// The solver of a model: a fixed-effects model and one within the envelope are
/// dense.
pub open spec fn route(m: ModelView) -> Solver {
    match m.re {
        None => Solver::NoZ,
        Some(re) => if in_envelope(re) {
            Solver::NoZ
        } else {
            Solver::Sparse
        },
    }
}

/// More groupings have at least as many crossed levels.
proof fn lemma_crossed_monotone(extra: Seq<GroupingView>, j: nat, k: nat)
    requires
        j <= k,
    ensures
        crossed_levels(extra, j) <= crossed_levels(extra, k),
    decreases k,
{
    if j < k {
        lemma_crossed_monotone(extra, j, (k - 1) as nat);
    }
}

/// The solver for a sized design. The number of quadrature nodes has no say in
/// it.
pub fn classify_design(model: &ModelSpec, _nagq: u8) -> (r: Solver)
    ensures
        r == route(model@),
        model.re is None ==> r == Solver::NoZ,
        model@.re is Some ==> (r == Solver::NoZ <==> {
            let re = model@.re->0;
            &&& re.extra_groupings.len() <= 6
            &&& re.slopes.len() <= 7
            &&& forall|g: int|
                0 <= g < re.extra_groupings.len() ==> (#[trigger] re.extra_groupings[g]).slopes.len()
                    == 0
            &&& crossed_levels(re.extra_groupings, re.extra_groupings.len()) <= 256
        }),
{
    let re: &ReStructure = match &model.re {
        Some(re) => re,
        None => return Solver::NoZ,
    };
    let ghost extra = re@.extra_groupings;
    if re.extra_groupings.len() > MAX_EXTRA_GROUPINGS || re.slopes.len() >= MAX_PRIMARY_Q {
        return Solver::Sparse;
    }
    let mut levels: usize = 0;
    let mut g: usize = 0;
    while g < re.extra_groupings.len()
        invariant
            g <= re.extra_groupings.len(),
            extra == re@.extra_groupings,
            model@.re == Some(re@),
            levels == crossed_levels(extra, g as nat),
            levels <= MAX_CROSSED_LEVELS,
            forall|k: int| 0 <= k < g ==> (#[trigger] extra[k]).slopes.len() == 0,
        decreases re.extra_groupings.len() - g,
    {
        assert(extra[g as int] == re.extra_groupings@[g as int]@);
        if re.extra_groupings[g].slopes.len() > 0 {
            return Solver::Sparse;
        }
        if let GroupingRelation::Crossed { n_clusters } = re.extra_groupings[g].relation {
            if n_clusters as usize > MAX_CROSSED_LEVELS - levels {
                proof {
                    lemma_crossed_monotone(extra, (g + 1) as nat, extra.len());
                }
                return Solver::Sparse;
            }
            levels = levels + n_clusters as usize;
        }
        g = g + 1;
    }
    Solver::NoZ
}

/// [`classify_design`] for callers outside the fit.
pub fn classify_design_pub(model: &ModelSpec, nagq: u8) -> (r: Solver)
    ensures
        r == route(model@),
{
    classify_design(model, nagq)
}

/// An extra grouping that carries a slope is never sent to a dense kernel,
/// whatever the family: those kernels hold its intercept alone.
pub proof fn slope_extras_are_sparse(m: ModelView, g: int)
    requires
        m.re is Some,
        0 <= g < m.re->0.extra_groupings.len(),
        m.re->0.extra_groupings[g].slopes.len() > 0,
    ensures
        route(m) == Solver::Sparse,
{
}

/// Crossed levels do not depend on how many levels a nested grouping has.
proof fn lemma_crossed_ignores_nested(
    extra: Seq<GroupingView>,
    g: int,
    n_per_parent: u32,
    k: nat,
)
    requires
        0 <= g < extra.len(),
        k <= extra.len(),
        extra[g].relation is NestedWithin,
    ensures
        crossed_levels(
            extra.update(
                g,
                GroupingView {
                    relation: GroupingRelation::NestedWithin { n_per_parent },
                    slopes: extra[g].slopes,
                },
            ),
            k,
        ) == crossed_levels(extra, k),
    decreases k,
{
    if k > 0 {
        lemma_crossed_ignores_nested(extra, g, n_per_parent, (k - 1) as nat);
    }
}

/// The levels of a nested grouping have no say in the routing: any number of
/// children per parent is routed alike.
pub proof fn nested_levels_do_not_route(m: ModelView, g: int, n_per_parent: u32)
    requires
        m.re is Some,
        0 <= g < m.re->0.extra_groupings.len(),
        m.re->0.extra_groupings[g].relation is NestedWithin,
    ensures
        route(
            ModelView {
                family: m.family,
                re: Some(
                    ReView {
                        sizing: m.re->0.sizing,
                        slopes: m.re->0.slopes,
                        extra_groupings: m.re->0.extra_groupings.update(
                            g,
                            GroupingView {
                                relation: GroupingRelation::NestedWithin { n_per_parent },
                                slopes: m.re->0.extra_groupings[g].slopes,
                            },
                        ),
                    },
                ),
            },
        ) == route(m),
{
    let extra = m.re->0.extra_groupings;
    let moved = extra.update(
        g,
        GroupingView {
            relation: GroupingRelation::NestedWithin { n_per_parent },
            slopes: extra[g].slopes,
        },
    );
    lemma_crossed_ignores_nested(extra, g, n_per_parent, extra.len());
    assert forall|k: int| 0 <= k < extra.len() implies (#[trigger] moved[k]).slopes
        == extra[k].slopes by {}
    assert forall|k: int| 0 <= k < extra.len() implies (#[trigger] extra[k]).slopes
        == moved[k].slopes by {}
}

/// Intercept-only extras have one parameter each.
proof fn lemma_intercept_width(extra: Seq<GroupingView>, k: nat)
    requires
        k <= extra.len(),
        forall|g: int| 0 <= g < extra.len() ==> (#[trigger] extra[g]).slopes.len() == 0,
    ensures
        extra_width(extra, k) == k,
    decreases k,
{
    if k > 0 {
        lemma_intercept_width(extra, (k - 1) as nat);
        lemma_vech(1);
        assert(extra[k - 1].slopes.len() == 0);
    }
}

/// A design for the dense kernels has at most [`MAX_THETA`] variance parameters,
/// so a buffer of that size holds them.
pub proof fn dense_width_is_bounded(m: ModelView)
    requires
        route(m) == Solver::NoZ,
    ensures
        re_width(m.re) <= MAX_THETA,
{
    if m.re is Some {
        let re = m.re->0;
        lemma_intercept_width(re.extra_groupings, re.extra_groupings.len());
        lemma_vech_monotone((1 + re.slopes.len()) as nat, MAX_PRIMARY_Q as nat);
        assert(vech(8) == 36) by {
            lemma_vech(8);
        }
    }
}

/// The levels of the crossed groupings are added up grouping by grouping; a nested one
/// adds none.
pub proof fn crossed_levels_add_up(extra: Seq<GroupingView>, g: GroupingView)
    ensures
        crossed_levels(Seq::empty(), 0) == 0,
        crossed_levels(extra.push(g), (extra.len() + 1) as nat) == crossed_levels(
            extra,
            extra.len(),
        ) + (match g.relation {
            GroupingRelation::Crossed { n_clusters } => n_clusters as int,
            GroupingRelation::NestedWithin { .. } => 0,
        }),
{
    lemma_crossed_prefix(extra.push(g), extra, extra.len());
    assert(extra.push(g)[extra.len() as int] == g);
}

/// The levels of the first groupings depend on the first groupings alone.
proof fn lemma_crossed_prefix(a: Seq<GroupingView>, b: Seq<GroupingView>, k: nat)
    requires
        k <= a.len(),
        k <= b.len(),
        forall|i: int| 0 <= i < k ==> a[i] == b[i],
    ensures
        crossed_levels(a, k) == crossed_levels(b, k),
    decreases k,
{
    if k > 0 {
        lemma_crossed_prefix(a, b, (k - 1) as nat);
    }
}

/// Where the envelope of the dense kernels ends: over six extra groupings, over eight
/// effects of a primary level, at any slope in an extra grouping, and over 256 crossed
/// levels. A model without random effects is always within it.
pub proof fn envelope_of_the_dense_kernels(m: ModelView)
    ensures
        m.re is None ==> route(m) == Solver::NoZ,
        m.re is Some ==> (route(m) == Solver::Sparse <==> {
            let re = m.re->0;
            ||| re.extra_groupings.len() > 6
            ||| 1 + re.slopes.len() > 8
            ||| crossed_levels(re.extra_groupings, re.extra_groupings.len()) > 256
            ||| exists|g: int|
                0 <= g < re.extra_groupings.len() && (#[trigger] re.extra_groupings[g]).slopes.len()
                    > 0
        }),
{
}

} // verus!
