//! The layout of the random effects of a sized model: which block of variance
//! parameters and which block of effects belongs to which grouping.
use crate::layout::{
    column, lemma_vech_index, packed, packed_cols, packed_holds_every_entry, vech_index,
};
use crate::model::{
    extra_width, lemma_vech, re_width, vech, vech_len, GroupingRelation, GroupingView, ModelSpec,
    ReStructure, ReView,
};
use crate::scalar::{constant, copied, copied_rows, filled, rows, Scalar};
use crate::shape::nested_count;
use vstd::prelude::*;

verus! {

/// A nested extra grouping.
#[derive(Clone, Copy, Debug, PartialEq, Eq, Structural)]
pub struct NestedFactor {
    /// Which extra grouping it is, in declaration order.
    pub decl: usize,
    /// Where its variance parameters start.
    pub vech_start: usize,
}

/// A crossed extra grouping.
#[derive(Clone, Copy, Debug, PartialEq, Eq, Structural)]
pub struct CrossedFactor {
    /// Which extra grouping it is, in declaration order.
    pub decl: usize,
    /// Number of its levels.
    pub n_levels: usize,
    /// Where its variance parameters start.
    pub vech_start: usize,
}

/// The layout of the random effects of a sized model.
#[derive(Debug)]
pub struct LmmGroupings<S: Scalar> {
    /// Effects per primary level: an intercept and the slopes.
    pub primary_q: usize,
    /// Number of primary levels.
    pub n_primary: usize,
    /// Design columns of the primary slopes.
    pub primary_slope_cols: Vec<usize>,
    /// Effects per level of each extra grouping.
    pub extra_q: Vec<usize>,
    /// Design columns of the slopes of each extra grouping.
    pub extra_slope_cols: Vec<Vec<usize>>,
    /// The nested extra grouping, where there is one.
    pub nested: Option<NestedFactor>,
    /// Levels of the nested grouping within each primary level.
    pub nested_per_parent: usize,
    /// The crossed extra groupings, in declaration order.
    pub crossed: Vec<CrossedFactor>,
    /// Where the effects of each extra grouping start.
    pub extra_offsets: Vec<usize>,
    /// Number of effects.
    pub k_total: usize,
    /// Some extra grouping has a slope.
    pub extra_slopes_any: bool,
    /// What the kernel multiplies each row of the primary factor by.
    pub primary_scales: Vec<S>,
    /// What the kernel multiplies each row of each extra factor by.
    pub extra_scales: Vec<Vec<S>>,
}

impl<S: Scalar> LmmGroupings<S> {
    /// The two are one layout, with the same scales.
    pub open spec fn same(&self, other: &LmmGroupings<S>) -> bool {
        &&& self.widths() == other.widths()
        &&& self.levels() == other.levels()
        &&& self.slope_cols() == other.slope_cols()
        &&& self.scales() == other.scales()
        &&& self.k_total == other.k_total
        &&& self.extra_slopes_any == other.extra_slopes_any
    }
}

impl<S: Scalar> Clone for LmmGroupings<S> {
    /// A copy of the layout, as well formed as the layout is.
    fn clone(&self) -> (r: LmmGroupings<S>)
        ensures
            self.wf() ==> r.wf() && r.same(self),
    {
        let r: LmmGroupings<S> = LmmGroupings {
            primary_q: self.primary_q,
            n_primary: self.n_primary,
            primary_slope_cols: copied(self.primary_slope_cols.as_slice()),
            extra_q: copied(self.extra_q.as_slice()),
            extra_slope_cols: copied_rows(self.extra_slope_cols.as_slice()),
            nested: self.nested,
            nested_per_parent: self.nested_per_parent,
            crossed: copied(self.crossed.as_slice()),
            extra_offsets: copied(self.extra_offsets.as_slice()),
            k_total: self.k_total,
            extra_slopes_any: self.extra_slopes_any,
            primary_scales: copied(self.primary_scales.as_slice()),
            extra_scales: copied_rows(self.extra_scales.as_slice()),
        };
        proof {
            if self.wf() {
                lemma_copied_rows(r.extra_slope_cols@, self.extra_slope_cols@);
                lemma_copied_rows(r.extra_scales@, self.extra_scales@);
                assert(r.widths() =~= self.widths());
                assert(r.levels() =~= self.levels());
                assert(r.slope_cols() =~= self.slope_cols());
                assert(r.scales() =~= self.scales());
                assert forall|e: int| 0 <= e < r.extra_q@.len() implies #[trigger] r.extra_in_place(
                    e,
                ) by {
                    assert(self.extra_in_place(e));
                    assert(self.is_nested(e) == r.is_nested(e));
                    assert(self.descriptor_start(e) == r.descriptor_start(e));
                }
                if self.extra_slopes_any {
                    let e = choose|e: int|
                        0 <= e < self.extra_q@.len() && (#[trigger] self.extra_slope_cols@[e])@.len()
                            > 0;
                    assert(r.extra_slope_cols@[e]@.len() > 0);
                } else {
                    assert forall|e: int| 0 <= e < r.extra_q@.len() implies (
                    #[trigger] r.extra_slope_cols@[e])@.len() == 0 by {
                        assert(self.extra_slope_cols@[e]@.len() == 0);
                    }
                }
            }
        }
        r
    }
}

/// Vectors with the same contents, row by row.
proof fn lemma_copied_rows<T>(a: Seq<Vec<T>>, b: Seq<Vec<T>>)
    requires
        rows(a) == rows(b),
    ensures
        a.len() == b.len(),
        forall|i: int| 0 <= i < a.len() ==> (#[trigger] a[i])@ == b[i]@,
{
    assert(rows(a).len() == a.len());
    assert(rows(b).len() == b.len());
    assert forall|i: int| 0 <= i < a.len() implies (#[trigger] a[i])@ == b[i]@ by {
        assert(rows(a)[i] == rows(b)[i]);
    }
}

/// Variance parameters of the first `e` groupings, of these widths.
pub open spec fn theta_at(widths: Seq<nat>, e: nat) -> nat
    decreases e,
{
    if e == 0 {
        0
    } else {
        theta_at(widths, (e - 1) as nat) + vech(widths[e - 1])
    }
}

/// Effects of the first `e` groupings, of these widths and level counts.
pub open spec fn effects_at(widths: Seq<nat>, levels: Seq<nat>, e: nat) -> nat
    decreases e,
{
    if e == 0 {
        0
    } else {
        effects_at(widths, levels, (e - 1) as nat) + levels[e - 1] * widths[e - 1]
    }
}

/// The first crossed factor that is extra grouping `e`.
pub open spec fn find_crossed(crossed: Seq<CrossedFactor>, e: int) -> Option<CrossedFactor>
    decreases crossed.len(),
{
    if crossed.len() == 0 {
        None
    } else {
        match find_crossed(crossed.drop_last(), e) {
            Some(c) => Some(c),
            None => if crossed.last().decl == e {
                Some(crossed.last())
            } else {
                None
            },
        }
    }
}

impl<S: Scalar> LmmGroupings<S> {
    /// The nested grouping is extra grouping `e`.
    pub open spec fn is_nested(&self, e: int) -> bool {
        self.nested matches Some(nf) && nf.decl == e
    }

    /// Effects per level of every grouping, primary first.
    pub open spec fn widths(&self) -> Seq<nat> {
        Seq::new(
            1 + self.extra_q@.len(),
            |e: int|
                if e == 0 {
                    self.primary_q as nat
                } else {
                    self.extra_q@[e - 1] as nat
                },
        )
    }

    /// Level count of every grouping, primary first.
    pub open spec fn levels(&self) -> Seq<nat> {
        Seq::new(
            1 + self.extra_q@.len(),
            |e: int|
                if e == 0 {
                    self.n_primary as nat
                } else if self.is_nested(e - 1) {
                    (self.n_primary * self.nested_per_parent) as nat
                } else {
                    match find_crossed(self.crossed@, e - 1) {
                        Some(cf) => cf.n_levels as nat,
                        None => 0,
                    }
                },
        )
    }

    /// Row scales of every grouping's factor, primary first.
    pub open spec fn scales(&self) -> Seq<Seq<S>> {
        Seq::new(
            1 + self.extra_q@.len(),
            |e: int|
                if e == 0 {
                    self.primary_scales@
                } else {
                    self.extra_scales@[e - 1]@
                },
        )
    }

    /// Slope columns of every grouping, primary first.
    pub open spec fn slope_cols(&self) -> Seq<Seq<usize>> {
        Seq::new(
            1 + self.extra_q@.len(),
            |e: int|
                if e == 0 {
                    self.primary_slope_cols@
                } else {
                    self.extra_slope_cols@[e - 1]@
                },
        )
    }

    /// No row of a factor is scaled.
    pub open spec fn unscaled_rows(&self) -> bool {
        forall|e: int|
            0 <= e < self.widths().len() ==> (#[trigger] self.scales()[e]) == constant(
                self.widths()[e],
                S::one_of(),
            )
    }

    /// Number of variance parameters.
    pub open spec fn theta_len(&self) -> nat {
        theta_at(self.widths(), (1 + self.extra_q@.len()) as nat)
    }

    /// Where the parameters of extra grouping `e` start, as its descriptor says.
    pub open spec fn descriptor_start(&self, e: int) -> int {
        if self.is_nested(e) {
            self.nested->0.vech_start as int
        } else {
            find_crossed(self.crossed@, e)->0.vech_start as int
        }
    }

    /// Extra grouping `e` is nested or crossed, and has its blocks after those of
    /// the groupings before it.
    pub open spec fn extra_in_place(&self, e: int) -> bool {
        &&& self.extra_q@[e] == 1 + self.extra_slope_cols@[e]@.len()
        &&& self.extra_scales@[e]@.len() == self.extra_q@[e]
        &&& self.is_nested(e) || find_crossed(self.crossed@, e) is Some
        &&& self.descriptor_start(e) == theta_at(self.widths(), (e + 1) as nat)
        &&& self.extra_offsets@[e] == effects_at(self.widths(), self.levels(), (e + 1) as nat)
        &&& self.is_nested(e) ==> self.n_primary * self.nested_per_parent <= usize::MAX
    }

    /// Every grouping has its block of parameters and its block of effects, one
    /// after the other in declaration order; every extra grouping is either
    /// nested or crossed.
    pub open spec fn wf(&self) -> bool {
        let n_extra = self.extra_q@.len();
        &&& self.primary_q == 1 + self.primary_slope_cols@.len()
        &&& self.primary_scales@.len() == self.primary_q
        &&& self.extra_slope_cols@.len() == n_extra
        &&& self.extra_scales@.len() == n_extra
        &&& self.extra_offsets@.len() == n_extra
        &&& forall|e: int| 0 <= e < n_extra ==> #[trigger] self.extra_in_place(e)
        &&& self.k_total == effects_at(self.widths(), self.levels(), (1 + n_extra) as nat)
        &&& self.extra_slopes_any == exists|e: int|
            0 <= e < n_extra && (#[trigger] self.extra_slope_cols@[e])@.len() > 0
        &&& 2 * self.theta_len() <= usize::MAX
    }
}

impl<S: Scalar> LmmGroupings<S> {
    /// Extra grouping `k` has its blocks where these widths and level counts put
    /// them, and no row of its factor is scaled.
    spec fn placed(&self, widths: Seq<nat>, levels: Seq<nat>, k: int) -> bool {
        &&& self.extra_q@[k] == widths[k + 1]
        &&& self.extra_q@[k] == 1 + self.extra_slope_cols@[k]@.len()
        &&& self.extra_scales@[k]@ == constant(widths[k + 1], S::one_of())
        &&& self.extra_offsets@[k] == effects_at(widths, levels, (k + 1) as nat)
        &&& self.is_nested(k) || find_crossed(self.crossed@, k) is Some
        &&& self.descriptor_start(k) == theta_at(widths, (k + 1) as nat)
        &&& self.is_nested(k) ==> {
            &&& self.n_primary * self.nested_per_parent == levels[k + 1]
            &&& levels[k + 1] <= usize::MAX
        }
        &&& !self.is_nested(k) ==> find_crossed(self.crossed@, k)->0.n_levels == levels[k + 1]
    }

    /// A layout with every grouping in its place is well formed.
    proof fn lemma_placed(&self, widths: Seq<nat>, levels: Seq<nat>)
        requires
            widths.len() == 1 + self.extra_q@.len(),
            levels.len() == widths.len(),
            self.primary_q == widths[0],
            self.primary_q == 1 + self.primary_slope_cols@.len(),
            self.n_primary == levels[0],
            self.primary_scales@ == constant(widths[0], S::one_of()),
            self.extra_slope_cols@.len() == self.extra_q@.len(),
            self.extra_scales@.len() == self.extra_q@.len(),
            self.extra_offsets@.len() == self.extra_q@.len(),
            forall|k: int|
                0 <= k < self.extra_q@.len() ==> #[trigger] self.placed(widths, levels, k),
            self.k_total == effects_at(widths, levels, widths.len()),
            self.extra_slopes_any == exists|k: int|
                0 <= k < self.extra_q@.len() && (#[trigger] self.extra_slope_cols@[k])@.len() > 0,
            2 * theta_at(widths, widths.len()) <= usize::MAX,
        ensures
            self.wf(),
            self.widths() == widths,
            self.levels() == levels,
            forall|e: int|
                0 <= e <= self.extra_q@.len() ==> (#[trigger] self.scales()[e]) == constant(
                    widths[e],
                    S::one_of(),
                ),
    {
        assert forall|k: int| 0 <= k < widths.len() implies self.widths()[k] == widths[k]
            && self.levels()[k] == levels[k] && self.scales()[k] == constant(
            widths[k],
            S::one_of(),
        ) by {
            if k > 0 {
                assert(self.placed(widths, levels, k - 1));
            }
        }
        assert(self.widths() =~= widths);
        assert(self.levels() =~= levels);
        assert forall|e: int| 0 <= e < self.extra_q@.len() implies #[trigger] self.extra_in_place(e) by {
            assert(self.placed(widths, levels, e));
        }
    }
}

/// More groupings have at least as many parameters.
pub proof fn lemma_theta_at(widths: Seq<nat>, j: nat, k: nat)
    requires
        j <= k,
    ensures
        theta_at(widths, j) <= theta_at(widths, k),
    decreases k,
{
    if j < k {
        lemma_theta_at(widths, j, (k - 1) as nat);
    }
}

/// More groupings have at least as many effects.
pub proof fn lemma_effects_at(widths: Seq<nat>, levels: Seq<nat>, j: nat, k: nat)
    requires
        j <= k,
    ensures
        effects_at(widths, levels, j) <= effects_at(widths, levels, k),
    decreases k,
{
    if j < k {
        lemma_effects_at(widths, levels, j, (k - 1) as nat);
    }
}

/// The blocks of the first grouping.
pub proof fn lemma_first_block(widths: Seq<nat>, levels: Seq<nat>)
    ensures
        theta_at(widths, 0) == 0,
        effects_at(widths, levels, 0) == 0,
        theta_at(widths, 1) == vech(widths[0]),
        effects_at(widths, levels, 1) == levels[0] * widths[0],
{
    reveal_with_fuel(theta_at, 2);
    reveal_with_fuel(effects_at, 2);
}

/// The block of a grouping lies among all effects: effect `r` of level `l` of
/// grouping `e` has a place of its own, before the blocks that follow.
pub proof fn effect_index_in_bounds(
    widths: Seq<nat>,
    levels: Seq<nat>,
    e: nat,
    n: nat,
    l: int,
    r: int,
)
    requires
        e < n,
        0 <= l < levels[e as int],
        0 <= r < widths[e as int],
    ensures
        effects_at(widths, levels, e) <= effects_at(widths, levels, e) + l * widths[e as int] + r,
        effects_at(widths, levels, e) + l * widths[e as int] + r < effects_at(
            widths,
            levels,
            (e + 1) as nat,
        ),
        effects_at(widths, levels, (e + 1) as nat) <= effects_at(widths, levels, n),
{
    let q = widths[e as int];
    let k = levels[e as int];
    assert(0 <= l * q && l * q + q <= k * q) by (nonlinear_arith)
        requires
            0 <= l < k,
            0 <= q,
    ;
    lemma_effects_at(widths, levels, (e + 1) as nat, n);
}

/// The slope columns given for extra grouping `e`; none where none are given.
pub open spec fn cols_for(extra_slope_cols: Seq<Seq<usize>>, e: int) -> Seq<usize> {
    if 0 <= e < extra_slope_cols.len() {
        extra_slope_cols[e]
    } else {
        Seq::empty()
    }
}

/// Effects per level of every grouping, from the slope columns.
pub open spec fn declared_widths(
    n_extra: nat,
    slope_cols: Seq<usize>,
    extra_slope_cols: Seq<Seq<usize>>,
) -> Seq<nat> {
    Seq::new(
        1 + n_extra,
        |e: int|
            if e == 0 {
                1 + slope_cols.len()
            } else {
                1 + cols_for(extra_slope_cols, e - 1).len()
            },
    )
}

/// Level count of an extra grouping over `n_primary` primary levels; a declared
/// count of 0 is taken as 1.
pub open spec fn declared_extra_levels(relation: GroupingRelation, n_primary: nat) -> nat {
    match relation {
        GroupingRelation::Crossed { n_clusters } => if n_clusters == 0 {
            1
        } else {
            n_clusters as nat
        },
        GroupingRelation::NestedWithin { n_per_parent } => if n_per_parent == 0 {
            n_primary
        } else {
            n_primary * (n_per_parent as nat)
        },
    }
}

/// Level count of every grouping, from the structure and the number of rows.
pub open spec fn declared_levels(re: ReView, n: nat) -> Seq<nat> {
    Seq::new(
        1 + re.extra_groupings.len(),
        |e: int|
            if e == 0 {
                re.sizing.clusters_at(n)
            } else {
                declared_extra_levels(
                    re.extra_groupings[e - 1].relation,
                    re.sizing.clusters_at(n),
                )
            },
    )
}

/// The blocks of a structure can be numbered.
pub open spec fn layout_fits(
    re: ReView,
    n: nat,
    slope_cols: Seq<usize>,
    extra_slope_cols: Seq<Seq<usize>>,
) -> bool {
    let m = re.extra_groupings.len();
    let widths = declared_widths(m, slope_cols, extra_slope_cols);
    &&& 2 * theta_at(widths, (1 + m) as nat) <= usize::MAX
    &&& effects_at(widths, declared_levels(re, n), (1 + m) as nat) <= usize::MAX
}

/// Looking further finds what was found before.
proof fn lemma_find_push(crossed: Seq<CrossedFactor>, cf: CrossedFactor, e: int)
    ensures
        find_crossed(crossed.push(cf), e) == (match find_crossed(crossed, e) {
            Some(c) => Some(c),
            None => if cf.decl == e {
                Some(cf)
            } else {
                None
            },
        }),
{
    assert(crossed.push(cf).drop_last() =~= crossed);
}

/// More groupings have at least as many nested ones.
proof fn lemma_nested_monotone(extra: Seq<GroupingView>, j: nat, k: nat)
    requires
        j <= k,
    ensures
        nested_count(extra, j) <= nested_count(extra, k),
    decreases k,
{
    if j < k {
        lemma_nested_monotone(extra, j, (k - 1) as nat);
    }
}

impl<S: Scalar> LmmGroupings<S> {
    /// The layout of a sized mixed model over `n` rows, with the design columns
    /// of the slopes of the primary and of each extra grouping. No row of a
    /// factor is scaled.
    pub fn from_cluster_spec_ext(
        model: &ModelSpec,
        n: usize,
        slope_cols: &[usize],
        extra_slope_cols: &[Vec<usize>],
    ) -> (r: LmmGroupings<S>)
        requires
            model@.re is Some,
            nested_count(model@.re->0.extra_groupings, model@.re->0.extra_groupings.len()) <= 1,
            layout_fits(model@.re->0, n as nat, slope_cols@, rows(extra_slope_cols@)),
        ensures
            r.wf(),
            r.widths() == declared_widths(
                model@.re->0.extra_groupings.len(),
                slope_cols@,
                rows(extra_slope_cols@),
            ),
            r.levels() == declared_levels(model@.re->0, n as nat),
            r.extra_q@.len() == model@.re->0.extra_groupings.len(),
            r.primary_slope_cols@ == slope_cols@,
            forall|e: int|
                0 <= e < r.extra_q@.len() ==> (#[trigger] r.extra_slope_cols@[e])@ == cols_for(
                    rows(extra_slope_cols@),
                    e,
                ),
            r.unscaled_rows(),
    {
        let re: &ReStructure = model.re.as_ref().unwrap();
        let n_extra: usize = re.extra_groupings.len();
        let ghost extra = re@.extra_groupings;
        let ghost widths = declared_widths(extra.len(), slope_cols@, rows(extra_slope_cols@));
        let ghost levels = declared_levels(re@, n as nat);
        let ghost m = (1 + extra.len()) as nat;
        let n_primary: usize = re.sizing.n_clusters_at(n);
        proof {
            lemma_theta_at(widths, 1, m);
            lemma_effects_at(widths, levels, 1, m);
            lemma_vech(widths[0]);
            lemma_first_block(widths, levels);
            assert(slope_cols.len() == slope_cols@.len());
        }
        let primary_q: usize = 1 + slope_cols.len();
        let mut theta: usize = vech_len(primary_q);
        let mut effects: usize = n_primary * primary_q;
        let mut out: LmmGroupings<S> = LmmGroupings {
            primary_q,
            n_primary,
            primary_slope_cols: copied(slope_cols),
            extra_q: Vec::with_capacity(n_extra),
            extra_slope_cols: Vec::with_capacity(n_extra),
            nested: None,
            nested_per_parent: 1,
            crossed: Vec::new(),
            extra_offsets: Vec::with_capacity(n_extra),
            k_total: effects,
            extra_slopes_any: false,
            primary_scales: filled(primary_q, S::one()),
            extra_scales: Vec::with_capacity(n_extra),
        };
        let mut e: usize = 0;
        while e < n_extra
            invariant
                e <= n_extra,
                n_extra == re.extra_groupings.len(),
                extra == re@.extra_groupings,
                m == 1 + extra.len(),
                widths == declared_widths(extra.len(), slope_cols@, rows(extra_slope_cols@)),
                levels == declared_levels(re@, n as nat),
                n_primary == levels[0],
                nested_count(extra, extra.len()) <= 1,
                2 * theta_at(widths, m) <= usize::MAX,
                effects_at(widths, levels, m) <= usize::MAX,
                theta == theta_at(widths, (e + 1) as nat),
                effects == effects_at(widths, levels, (e + 1) as nat),
                out.primary_q == widths[0],
                out.primary_q == 1 + out.primary_slope_cols@.len(),
                out.n_primary == n_primary,
                out.primary_slope_cols@ == slope_cols@,
                out.primary_scales@ == constant(widths[0], S::one_of()),
                out.extra_q@.len() == e,
                out.extra_slope_cols@.len() == e,
                out.extra_scales@.len() == e,
                out.extra_offsets@.len() == e,
                forall|k: int| 0 <= k < e ==> #[trigger] out.placed(widths, levels, k),
                forall|k: int|
                    0 <= k < e ==> (#[trigger] out.extra_slope_cols@[k])@ == cols_for(
                        rows(extra_slope_cols@),
                        k,
                    ),
                out.nested matches Some(nf) ==> nf.decl < e,
                (out.nested is Some) == (nested_count(extra, e as nat) > 0),
                forall|k: int| k >= e ==> #[trigger] find_crossed(out.crossed@, k) is None,
                out.extra_slopes_any == exists|k: int|
                    0 <= k < e && (#[trigger] out.extra_slope_cols@[k])@.len() > 0,
            decreases n_extra - e,
        {
            let cols: Vec<usize> = if e < extra_slope_cols.len() {
                copied(extra_slope_cols[e].as_slice())
            } else {
                Vec::new()
            };
            assert(cols@ =~= cols_for(rows(extra_slope_cols@), e as int));
            let ghost before = out;
            proof {
                lemma_theta_at(widths, (e + 2) as nat, m);
                lemma_effects_at(widths, levels, (e + 2) as nat, m);
                lemma_vech(widths[e + 1]);
                assert(widths[e + 1] == 1 + cols@.len());
                assert(extra[e as int] == re.extra_groupings@[e as int]@);
                lemma_nested_monotone(extra, (e + 1) as nat, extra.len());
                let l = levels[e + 1];
                let w = widths[e + 1];
                assert(l <= l * w) by (nonlinear_arith)
                    requires
                        w >= 1,
                        l >= 0,
                ;
            }
            let q: usize = 1 + cols.len();
            let n_levels: usize = match re.extra_groupings[e].relation {
                GroupingRelation::Crossed { n_clusters } => {
                    let n_levels: usize = if n_clusters == 0 {
                        1
                    } else {
                        n_clusters as usize
                    };
                    let cf: CrossedFactor = CrossedFactor { decl: e, n_levels, vech_start: theta };
                    proof {
                        assert forall|k: int| #[trigger]
                            find_crossed(out.crossed@.push(cf), k) == (match find_crossed(
                                out.crossed@,
                                k,
                            ) {
                                Some(c) => Some(c),
                                None => if cf.decl == k {
                                    Some(cf)
                                } else {
                                    None
                                },
                            }) by {
                            lemma_find_push(out.crossed@, cf, k);
                        }
                    }
                    out.crossed.push(cf);
                    n_levels
                },
                GroupingRelation::NestedWithin { n_per_parent } => {
                    let per: usize = if n_per_parent == 0 {
                        1
                    } else {
                        n_per_parent as usize
                    };
                    out.nested = Some(NestedFactor { decl: e, vech_start: theta });
                    out.nested_per_parent = per;
                    assert(n_primary * per == levels[e + 1]) by {
                        assert(n_primary * 1 == n_primary);
                    }
                    n_primary * per
                },
            };
            if cols.len() > 0 {
                out.extra_slopes_any = true;
            }
            out.extra_q.push(q);
            out.extra_slope_cols.push(cols);
            out.extra_offsets.push(effects);
            out.extra_scales.push(filled(q, S::one()));
            theta = theta + vech_len(q);
            effects = effects + n_levels * q;
            e = e + 1;
            proof {
                let last = e - 1;
                assert forall|k: int| 0 <= k < e implies #[trigger] out.placed(
                    widths,
                    levels,
                    k,
                ) by {
                    if k < last {
                        assert(before.placed(widths, levels, k));
                    }
                }
                if before.extra_slopes_any {
                    let k = choose|k: int|
                        0 <= k < last && (#[trigger] before.extra_slope_cols@[k])@.len() > 0;
                    assert(out.extra_slope_cols@[k]@.len() > 0);
                } else if out.extra_slopes_any {
                    assert(out.extra_slope_cols@[last]@.len() > 0);
                } else {
                    assert forall|k: int| 0 <= k < e implies (#[trigger] out.extra_slope_cols@[k])@
                        .len() == 0 by {
                        if k < last {
                            assert(before.extra_slope_cols@[k]@.len() == 0);
                        }
                    }
                }
            }
        }
        let ghost built = out;
        out.k_total = effects;
        proof {
            assert forall|k: int| 0 <= k < out.extra_q@.len() implies #[trigger] out.placed(
                widths,
                levels,
                k,
            ) by {
                assert(built.placed(widths, levels, k));
            }
            assert(out.extra_slope_cols == built.extra_slope_cols);
            assert(out.extra_q@.len() == e);
            out.lemma_placed(widths, levels);
        }
        out
    }
}

/// The scale of the row that each entry of a lower triangle stands in.
pub open spec fn by_row<S: Scalar>(scales: Seq<S>) -> spec_fn(int, int) -> S {
    |r: int, c: int| scales[r]
}

/// The row scale of each variance parameter of the first `e` groupings.
pub open spec fn theta_scales<S: Scalar>(
    widths: Seq<nat>,
    scales: Seq<Seq<S>>,
    e: nat,
) -> Seq<S>
    decreases e,
{
    if e == 0 {
        Seq::empty()
    } else {
        theta_scales(widths, scales, (e - 1) as nat) + packed(
            widths[e - 1],
            by_row(scales[e - 1]),
        )
    }
}

/// Every variance parameter has a row scale.
pub proof fn every_parameter_has_a_scale<S: Scalar>(
    widths: Seq<nat>,
    scales: Seq<Seq<S>>,
    e: nat,
)
    ensures
        theta_scales(widths, scales, e).len() == theta_at(widths, e),
    decreases e,
{
    if e > 0 {
        every_parameter_has_a_scale(widths, scales, (e - 1) as nat);
        packed_holds_every_entry(widths[e - 1], by_row(scales[e - 1]));
    }
}

/// Append the scale of the row of each entry of a `q x q` lower triangle.
fn push_row_scales<S: Scalar>(out: &mut Vec<S>, q: usize, scales: &[S])
    requires
        scales@.len() == q,
    ensures
        final(out)@ == old(out)@ + packed(q as nat, by_row(scales@)),
{
    let ghost f = by_row(scales@);
    let ghost start = out@;
    let mut c: usize = 0;
    while c < q
        invariant
            c <= q,
            scales@.len() == q,
            f == by_row(scales@),
            out@ == start + packed_cols(q as nat, c as nat, f),
        decreases q - c,
    {
        let ghost before = out@;
        let mut r: usize = c;
        while r < q
            invariant
                c <= r <= q,
                c < q,
                scales@.len() == q,
                f == by_row(scales@),
                out@ == before + column(q as nat, c as int, f).take(r - c),
            decreases q - r,
        {
            out.push(scales[r]);
            r = r + 1;
        }
        assert(column(q as nat, c as int, f).take(q - c) =~= column(q as nat, c as int, f));
        c = c + 1;
    }
}

impl<S: Scalar> LmmGroupings<S> {
    /// Number of variance parameters.
    pub fn n_theta(&self) -> (r: usize)
        requires
            self.wf(),
        ensures
            r == self.theta_len(),
    {
        let ghost widths = self.widths();
        let ghost m = widths.len();
        proof {
            lemma_theta_at(widths, 1, m);
            lemma_vech(widths[0]);
            lemma_first_block(widths, self.levels());
        }
        let mut w: usize = vech_len(self.primary_q);
        let mut e: usize = 0;
        while e < self.extra_q.len()
            invariant
                e <= self.extra_q.len(),
                widths == self.widths(),
                m == widths.len(),
                2 * theta_at(widths, m) <= usize::MAX,
                w == theta_at(widths, (e + 1) as nat),
            decreases self.extra_q.len() - e,
        {
            proof {
                lemma_theta_at(widths, (e + 2) as nat, m);
                lemma_vech(widths[e + 1]);
            }
            w = w + vech_len(self.extra_q[e]);
            e = e + 1;
        }
        w
    }

    /// The row scale of each variance parameter, primary block first.
    pub fn theta_row_scales(&self) -> (r: Vec<S>)
        requires
            self.wf(),
        ensures
            r@ == theta_scales(self.widths(), self.scales(), self.widths().len()),
            r@.len() == self.theta_len(),
    {
        let ghost widths = self.widths();
        let ghost scales = self.scales();
        let mut out: Vec<S> = Vec::new();
        push_row_scales(&mut out, self.primary_q, self.primary_scales.as_slice());
        proof {
            reveal_with_fuel(theta_scales, 2);
            assert(out@ =~= theta_scales(widths, scales, 1));
        }
        let mut e: usize = 0;
        while e < self.extra_q.len()
            invariant
                e <= self.extra_q.len(),
                self.wf(),
                widths == self.widths(),
                scales == self.scales(),
                out@ == theta_scales(widths, scales, (e + 1) as nat),
            decreases self.extra_q.len() - e,
        {
            assert(self.extra_in_place(e as int));
            push_row_scales(&mut out, self.extra_q[e], self.extra_scales[e].as_slice());
            e = e + 1;
        }
        proof {
            every_parameter_has_a_scale(widths, scales, widths.len());
        }
        out
    }

    /// Some row of some factor is scaled by other than 1.
    pub open spec fn scaled_somewhere(&self) -> bool {
        exists|e: int, r: int|
            0 <= e < self.scales().len() && 0 <= r < self.scales()[e].len()
                && !(#[trigger] self.scales()[e][r]).unit()
    }

    /// Whether some row of some factor is scaled by other than 1.
    pub fn any_slope_scaled(&self) -> (r: bool)
        requires
            self.wf(),
        ensures
            r == self.scaled_somewhere(),
    {
        if has_other_than_one(self.primary_scales.as_slice()) {
            assert(self.scales()[0] == self.primary_scales@);
            return true;
        }
        let mut e: usize = 0;
        while e < self.extra_scales.len()
            invariant
                e <= self.extra_scales.len(),
                self.wf(),
                forall|k: int, r: int|
                    0 <= k <= e && 0 <= r < self.scales()[k].len()
                        ==> (#[trigger] self.scales()[k][r]).unit(),
            decreases self.extra_scales.len() - e,
        {
            assert(self.scales()[e + 1] == self.extra_scales@[e as int]@);
            if has_other_than_one(self.extra_scales[e].as_slice()) {
                return true;
            }
            e = e + 1;
        }
        false
    }

    /// The layout with other scales.
    pub open spec fn rescaled(&self, primary: Vec<S>, extra: Vec<Vec<S>>) -> LmmGroupings<S> {
        LmmGroupings { primary_scales: primary, extra_scales: extra, ..*self }
    }

    /// Set what the kernel multiplied each row of each factor by; the layout
    /// stays as it is.
    pub fn set_slope_scales(&mut self, primary: Vec<S>, extra: Vec<Vec<S>>)
        requires
            old(self).wf(),
            primary@.len() == old(self).primary_q,
            extra@.len() == old(self).extra_q@.len(),
            forall|e: int|
                0 <= e < extra@.len() ==> (#[trigger] extra@[e])@.len() == old(self).extra_q@[e],
        ensures
            final(self).wf(),
            *final(self) == old(self).rescaled(primary, extra),
            final(self).widths() == old(self).widths(),
            final(self).levels() == old(self).levels(),
            final(self).slope_cols() == old(self).slope_cols(),
            final(self).scales() == seq![primary@] + rows(extra@),
    {
        self.primary_scales = primary;
        self.extra_scales = extra;
        proof {
            assert(self.widths() =~= old(self).widths());
            assert(self.levels() =~= old(self).levels());
            assert(self.slope_cols() =~= old(self).slope_cols());
            assert(self.scales() =~= seq![primary@] + rows(extra@));
            assert(self.theta_len() == old(self).theta_len());
            assert(self.extra_slopes_any == exists|e: int|
                0 <= e < self.extra_q@.len() && (#[trigger] self.extra_slope_cols@[e])@.len() > 0);
            assert forall|e: int| 0 <= e < self.extra_q@.len() implies #[trigger] self.extra_in_place(
                e,
            ) by {
                assert(old(self).extra_in_place(e));
                assert(extra@[e]@.len() == old(self).extra_q@[e]);
                assert(old(self).is_nested(e) == self.is_nested(e));
                assert(old(self).descriptor_start(e) == self.descriptor_start(e));
            }
        }
    }
}

/// Whether some entry is other than 1.
fn has_other_than_one<S: Scalar>(v: &[S]) -> (r: bool)
    ensures
        r == exists|i: int| 0 <= i < v@.len() && !(#[trigger] v@[i]).unit(),
{
    let mut i: usize = 0;
    while i < v.len()
        invariant
            i <= v.len(),
            forall|k: int| 0 <= k < i ==> (#[trigger] v@[k]).unit(),
        decreases v.len() - i,
    {
        if !v[i].is_one() {
            assert(!v@[i as int].unit());
            return true;
        }
        i = i + 1;
    }
    false
}

/// The first crossed factor that is extra grouping `e`.
fn crossed_factor(crossed: &[CrossedFactor], e: usize) -> (r: Option<CrossedFactor>)
    ensures
        r == find_crossed(crossed@, e as int),
{
    let mut found: Option<CrossedFactor> = None;
    let mut k: usize = 0;
    while k < crossed.len()
        invariant
            k <= crossed.len(),
            found == find_crossed(crossed@.take(k as int), e as int),
        decreases crossed.len() - k,
    {
        assert(crossed@.take(k + 1).drop_last() =~= crossed@.take(k as int));
        if found.is_none() && crossed[k].decl == e {
            found = Some(crossed[k]);
        }
        k = k + 1;
    }
    assert(crossed@.take(k as int) =~= crossed@);
    found
}

/// Where the variance parameters of extra grouping `e` start.
pub fn extra_vech_start<S: Scalar>(g: &LmmGroupings<S>, e: usize) -> (r: usize)
    requires
        g.wf(),
        e < g.extra_q@.len(),
    ensures
        r == theta_at(g.widths(), (e + 1) as nat),
{
    assert(g.extra_in_place(e as int));
    if let Some(nf) = g.nested {
        if nf.decl == e {
            return nf.vech_start;
        }
    }
    crossed_factor(g.crossed.as_slice(), e).unwrap().vech_start
}

/// Level count of every grouping, primary first. A nested grouping spans the
/// whole grid of primary levels and children per primary level.
pub fn ranef_level_counts<S: Scalar>(g: &LmmGroupings<S>) -> (r: Vec<usize>)
    requires
        g.wf(),
    ensures
        r@.len() == g.levels().len(),
        forall|e: int| 0 <= e < r@.len() ==> #[trigger] r@[e] == g.levels()[e],
{
    let n_extra: usize = g.extra_q.len();
    let mut counts: Vec<usize> = Vec::new();
    counts.push(g.n_primary);
    let mut e: usize = 0;
    while e < n_extra
        invariant
            e <= n_extra,
            n_extra == g.extra_q@.len(),
            g.wf(),
            counts@.len() == e + 1,
            forall|k: int| 0 <= k <= e ==> #[trigger] counts@[k] == g.levels()[k],
        decreases n_extra - e,
    {
        assert(g.extra_in_place(e as int));
        let is_nested: bool = match g.nested {
            Some(nf) => nf.decl == e,
            None => false,
        };
        if is_nested {
            counts.push(g.n_primary * g.nested_per_parent);
        } else {
            counts.push(crossed_factor(g.crossed.as_slice(), e).unwrap().n_levels);
        }
        e = e + 1;
    }
    counts
}

/// A column list, one column for one.
pub open spec fn widened(cols: Seq<u32>) -> Seq<usize> {
    Seq::new(cols.len(), |i: int| cols[i] as usize)
}

/// The columns of a slope list.
fn widen(cols: &[u32]) -> (r: Vec<usize>)
    ensures
        r@ == widened(cols@),
{
    let mut out: Vec<usize> = Vec::with_capacity(cols.len());
    let mut i: usize = 0;
    while i < cols.len()
        invariant
            i <= cols.len(),
            out@ == widened(cols@).take(i as int),
        decreases cols.len() - i,
    {
        out.push(cols[i] as usize);
        i = i + 1;
    }
    assert(widened(cols@).take(i as int) =~= widened(cols@));
    out
}

/// The slope columns of the extra groupings of a structure.
pub open spec fn own_extra_cols(re: ReView) -> Seq<Seq<usize>> {
    Seq::new(re.extra_groupings.len(), |g: int| widened(re.extra_groupings[g].slopes))
}

/// The slope columns of every grouping of a structure, primary first.
pub open spec fn declared_slope_cols(re: ReView) -> Seq<Seq<usize>> {
    Seq::new(
        1 + re.extra_groupings.len(),
        |e: int|
            if e == 0 {
                widened(re.slopes)
            } else {
                own_extra_cols(re)[e - 1]
            },
    )
}

/// The design columns of the primary slopes, and of the slopes of each extra
/// grouping in declaration order.
pub fn re_slope_cols(model: &ModelSpec) -> (r: (Vec<usize>, Vec<Vec<usize>>))
    requires
        model@.re is Some,
    ensures
        r.0@ == widened(model@.re->0.slopes),
        r.1@.len() == model@.re->0.extra_groupings.len(),
        forall|g: int|
            0 <= g < r.1@.len() ==> (#[trigger] r.1@[g])@ == widened(
                model@.re->0.extra_groupings[g].slopes,
            ),
{
    let re: &ReStructure = model.re.as_ref().unwrap();
    let mut extra: Vec<Vec<usize>> = Vec::with_capacity(re.extra_groupings.len());
    let mut g: usize = 0;
    while g < re.extra_groupings.len()
        invariant
            g <= re.extra_groupings.len(),
            extra@.len() == g,
            forall|k: int|
                0 <= k < g ==> (#[trigger] extra@[k])@ == widened(re@.extra_groupings[k].slopes),
        decreases re.extra_groupings.len() - g,
    {
        extra.push(widen(re.extra_groupings[g].slopes.as_slice()));
        g = g + 1;
    }
    (widen(re.slopes.as_slice()), extra)
}

/// The blocks of a structure with its own slope columns are as wide as its
/// topology says.
proof fn lemma_own_width(
    re: ReView,
    slope_cols: Seq<usize>,
    extra_slope_cols: Seq<Seq<usize>>,
    k: nat,
)
    requires
        k <= re.extra_groupings.len(),
        slope_cols.len() == re.slopes.len(),
        extra_slope_cols.len() == re.extra_groupings.len(),
        forall|g: int|
            0 <= g < extra_slope_cols.len() ==> (#[trigger] extra_slope_cols[g]).len()
                == re.extra_groupings[g].slopes.len(),
    ensures
        theta_at(
            declared_widths(re.extra_groupings.len(), slope_cols, extra_slope_cols),
            (k + 1) as nat,
        ) == vech((1 + re.slopes.len()) as nat) + extra_width(re.extra_groupings, k),
    decreases k,
{
    let widths = declared_widths(re.extra_groupings.len(), slope_cols, extra_slope_cols);
    if k == 0 {
        lemma_first_block(widths, seq![]);
    } else {
        lemma_own_width(re, slope_cols, extra_slope_cols, (k - 1) as nat);
        assert(widths[k as int] == 1 + extra_slope_cols[k - 1].len());
    }
}

/// A layout built from a structure's own slope columns has as many variance
/// parameters as the topology alone gives the structure, whatever its level
/// counts are.
pub proof fn layout_width_is_topology_width(
    re: ReView,
    slope_cols: Seq<usize>,
    extra_slope_cols: Seq<Seq<usize>>,
)
    requires
        slope_cols == widened(re.slopes),
        extra_slope_cols.len() == re.extra_groupings.len(),
        forall|g: int|
            0 <= g < extra_slope_cols.len() ==> #[trigger] extra_slope_cols[g] == widened(
                re.extra_groupings[g].slopes,
            ),
    ensures
        theta_at(
            declared_widths(re.extra_groupings.len(), slope_cols, extra_slope_cols),
            (1 + re.extra_groupings.len()) as nat,
        ) == re_width(Some(re)),
{
    lemma_own_width(re, slope_cols, extra_slope_cols, re.extra_groupings.len());
}

/// The blocks of the groupings follow each other without a gap: a triangle of parameters
/// over the effects of a level, and as many effects as levels times effects of a level.
pub proof fn blocks_follow_each_other(widths: Seq<nat>, levels: Seq<nat>, e: nat)
    ensures
        theta_at(widths, 0) == 0,
        effects_at(widths, levels, 0) == 0,
        2 * theta_at(widths, (e + 1) as nat) == 2 * theta_at(widths, e) + widths[e as int] * (
        widths[e as int] + 1),
        effects_at(widths, levels, (e + 1) as nat) == effects_at(widths, levels, e)
            + levels[e as int] * widths[e as int],
{
    lemma_vech(widths[e as int]);
}

/// The first factor in a list that stands for a grouping is the one that is found.
proof fn lemma_first_is_found(crossed: Seq<CrossedFactor>, k: int)
    requires
        0 <= k < crossed.len(),
        forall|j: int| 0 <= j < k ==> (#[trigger] crossed[j]).decl != crossed[k].decl,
    ensures
        find_crossed(crossed, crossed[k].decl as int) == Some(crossed[k]),
    decreases crossed.len(),
{
    let before = crossed.drop_last();
    let e = crossed[k].decl as int;
    if k < before.len() {
        assert(before[k] == crossed[k]);
        assert forall|j: int| 0 <= j < k implies (#[trigger] before[j]).decl != before[k].decl by {
            assert(before[j] == crossed[j]);
        }
        lemma_first_is_found(before, k);
    } else {
        lemma_not_found(before, e);
    }
}

proof fn lemma_not_found(crossed: Seq<CrossedFactor>, e: int)
    requires
        forall|j: int| 0 <= j < crossed.len() ==> (#[trigger] crossed[j]).decl != e,
    ensures
        find_crossed(crossed, e) is None,
    decreases crossed.len(),
{
    if crossed.len() > 0 {
        let before = crossed.drop_last();
        assert forall|j: int| 0 <= j < before.len() implies (#[trigger] before[j]).decl != e by {
            assert(before[j] == crossed[j]);
        }
        lemma_not_found(before, e);
        assert(crossed[crossed.len() - 1].decl != e);
    }
}

/// What a layout says of its groupings, from its own fields: the primary grouping comes
/// first and extra grouping `e` stands at `e + 1`; the nested grouping has the children
/// of every primary level, and a crossed one its own levels.
pub proof fn layout_reads_its_fields<S: Scalar>(g: LmmGroupings<S>, e: int, k: int)
    ensures
        g.widths().len() == 1 + g.extra_q@.len(),
        g.scales().len() == 1 + g.extra_q@.len(),
        g.slope_cols().len() == 1 + g.extra_q@.len(),
        g.levels().len() == 1 + g.extra_q@.len(),
        g.widths()[0] == g.primary_q,
        g.scales()[0] == g.primary_scales@,
        g.slope_cols()[0] == g.primary_slope_cols@,
        g.levels()[0] == g.n_primary,
        0 <= e < g.extra_q@.len() ==> {
            &&& g.widths()[e + 1] == g.extra_q@[e]
            &&& g.scales()[e + 1] == g.extra_scales@[e]@
            &&& g.slope_cols()[e + 1] == g.extra_slope_cols@[e]@
            &&& g.nested is Some && g.nested->0.decl == e ==> g.levels()[e + 1] == g.n_primary
                * g.nested_per_parent
            &&& 0 <= k < g.crossed@.len() && g.crossed@[k].decl == e && (forall|j: int|
                0 <= j < k ==> (#[trigger] g.crossed@[j]).decl != e) && !(g.nested is Some
                && g.nested->0.decl == e) ==> g.levels()[e + 1] == g.crossed@[k].n_levels
        },
{
    if 0 <= k < g.crossed@.len() && g.crossed@[k].decl == e && (forall|j: int|
        0 <= j < k ==> (#[trigger] g.crossed@[j]).decl != e) {
        lemma_first_is_found(g.crossed@, k);
    }
}

/// The layout that a structure declares over `n` rows: an intercept and the given slopes
/// in each grouping, the clusters of the primary grouping, the levels of a crossed
/// grouping, and the children of every cluster in a nested one; a count of 0 is taken
/// as 1.
pub proof fn structures_declare_their_layout(
    re: ReView,
    n: nat,
    slope_cols: Seq<usize>,
    extra_slope_cols: Seq<Seq<usize>>,
    e: int,
)
    ensures
        ({
            let widths = declared_widths(re.extra_groupings.len(), slope_cols, extra_slope_cols);
            let levels = declared_levels(re, n);
            &&& widths.len() == 1 + re.extra_groupings.len()
            &&& levels.len() == 1 + re.extra_groupings.len()
            &&& widths[0] == 1 + slope_cols.len()
            &&& levels[0] == re.sizing.clusters_at(n)
            &&& 0 <= e < re.extra_groupings.len() ==> widths[e + 1] == (if e
                < extra_slope_cols.len() {
                1 + extra_slope_cols[e].len()
            } else {
                1
            })
            &&& 0 <= e < re.extra_groupings.len() ==> match re.extra_groupings[e].relation {
                GroupingRelation::Crossed { n_clusters } => {
                    &&& n_clusters > 0 ==> levels[e + 1] == n_clusters
                    &&& n_clusters == 0 ==> levels[e + 1] == 1
                },
                GroupingRelation::NestedWithin { n_per_parent } => {
                    &&& n_per_parent > 0 ==> levels[e + 1] == re.sizing.clusters_at(n)
                        * n_per_parent
                    &&& n_per_parent == 0 ==> levels[e + 1] == re.sizing.clusters_at(n)
                },
            }
        }),
{
}

/// Every slope of a structure stands on the column that it names, in its own grouping.
pub proof fn slopes_stand_on_their_columns(re: ReView, e: int, d: int)
    ensures
        declared_slope_cols(re).len() == 1 + re.extra_groupings.len(),
        declared_slope_cols(re)[0].len() == re.slopes.len(),
        0 <= d < re.slopes.len() ==> declared_slope_cols(re)[0][d] == re.slopes[d],
        0 <= e < re.extra_groupings.len() ==> {
            &&& declared_slope_cols(re)[e + 1].len() == re.extra_groupings[e].slopes.len()
            &&& 0 <= d < re.extra_groupings[e].slopes.len() ==> declared_slope_cols(re)[e + 1][d]
                == re.extra_groupings[e].slopes[d]
            &&& own_extra_cols(re)[e] == declared_slope_cols(re)[e + 1]
        },
        widened(re.slopes).len() == re.slopes.len(),
        0 <= d < re.slopes.len() ==> widened(re.slopes)[d] == re.slopes[d],
        own_extra_cols(re).len() == re.extra_groupings.len(),
{
}

/// The row scale of a parameter is that of its own grouping and row.
pub proof fn parameters_take_the_scale_of_their_row<S: Scalar>(
    widths: Seq<nat>,
    scales: Seq<Seq<S>>,
    n: nat,
    e: int,
    r: int,
    s: int,
)
    requires
        0 <= e < n,
        0 <= s <= r < widths[e],
    ensures
        0 <= theta_at(widths, e as nat) + vech_index(widths[e], r, s) < theta_scales(
            widths,
            scales,
            n,
        ).len(),
        theta_scales(widths, scales, n)[theta_at(widths, e as nat) + vech_index(widths[e], r, s)]
            == scales[e][r],
    decreases n,
{
    let last = n - 1;
    let before = theta_scales(widths, scales, last as nat);
    let block = packed(widths[last], by_row(scales[last]));
    every_parameter_has_a_scale(widths, scales, n);
    every_parameter_has_a_scale(widths, scales, last as nat);
    packed_holds_every_entry(widths[last], by_row(scales[last]));
    lemma_vech_index(widths[e], r, s);
    if e < last {
        parameters_take_the_scale_of_their_row(widths, scales, last as nat, e, r, s);
    } else {
        assert(block[vech_index(widths[e], r, s)] == by_row(scales[last])(r, s));
    }
}

} // verus!
