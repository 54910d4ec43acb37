//! Shape checks on a model and on the rows that are fitted by it.
use crate::consts::MAX_NAGQ;
use crate::model::{
    Family, GroupIds, GroupingRelation, GroupingView, ModelSpec, ModelView, ReStructure, ReView,
};
use crate::scalar::rows;
use vstd::prelude::*;

verus! {

/// Why a model cannot be fitted as it stands.
#[derive(Clone, Copy, Debug, PartialEq, Eq, Structural)]
pub enum ShapeError {
    /// The number of quadrature nodes is even, 0, or over the limit.
    NagqOutOfRange,
    /// Several quadrature nodes without random effects.
    NagqWithoutRandomEffects,
    /// Several quadrature nodes with more than one grouping, or a response that
    /// is neither binomial nor Poisson.
    NagqOutsideSingleFactor,
    /// Several quadrature nodes with more than three effects per group.
    NagqTooWide,
    /// A primary slope names a column that the design does not have.
    PrimarySlopeOutOfRange {
        /// The column.
        col: u32,
    },
    /// An extra grouping's slope names a column that the design does not have.
    ExtraSlopeOutOfRange {
        /// The column.
        col: u32,
    },
    /// More than one nested grouping.
    SeveralNested {
        /// How many.
        n_nested: usize,
    },
}

/// Why rows cannot be fitted by a model.
#[derive(Clone, Copy, Debug, PartialEq, Eq, Structural)]
pub enum GroupIdsError {
    /// Not one primary level per row.
    PrimaryLength,
    /// Not one vector of levels per extra grouping.
    ExtraCount,
    /// Not one level per row in an extra grouping.
    ExtraLength {
        /// The grouping.
        grouping: usize,
    },
}

/// The first column that a design of `p` columns does not have.
pub open spec fn first_over(cols: Seq<u32>, p: nat) -> Option<u32>
    decreases cols.len(),
{
    if cols.len() == 0 {
        None
    } else {
        match first_over(cols.drop_last(), p) {
            Some(c) => Some(c),
            None => if cols.last() >= p {
                Some(cols.last())
            } else {
                None
            },
        }
    }
}

/// The first such column among the slopes of the first `k` extras.
pub open spec fn first_extra_over(extra: Seq<GroupingView>, p: nat, k: nat) -> Option<u32>
    decreases k,
{
    if k == 0 {
        None
    } else {
        match first_extra_over(extra, p, (k - 1) as nat) {
            Some(c) => Some(c),
            None => first_over(extra[k - 1].slopes, p),
        }
    }
}

/// Nested groupings among the first `k` extras.
pub open spec fn nested_count(extra: Seq<GroupingView>, k: nat) -> nat
    decreases k,
{
    if k == 0 {
        0
    } else {
        nested_count(extra, (k - 1) as nat) + if extra[k - 1].relation is NestedWithin {
            1nat
        } else {
            0
        }
    }
}

/// The family has an adaptive quadrature.
pub open spec fn quadrature_family(f: Family) -> bool {
    f is Binomial || f is Poisson
}

/// What several quadrature nodes are refused for.
pub open spec fn nagq_error(m: ModelView) -> Option<ShapeError> {
    match m.re {
        None => Some(ShapeError::NagqWithoutRandomEffects),
        Some(re) => if re.extra_groupings.len() > 0 || !quadrature_family(m.family) {
            Some(ShapeError::NagqOutsideSingleFactor)
        } else if re.slopes.len() > 2 {
            Some(ShapeError::NagqTooWide)
        } else {
            None
        },
    }
}

/// What a random-effect structure over `p` columns is refused for.
pub open spec fn re_error(re: ReView, p: nat) -> Option<ShapeError> {
    let extra = re.extra_groupings;
    match first_over(re.slopes, p) {
        Some(col) => Some(ShapeError::PrimarySlopeOutOfRange { col }),
        None => match first_extra_over(extra, p, extra.len()) {
            Some(col) => Some(ShapeError::ExtraSlopeOutOfRange { col }),
            None => if nested_count(extra, extra.len()) > 1 {
                Some(ShapeError::SeveralNested {
                    n_nested: nested_count(extra, extra.len()) as usize,
                })
            } else {
                None
            },
        },
    }
}

/// What a model over `p` columns is refused for, the first of its faults; `None`
/// for a model that can be fitted.
pub open spec fn shape_error(m: ModelView, p: nat, nagq: u8) -> Option<ShapeError> {
    if !(1 <= nagq <= MAX_NAGQ && nagq % 2 == 1) {
        Some(ShapeError::NagqOutOfRange)
    } else if nagq > 1 && nagq_error(m) is Some {
        nagq_error(m)
    } else {
        match m.re {
            None => None,
            Some(re) => re_error(re, p),
        }
    }
}

/// What rows are refused for; `None` for rows that fit the structure.
pub open spec fn ids_error(
    n_extra: nat,
    primary: Seq<u32>,
    extra: Seq<Seq<u32>>,
    n: nat,
) -> Option<GroupIdsError> {
    if primary.len() != n {
        Some(GroupIdsError::PrimaryLength)
    } else if extra.len() != n_extra {
        Some(GroupIdsError::ExtraCount)
    } else {
        first_uneven(extra, n, extra.len())
    }
}

/// The first of the first `k` groupings without one level for each of `n` rows.
pub open spec fn first_uneven(extra: Seq<Seq<u32>>, n: nat, k: nat) -> Option<GroupIdsError>
    decreases k,
{
    if k == 0 {
        None
    } else {
        match first_uneven(extra, n, (k - 1) as nat) {
            Some(e) => Some(e),
            None => if extra[k - 1].len() != n {
                Some(GroupIdsError::ExtraLength { grouping: (k - 1) as usize })
            } else {
                None
            },
        }
    }
}

/// Rows that fit the structure name one level per row in every grouping.
pub proof fn accepted_ids_cover_every_row(
    n_extra: nat,
    primary: Seq<u32>,
    extra: Seq<Seq<u32>>,
    n: nat,
)
    ensures
        ids_error(n_extra, primary, extra, n) is None <==> {
            &&& primary.len() == n
            &&& extra.len() == n_extra
            &&& forall|g: int| 0 <= g < extra.len() ==> (#[trigger] extra[g]).len() == n
        },
{
    lemma_first_uneven(extra, n, extra.len());
}

proof fn lemma_first_uneven(extra: Seq<Seq<u32>>, n: nat, k: nat)
    requires
        k <= extra.len(),
    ensures
        first_uneven(extra, n, k) is None <==> forall|g: int|
            0 <= g < k ==> (#[trigger] extra[g]).len() == n,
    decreases k,
{
    if k > 0 {
        lemma_first_uneven(extra, n, (k - 1) as nat);
    }
}

proof fn lemma_first_over(cols: Seq<u32>, p: nat)
    ensures
        first_over(cols, p) is None <==> forall|i: int|
            0 <= i < cols.len() ==> #[trigger] cols[i] < p,
    decreases cols.len(),
{
    if cols.len() > 0 {
        let w = cols.drop_last();
        lemma_first_over(w, p);
        if first_over(cols, p) is None {
            assert forall|i: int| 0 <= i < cols.len() implies #[trigger] cols[i] < p by {
                if i < w.len() {
                    assert(w[i] == cols[i]);
                }
            }
        } else if forall|i: int| 0 <= i < cols.len() ==> #[trigger] cols[i] < p {
            assert forall|i: int| 0 <= i < w.len() implies #[trigger] w[i] < p by {
                assert(w[i] == cols[i]);
            }
            assert(cols[cols.len() - 1] < p);
        }
    }
}

proof fn lemma_first_extra_over(extra: Seq<GroupingView>, p: nat, k: nat)
    requires
        k <= extra.len(),
    ensures
        first_extra_over(extra, p, k) is None ==> forall|g: int, i: int|
            0 <= g < k && 0 <= i < extra[g].slopes.len() ==> #[trigger] extra[g].slopes[i] < p,
    decreases k,
{
    if k > 0 {
        lemma_first_extra_over(extra, p, (k - 1) as nat);
        lemma_first_over(extra[k - 1].slopes, p);
    }
}

/// The slopes of an accepted model name columns of the design, and at most one
/// of its extra groupings is nested.
pub proof fn accepted_slopes_are_columns(m: ModelView, p: nat, nagq: u8)
    requires
        shape_error(m, p, nagq) is None,
        m.re is Some,
    ensures
        forall|i: int| 0 <= i < m.re->0.slopes.len() ==> #[trigger] m.re->0.slopes[i] < p,
        forall|g: int, i: int|
            0 <= g < m.re->0.extra_groupings.len() && 0 <= i
                < m.re->0.extra_groupings[g].slopes.len()
                ==> #[trigger] m.re->0.extra_groupings[g].slopes[i] < p,
        nested_count(m.re->0.extra_groupings, m.re->0.extra_groupings.len()) <= 1,
{
    let extra = m.re->0.extra_groupings;
    lemma_first_over(m.re->0.slopes, p);
    lemma_first_extra_over(extra, p, extra.len());
}

/// The first column in `cols` that a design of `p` columns does not have.
fn find_over(cols: &[u32], p: usize) -> (r: Option<u32>)
    ensures
        r == first_over(cols@, p as nat),
{
    let mut found: Option<u32> = None;
    let mut i: usize = 0;
    while i < cols.len()
        invariant
            i <= cols.len(),
            found == first_over(cols@.take(i as int), p as nat),
        decreases cols.len() - i,
    {
        assert(cols@.take(i + 1).drop_last() =~= cols@.take(i as int));
        if found.is_none() && cols[i] as usize >= p {
            found = Some(cols[i]);
        }
        i = i + 1;
    }
    assert(cols@.take(i as int) =~= cols@);
    found
}

/// Whether a model over `p` columns with `nagq` quadrature nodes can be fitted;
/// the first fault where it cannot.
///
/// The number of nodes is odd and within the limit, and over 1 only for a
/// binomial or Poisson model with one grouping factor of at most three effects.
/// Every slope names a column of the design. At most one extra grouping is
/// nested: the kernels hold one.
pub fn assert_model_shape(model: &ModelSpec, p: usize, nagq: u8) -> (r: Result<(), ShapeError>)
    ensures
        r == (match shape_error(model@, p as nat, nagq) {
            None => Ok::<(), ShapeError>(()),
            Some(e) => Err(e),
        }),
{
    if !(1 <= nagq && nagq <= MAX_NAGQ && nagq % 2 == 1) {
        return Err(ShapeError::NagqOutOfRange);
    }
    if nagq > 1 {
        match &model.re {
            None => {
                return Err(ShapeError::NagqWithoutRandomEffects);
            },
            Some(re) => {
                let quadrature: bool = matches!(
                    model.family,
                    Family::Binomial { .. } | Family::Poisson { .. }
                );
                if re.extra_groupings.len() > 0 || !quadrature {
                    return Err(ShapeError::NagqOutsideSingleFactor);
                }
                if re.slopes.len() > 2 {
                    return Err(ShapeError::NagqTooWide);
                }
            },
        }
    }
    let re: &ReStructure = match &model.re {
        Some(re) => re,
        None => return Ok(()),
    };
    if let Some(col) = find_over(re.slopes.as_slice(), p) {
        return Err(ShapeError::PrimarySlopeOutOfRange { col });
    }
    let ghost extra = re@.extra_groupings;
    let mut over: Option<u32> = None;
    let mut n_nested: usize = 0;
    let mut g: usize = 0;
    while g < re.extra_groupings.len()
        invariant
            g <= re.extra_groupings.len(),
            extra == re@.extra_groupings,
            over == first_extra_over(extra, p as nat, g as nat),
            n_nested == nested_count(extra, g as nat),
            n_nested <= g,
        decreases re.extra_groupings.len() - g,
    {
        assert(extra[g as int] == re.extra_groupings@[g as int]@);
        if over.is_none() {
            over = find_over(re.extra_groupings[g].slopes.as_slice(), p);
        }
        if matches!(re.extra_groupings[g].relation, GroupingRelation::NestedWithin { .. }) {
            n_nested = n_nested + 1;
        }
        g = g + 1;
    }
    if let Some(col) = over {
        return Err(ShapeError::ExtraSlopeOutOfRange { col });
    }
    if n_nested > 1 {
        return Err(ShapeError::SeveralNested { n_nested });
    }
    Ok(())
}

/// [`assert_model_shape`] for callers outside the fit.
pub fn assert_model_shape_pub(model: &ModelSpec, p: usize, nagq: u8) -> (r: Result<(), ShapeError>)
    ensures
        r == (match shape_error(model@, p as nat, nagq) {
            None => Ok::<(), ShapeError>(()),
            Some(e) => Err(e),
        }),
{
    assert_model_shape(model, p, nagq)
}

/// Whether the rows name one level per row, for the primary grouping and for
/// each extra grouping of the structure; the first fault where they do not.
pub fn assert_group_ids(re: &ReStructure, ids: &GroupIds, n: usize) -> (r: Result<
    (),
    GroupIdsError,
>)
    ensures
        r == (match ids_error(
            re@.extra_groupings.len(),
            ids.primary@,
            rows(ids.extra@),
            n as nat,
        ) {
            None => Ok::<(), GroupIdsError>(()),
            Some(e) => Err(e),
        }),
{
    if ids.primary.len() != n {
        return Err(GroupIdsError::PrimaryLength);
    }
    if ids.extra.len() != re.extra_groupings.len() {
        return Err(GroupIdsError::ExtraCount);
    }
    let ghost extra = rows(ids.extra@);
    let mut found: Option<GroupIdsError> = None;
    let mut g: usize = 0;
    while g < ids.extra.len()
        invariant
            g <= ids.extra.len(),
            extra == rows(ids.extra@),
            found == first_uneven(extra, n as nat, g as nat),
        decreases ids.extra.len() - g,
    {
        assert(extra[g as int] == ids.extra@[g as int]@);
        if found.is_none() && ids.extra[g].len() != n {
            found = Some(GroupIdsError::ExtraLength { grouping: g });
        }
        g = g + 1;
    }
    match found {
        Some(e) => Err(e),
        None => Ok(()),
    }
}

/// The first column over the limit is a column of the list that is over the limit, and
/// none before it is.
proof fn lemma_first_over_found(cols: Seq<u32>, p: nat) -> (at: int)
    requires
        first_over(cols, p) is Some,
    ensures
        0 <= at < cols.len(),
        first_over(cols, p) == Some(cols[at]),
        cols[at] >= p,
        forall|j: int| 0 <= j < at ==> #[trigger] cols[j] < p,
    decreases cols.len(),
{
    let w = cols.drop_last();
    if first_over(w, p) is Some {
        let at = lemma_first_over_found(w, p);
        assert(w[at] == cols[at]);
        assert forall|j: int| 0 <= j < at implies #[trigger] cols[j] < p by {
            assert(w[j] == cols[j]);
        }
        at
    } else {
        lemma_first_over(w, p);
        assert forall|j: int| 0 <= j < cols.len() - 1 implies #[trigger] cols[j] < p by {
            assert(w[j] == cols[j]);
        }
        cols.len() - 1
    }
}

proof fn lemma_first_extra_over_found(extra: Seq<GroupingView>, p: nat, k: nat) -> (at: (int, int))
    requires
        k <= extra.len(),
        first_extra_over(extra, p, k) is Some,
    ensures
        0 <= at.0 < k,
        0 <= at.1 < extra[at.0].slopes.len(),
        first_extra_over(extra, p, k) == Some(extra[at.0].slopes[at.1]),
        extra[at.0].slopes[at.1] >= p,
        forall|g: int, i: int|
            0 <= g < at.0 && 0 <= i < extra[g].slopes.len() ==> #[trigger] extra[g].slopes[i] < p,
        forall|i: int| 0 <= i < at.1 ==> #[trigger] extra[at.0].slopes[i] < p,
    decreases k,
{
    if first_extra_over(extra, p, (k - 1) as nat) is Some {
        lemma_first_extra_over_found(extra, p, (k - 1) as nat)
    } else {
        let i = lemma_first_over_found(extra[k - 1].slopes, p);
        lemma_first_extra_over(extra, p, (k - 1) as nat);
        (k - 1, i)
    }
}

/// Two groupings are nested only if there is more than one.
proof fn lemma_nested_count(extra: Seq<GroupingView>, k: nat)
    requires
        k <= extra.len(),
    ensures
        nested_count(extra, k) == 0 <==> forall|g: int|
            0 <= g < k ==> !((#[trigger] extra[g]).relation is NestedWithin),
        nested_count(extra, k) <= 1 <==> forall|g: int, h: int|
            0 <= g < h < k ==> !((#[trigger] extra[g]).relation is NestedWithin && (
            #[trigger] extra[h]).relation is NestedWithin),
    decreases k,
{
    if k > 0 {
        let last = k - 1;
        lemma_nested_count(extra, last as nat);
        if extra[last].relation is NestedWithin {
            if nested_count(extra, last as nat) > 0 {
                let g = choose|g: int|
                    0 <= g < last && (#[trigger] extra[g]).relation is NestedWithin;
                assert(extra[g].relation is NestedWithin && extra[last].relation is NestedWithin);
            }
        } else if nested_count(extra, k) > 1 {
            let (g, h) = choose|g: int, h: int|
                0 <= g < h < last && (#[trigger] extra[g]).relation is NestedWithin && (
                #[trigger] extra[h]).relation is NestedWithin;
            assert(0 <= g < h < k);
        }
        if extra[last].relation is NestedWithin {
            assert(!(forall|g: int|
                0 <= g < k ==> !((#[trigger] extra[g]).relation is NestedWithin)));
        }
    }
}

/// The number of nested groupings goes up by one with a nested grouping, and stays with a
/// crossed one.
pub proof fn nested_groupings_are_counted(extra: Seq<GroupingView>, g: GroupingView)
    ensures
        nested_count(Seq::empty(), 0) == 0,
        nested_count(extra.push(g), (extra.len() + 1) as nat) == nested_count(extra, extra.len())
            + (match g.relation {
            GroupingRelation::NestedWithin { .. } => 1int,
            GroupingRelation::Crossed { .. } => 0,
        }),
{
    lemma_nested_prefix(extra.push(g), extra, extra.len());
    assert(extra.push(g)[extra.len() as int] == g);
}

proof fn lemma_nested_prefix(a: Seq<GroupingView>, b: Seq<GroupingView>, k: nat)
    requires
        k <= a.len(),
        k <= b.len(),
        forall|i: int| 0 <= i < k ==> a[i] == b[i],
    ensures
        nested_count(a, k) == nested_count(b, k),
    decreases k,
{
    if k > 0 {
        lemma_nested_prefix(a, b, (k - 1) as nat);
    }
}

/// The number of quadrature nodes is odd and at most 25.
pub open spec fn nodes_in_range(nagq: u8) -> bool {
    1 <= nagq <= 25 && nagq % 2 == 1
}

/// More than one node is asked of a model that has an adaptive quadrature: a binomial or
/// Poisson one with one grouping of at most three effects.
pub open spec fn quadrature_possible(m: ModelView) -> bool {
    &&& m.re is Some
    &&& m.re->0.extra_groupings.len() == 0
    &&& m.family is Binomial || m.family is Poisson
    &&& 1 + m.re->0.slopes.len() <= 3
}

/// A model is accepted exactly if its nodes are in range, more than one of them only
/// where there is a quadrature, every slope names a column, and no two groupings are
/// nested.
pub proof fn accepted_shapes(m: ModelView, p: nat, nagq: u8)
    ensures
        shape_error(m, p, nagq) is None <==> {
            &&& nodes_in_range(nagq)
            &&& nagq > 1 ==> quadrature_possible(m)
            &&& m.re is Some ==> {
                let re = m.re->0;
                &&& forall|i: int| 0 <= i < re.slopes.len() ==> #[trigger] re.slopes[i] < p
                &&& forall|g: int, i: int|
                    0 <= g < re.extra_groupings.len() && 0 <= i
                        < re.extra_groupings[g].slopes.len()
                        ==> #[trigger] re.extra_groupings[g].slopes[i] < p
                &&& forall|g: int, h: int|
                    0 <= g < h < re.extra_groupings.len() ==> !((
                    #[trigger] re.extra_groupings[g]).relation is NestedWithin && (
                    #[trigger] re.extra_groupings[h]).relation is NestedWithin)
            }
        },
{
    if m.re is Some {
        let re = m.re->0;
        let extra = re.extra_groupings;
        lemma_first_over(re.slopes, p);
        lemma_first_extra_over(extra, p, extra.len());
        lemma_nested_count(extra, extra.len());
        if first_extra_over(extra, p, extra.len()) is Some {
            let at = lemma_first_extra_over_found(extra, p, extra.len());
            assert(extra[at.0].slopes[at.1] >= p);
        }
    }
}

/// What a model is refused for is its first fault: the number of nodes, then a quadrature
/// that it does not have, for want of random effects, for its groupings or family, or for
/// its width, then the first slope that names no column, of the primary grouping before
/// the extra ones, and then the number of its nested groupings.
pub proof fn refused_shapes(m: ModelView, p: nat, nagq: u8)
    ensures
        !nodes_in_range(nagq) <==> shape_error(m, p, nagq) == Some(ShapeError::NagqOutOfRange),
        nodes_in_range(nagq) && nagq > 1 && m.re is None <==> shape_error(m, p, nagq) == Some(
            ShapeError::NagqWithoutRandomEffects,
        ),
        nodes_in_range(nagq) && nagq > 1 && m.re is Some && (m.re->0.extra_groupings.len() > 0 || !(
        m.family is Binomial || m.family is Poisson)) <==> shape_error(m, p, nagq) == Some(
            ShapeError::NagqOutsideSingleFactor,
        ),
        nodes_in_range(nagq) && nagq > 1 && m.re is Some && m.re->0.extra_groupings.len() == 0 && (
        m.family is Binomial || m.family is Poisson) && m.re->0.slopes.len() >= 3
            <==> shape_error(m, p, nagq) == Some(ShapeError::NagqTooWide),
        shape_error(m, p, nagq) matches Some(ShapeError::PrimarySlopeOutOfRange { col })
            ==> exists|at: int|
            {
                &&& 0 <= at < m.re->0.slopes.len()
                &&& #[trigger] m.re->0.slopes[at] == col
                &&& col >= p
                &&& forall|j: int| 0 <= j < at ==> #[trigger] m.re->0.slopes[j] < p
            },
        shape_error(m, p, nagq) matches Some(ShapeError::ExtraSlopeOutOfRange { col }) ==> {
            &&& forall|j: int|
                0 <= j < m.re->0.slopes.len() ==> #[trigger] m.re->0.slopes[j] < p
            &&& exists|h: int, at: int|
                {
                    &&& 0 <= h < m.re->0.extra_groupings.len()
                    &&& 0 <= at < m.re->0.extra_groupings[h].slopes.len()
                    &&& #[trigger] m.re->0.extra_groupings[h].slopes[at] == col
                    &&& col >= p
                    &&& forall|g: int, i: int|
                        0 <= g < h && 0 <= i < m.re->0.extra_groupings[g].slopes.len()
                            ==> #[trigger] m.re->0.extra_groupings[g].slopes[i] < p
                    &&& forall|i: int|
                        0 <= i < at ==> #[trigger] m.re->0.extra_groupings[h].slopes[i] < p
                }
        },
        shape_error(m, p, nagq) matches Some(ShapeError::SeveralNested { n_nested })
            ==> nested_count(m.re->0.extra_groupings, m.re->0.extra_groupings.len()) > 1
            && n_nested == nested_count(
            m.re->0.extra_groupings,
            m.re->0.extra_groupings.len(),
        ) as usize,
{
    if m.re is Some {
        let re = m.re->0;
        let extra = re.extra_groupings;
        lemma_first_over(re.slopes, p);
        if first_over(re.slopes, p) is Some {
            let at = lemma_first_over_found(re.slopes, p);
            assert(re.slopes[at] >= p);
        }
        if first_extra_over(extra, p, extra.len()) is Some {
            let at = lemma_first_extra_over_found(extra, p, extra.len());
            assert(extra[at.0].slopes[at.1] >= p);
        }
    }
}

/// What rows are refused for is their first fault: the length of the primary levels, then
/// the number of extra groupings, then the first extra grouping of another length.
pub proof fn refused_rows(n_extra: nat, primary: Seq<u32>, extra: Seq<Seq<u32>>, n: nat)
    requires
        extra.len() <= usize::MAX,
    ensures
        primary.len() != n <==> ids_error(n_extra, primary, extra, n) == Some(
            GroupIdsError::PrimaryLength,
        ),
        primary.len() == n && extra.len() != n_extra <==> ids_error(n_extra, primary, extra, n)
            == Some(GroupIdsError::ExtraCount),
        ids_error(n_extra, primary, extra, n) matches Some(
            GroupIdsError::ExtraLength { grouping },
        ) ==> {
            &&& 0 <= grouping < extra.len()
            &&& extra[grouping as int].len() != n
            &&& forall|g: int| 0 <= g < grouping ==> (#[trigger] extra[g]).len() == n
        },
{
    lemma_first_uneven_found(extra, n, extra.len());
}

proof fn lemma_first_uneven_found(extra: Seq<Seq<u32>>, n: nat, k: nat)
    requires
        k <= extra.len() <= usize::MAX,
    ensures
        !(first_uneven(extra, n, k) == Some(GroupIdsError::PrimaryLength)),
        !(first_uneven(extra, n, k) == Some(GroupIdsError::ExtraCount)),
        first_uneven(extra, n, k) matches Some(GroupIdsError::ExtraLength { grouping }) ==> {
            &&& 0 <= grouping < k
            &&& extra[grouping as int].len() != n
            &&& forall|g: int| 0 <= g < grouping ==> (#[trigger] extra[g]).len() == n
        },
    decreases k,
{
    if k > 0 {
        lemma_first_uneven_found(extra, n, (k - 1) as nat);
        lemma_first_uneven(extra, n, (k - 1) as nat);
    }
}

} // verus!
