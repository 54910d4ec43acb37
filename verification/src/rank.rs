//! Rank deficiency: fitting without the redundant columns, and reporting the
//! reduced fit over all columns.
use crate::diagnostics::{notes_view, Diagnostics, Note, NoteView};
use crate::fit::{unfittable_random_slope_fit, Fit};
use crate::inference::is_target;
use crate::layout::lemma_cell;
use crate::model::{
    re_width, Grouping, GroupingView, ModelSpec, ModelView, ReStructure, ReView,
};
use crate::options::{FitOptions, StartValues};
use crate::scalar::{constant, copied, filled, Scalar};
use vstd::prelude::*;

verus! {

/// The columns among the first `k` that are kept.
pub open spec fn kept_upto(aliased: Seq<bool>, k: nat) -> Seq<usize>
    decreases k,
{
    if k == 0 {
        Seq::empty()
    } else {
        let before = kept_upto(aliased, (k - 1) as nat);
        if aliased[k - 1] {
            before
        } else {
            before.push((k - 1) as usize)
        }
    }
}

/// The columns that are kept.
pub open spec fn kept_cols(aliased: Seq<bool>) -> Seq<usize> {
    kept_upto(aliased, aliased.len())
}

/// Where a kept column stands in the reduced design.
pub open spec fn reduced_index(aliased: Seq<bool>, j: int) -> int {
    kept_upto(aliased, j as nat).len() as int
}

/// For each column its place in the reduced design, and the largest index for a
/// dropped one.
pub open spec fn reduction_map(aliased: Seq<bool>) -> Seq<usize> {
    Seq::new(
        aliased.len(),
        |j: int|
            if aliased[j] {
                usize::MAX
            } else {
                reduced_index(aliased, j) as usize
            },
    )
}

/// Kept columns are counted up one by one.
proof fn lemma_kept_monotone(aliased: Seq<bool>, j: nat, k: nat)
    requires
        j <= k <= aliased.len(),
    ensures
        kept_upto(aliased, j).len() <= kept_upto(aliased, k).len(),
        kept_upto(aliased, k).len() - kept_upto(aliased, j).len() <= k - j,
        forall|r: int|
            0 <= r < kept_upto(aliased, j).len() ==> #[trigger] kept_upto(aliased, k)[r]
                == kept_upto(aliased, j)[r],
    decreases k,
{
    if j < k {
        lemma_kept_monotone(aliased, j, (k - 1) as nat);
    }
}

/// A place in the reduced design holds the column that stands there.
proof fn lemma_kept(aliased: Seq<bool>, k: nat)
    requires
        k <= aliased.len(),
        aliased.len() <= usize::MAX,
    ensures
        forall|r: int|
            0 <= r < kept_upto(aliased, k).len() ==> {
                let c = #[trigger] kept_upto(aliased, k)[r];
                &&& c < k
                &&& !aliased[c as int]
                &&& reduced_index(aliased, c as int) == r
            },
    decreases k,
{
    if k > 0 {
        lemma_kept(aliased, (k - 1) as nat);
        let now = kept_upto(aliased, k);
        let before = kept_upto(aliased, (k - 1) as nat);
        assert forall|r: int| 0 <= r < now.len() implies {
            let c = #[trigger] now[r];
            &&& c < k
            &&& !aliased[c as int]
            &&& reduced_index(aliased, c as int) == r
        } by {
            if r < before.len() {
                assert(now[r] == before[r]);
            }
        }
    }
}

/// The reduced design holds every kept column once, in order: the places and the
/// kept columns correspond one to one.
pub proof fn kept_columns_correspond(aliased: Seq<bool>)
    requires
        aliased.len() <= usize::MAX,
    ensures
        kept_cols(aliased).len() <= aliased.len(),
        forall|r: int|
            0 <= r < kept_cols(aliased).len() ==> {
                let c = #[trigger] kept_cols(aliased)[r];
                &&& c < aliased.len()
                &&& !aliased[c as int]
                &&& reduced_index(aliased, c as int) == r
            },
        forall|j: int|
            0 <= j < aliased.len() && !aliased[j] ==> {
                &&& 0 <= #[trigger] reduced_index(aliased, j) < kept_cols(aliased).len()
                &&& kept_cols(aliased)[reduced_index(aliased, j)] == j
            },
{
    let n = aliased.len();
    lemma_kept(aliased, n);
    lemma_kept_monotone(aliased, 0, n);
    assert forall|j: int| 0 <= j < n && !aliased[j] implies {
        &&& 0 <= #[trigger] reduced_index(aliased, j) < kept_cols(aliased).len()
        &&& kept_cols(aliased)[reduced_index(aliased, j)] == j
    } by {
        lemma_kept_monotone(aliased, (j + 1) as nat, n);
        let r = reduced_index(aliased, j);
        assert(kept_upto(aliased, (j + 1) as nat)[r] == j);
    }
}

/// A reduced design is strictly narrower than the design that it came from, so
/// that fitting it, and what is redundant in it, comes to an end.
pub proof fn reduction_shrinks(aliased: Seq<bool>)
    requires
        exists|j: int| 0 <= j < aliased.len() && #[trigger] aliased[j],
    ensures
        kept_cols(aliased).len() < aliased.len(),
{
    let j = choose|j: int| 0 <= j < aliased.len() && #[trigger] aliased[j];
    lemma_kept_monotone(aliased, 0, j as nat);
    lemma_kept_monotone(aliased, (j + 1) as nat, aliased.len());
}

/// Some of these columns is dropped.
pub open spec fn some_dropped(cols: Seq<u32>, map: Seq<usize>) -> bool {
    exists|i: int| 0 <= i < cols.len() && map[#[trigger] cols[i] as int] == usize::MAX
}

/// Some random slope stands on a dropped column.
pub open spec fn slope_dropped(m: ModelView, map: Seq<usize>) -> bool {
    m.re matches Some(re) && {
        ||| some_dropped(re.slopes, map)
        ||| exists|g: int|
            0 <= g < re.extra_groupings.len() && some_dropped(
                (#[trigger] re.extra_groupings[g]).slopes,
                map,
            )
    }
}

/// The columns at their places in the reduced design.
pub open spec fn moved(cols: Seq<u32>, map: Seq<usize>) -> Seq<u32> {
    Seq::new(cols.len(), |i: int| map[cols[i] as int] as u32)
}

/// The model with its slopes at their places in the reduced design.
pub open spec fn moved_model(m: ModelView, map: Seq<usize>) -> ModelView {
    match m.re {
        None => m,
        Some(re) => ModelView {
            family: m.family,
            re: Some(
                ReView {
                    sizing: re.sizing,
                    slopes: moved(re.slopes, map),
                    extra_groupings: Seq::new(
                        re.extra_groupings.len(),
                        |g: int|
                            GroupingView {
                                relation: re.extra_groupings[g].relation,
                                slopes: moved(re.extra_groupings[g].slopes, map),
                            },
                    ),
                },
            ),
        },
    }
}

/// Every slope of the model names one of `p` columns.
pub open spec fn slopes_below(m: ModelView, p: nat) -> bool {
    m.re matches Some(re) ==> {
        &&& forall|i: int| 0 <= i < re.slopes.len() ==> #[trigger] re.slopes[i] < p
        &&& forall|g: int, i: int|
            0 <= g < re.extra_groupings.len() && 0 <= i < re.extra_groupings[g].slopes.len()
                ==> #[trigger] re.extra_groupings[g].slopes[i] < p
    }
}

/// The columns at their places in the reduced design; `None` where one of them is
/// dropped.
fn move_cols(cols: &[u32], to_reduced: &[usize]) -> (r: Option<Vec<u32>>)
    requires
        forall|i: int| 0 <= i < cols@.len() ==> #[trigger] cols@[i] < to_reduced@.len(),
    ensures
        match r {
            None => some_dropped(cols@, to_reduced@),
            Some(v) => !some_dropped(cols@, to_reduced@) && v@ == moved(cols@, to_reduced@),
        },
{
    let mut out: Vec<u32> = Vec::with_capacity(cols.len());
    let mut i: usize = 0;
    while i < cols.len()
        invariant
            i <= cols.len(),
            forall|k: int| 0 <= k < cols@.len() ==> #[trigger] cols@[k] < to_reduced@.len(),
            forall|k: int| 0 <= k < i ==> to_reduced@[#[trigger] cols@[k] as int] != usize::MAX,
            out@ == moved(cols@, to_reduced@).take(i as int),
        decreases cols.len() - i,
    {
        let r: usize = to_reduced[cols[i] as usize];
        if r == usize::MAX {
            assert(to_reduced@[cols@[i as int] as int] == usize::MAX);
            return None;
        }
        out.push(r as u32);
        i = i + 1;
    }
    assert(out@ =~= moved(cols@, to_reduced@));
    Some(out)
}

/// The model with its slopes at their places in the reduced design. `None` where a
/// slope stands on a dropped column: the reduced design has nothing for it to
/// point at, and a model without that slope would be another model.
pub fn remap_spec_slopes(model: &ModelSpec, to_reduced: &[usize]) -> (r: Option<ModelSpec>)
    requires
        slopes_below(model@, to_reduced@.len()),
    ensures
        match r {
            None => slope_dropped(model@, to_reduced@),
            Some(out) => !slope_dropped(model@, to_reduced@) && out@ == moved_model(
                model@,
                to_reduced@,
            ),
        },
{
    let re: &ReStructure = match &model.re {
        Some(re) => re,
        None => return Some(model.clone()),
    };
    let ghost map = to_reduced@;
    let ghost extra = re@.extra_groupings;
    let mut extra_groupings: Vec<Grouping> = Vec::with_capacity(re.extra_groupings.len());
    let mut g: usize = 0;
    while g < re.extra_groupings.len()
        invariant
            g <= re.extra_groupings.len(),
            model@.re == Some(re@),
            map == to_reduced@,
            extra == re@.extra_groupings,
            slopes_below(model@, map.len()),
            extra_groupings@.len() == g,
            forall|k: int| 0 <= k < g ==> !some_dropped((#[trigger] extra[k]).slopes, map),
            forall|k: int|
                0 <= k < g ==> {
                    &&& (#[trigger] extra_groupings@[k]).relation == extra[k].relation
                    &&& extra_groupings@[k].slopes@ == moved(extra[k].slopes, map)
                },
        decreases re.extra_groupings.len() - g,
    {
        assert(extra[g as int] == re.extra_groupings@[g as int]@);
        assert forall|i: int|
            0 <= i < re.extra_groupings@[g as int].slopes@.len() implies #[trigger] re.extra_groupings@[g as int].slopes@[i]
            < map.len() by {
            assert(extra[g as int].slopes[i] < map.len());
        }
        match move_cols(re.extra_groupings[g].slopes.as_slice(), to_reduced) {
            Some(slopes) => {
                extra_groupings.push(Grouping { relation: re.extra_groupings[g].relation, slopes });
            },
            None => {
                assert(some_dropped(extra[g as int].slopes, map));
                return None;
            },
        }
        g = g + 1;
    }
    let slopes: Vec<u32> = match move_cols(re.slopes.as_slice(), to_reduced) {
        Some(slopes) => slopes,
        None => return None,
    };
    let out: ModelSpec = ModelSpec {
        family: model.family,
        re: Some(ReStructure { sizing: re.sizing, slopes, extra_groupings }),
    };
    proof {
        let want = moved_model(model@, map);
        assert(out@.re->0.extra_groupings =~= want.re->0.extra_groupings);
        assert(out@.re->0 =~= want.re->0);
    }
    Some(out)
}

/// The slopes of a reduced model name columns of the reduced design.
pub proof fn moved_slopes_are_reduced_columns(m: ModelView, aliased: Seq<bool>)
    requires
        aliased.len() <= u32::MAX,
        aliased.len() <= usize::MAX,
        slopes_below(m, aliased.len()),
        !slope_dropped(m, reduction_map(aliased)),
    ensures
        slopes_below(moved_model(m, reduction_map(aliased)), kept_cols(aliased).len()),
{
    let map = reduction_map(aliased);
    kept_columns_correspond(aliased);
    if m.re is Some {
        let re = m.re->0;
        let out = moved_model(m, map).re->0;
        assert forall|i: int| 0 <= i < out.slopes.len() implies #[trigger] out.slopes[i]
            < kept_cols(aliased).len() by {
            let c = re.slopes[i] as int;
            assert(map[c] != usize::MAX);
            assert(reduced_index(aliased, c) < kept_cols(aliased).len());
        }
        assert forall|g: int, i: int|
            0 <= g < out.extra_groupings.len() && 0 <= i
                < out.extra_groupings[g].slopes.len() implies #[trigger] out.extra_groupings[g].slopes[i]
            < kept_cols(aliased).len() by {
            let c = re.extra_groupings[g].slopes[i] as int;
            assert(re.extra_groupings[g].slopes[i] < aliased.len());
            assert(!some_dropped(re.extra_groupings[g].slopes, map));
            assert(map[c] != usize::MAX);
            assert(reduced_index(aliased, c) < kept_cols(aliased).len());
        }
    }
}

/// Without a redundant column every column keeps its place.
proof fn lemma_nothing_dropped(aliased: Seq<bool>, j: nat)
    requires
        j <= aliased.len(),
        forall|i: int| 0 <= i < aliased.len() ==> !#[trigger] aliased[i],
    ensures
        kept_upto(aliased, j).len() == j,
    decreases j,
{
    if j > 0 {
        lemma_nothing_dropped(aliased, (j - 1) as nat);
    }
}

/// Where no column is redundant, the reduced model is the model itself.
pub proof fn nothing_dropped_moves_nothing(m: ModelView, aliased: Seq<bool>)
    requires
        aliased.len() < usize::MAX,
        slopes_below(m, aliased.len()),
        forall|i: int| 0 <= i < aliased.len() ==> !#[trigger] aliased[i],
    ensures
        !slope_dropped(m, reduction_map(aliased)),
        moved_model(m, reduction_map(aliased)) == m,
{
    let map = reduction_map(aliased);
    assert forall|j: int| 0 <= j < aliased.len() implies #[trigger] map[j] == j by {
        lemma_nothing_dropped(aliased, j as nat);
    }
    if m.re is Some {
        let re = m.re->0;
        assert(moved(re.slopes, map) =~= re.slopes);
        assert forall|g: int| 0 <= g < re.extra_groupings.len() implies moved(
            (#[trigger] re.extra_groupings[g]).slopes,
            map,
        ) == re.extra_groupings[g].slopes && !some_dropped(re.extra_groupings[g].slopes, map) by {
            assert forall|i: int| 0 <= i < re.extra_groupings[g].slopes.len() implies map[(
            #[trigger] re.extra_groupings[g].slopes[i]) as int]
                == re.extra_groupings[g].slopes[i] by {}
            assert(moved(re.extra_groupings[g].slopes, map) =~= re.extra_groupings[g].slopes);
        }
        assert(moved_model(m, map).re->0.extra_groupings =~= re.extra_groupings);
    }
}

/// The targets among the first `k` that are kept, at their places in the reduced
/// design.
pub open spec fn reduced_targets(targets: Seq<u32>, aliased: Seq<bool>, k: nat) -> Seq<u32>
    decreases k,
{
    if k == 0 {
        Seq::empty()
    } else {
        let before = reduced_targets(targets, aliased, (k - 1) as nat);
        let t = targets[k - 1] as int;
        if aliased[t] {
            before
        } else {
            before.push(reduced_index(aliased, t) as u32)
        }
    }
}

/// The targets of a reduced problem are the kept targets: each names a column of
/// the reduced design, and that column is a target of the whole problem.
pub proof fn reduced_targets_are_kept_targets(targets: Seq<u32>, aliased: Seq<bool>, k: nat)
    requires
        aliased.len() <= u32::MAX,
        aliased.len() <= usize::MAX,
        k <= targets.len(),
        forall|i: int| 0 <= i < targets.len() ==> #[trigger] targets[i] < aliased.len(),
    ensures
        forall|r: int|
            0 <= r < reduced_targets(targets, aliased, k).len() ==> {
                let c = #[trigger] reduced_targets(targets, aliased, k)[r] as int;
                &&& c < kept_cols(aliased).len()
                &&& is_target(targets, kept_cols(aliased)[c] as int)
            },
    decreases k,
{
    if k > 0 {
        reduced_targets_are_kept_targets(targets, aliased, (k - 1) as nat);
        kept_columns_correspond(aliased);
        let before = reduced_targets(targets, aliased, (k - 1) as nat);
        let now = reduced_targets(targets, aliased, k);
        let t = targets[k - 1] as int;
        assert forall|r: int| 0 <= r < now.len() implies {
            let c = #[trigger] now[r] as int;
            &&& c < kept_cols(aliased).len()
            &&& is_target(targets, kept_cols(aliased)[c] as int)
        } by {
            if r < before.len() {
                assert(now[r] == before[r]);
            } else {
                assert(!aliased[t]);
                assert(kept_cols(aliased)[reduced_index(aliased, t)] == t);
                assert(targets[k - 1] == t);
            }
        }
    }
}

/// A problem without its redundant columns.
#[derive(Debug)]
pub struct ReducedProblem<S: Scalar> {
    /// The kept columns.
    pub kept: Vec<usize>,
    /// Row-major design of the kept columns.
    pub x: Vec<S>,
    /// Number of kept columns.
    pub p: usize,
    /// The model, with its slopes at their places in the reduced design.
    pub model: ModelSpec,
    /// Where the search starts, for the kept columns.
    pub start: Option<StartValues<S>>,
    /// The options, with the kept targets.
    pub opts: FitOptions<S>,
}

/// What is left of a problem without its redundant columns.
#[derive(Debug)]
pub enum Reduction<S: Scalar> {
    /// Nothing that could be fitted: a random slope stands on a redundant column.
    Unfittable(Fit<S>),
    /// A narrower problem.
    Reduced(ReducedProblem<S>),
}

/// The start for the kept columns: a cold part stays cold.
pub open spec fn reduced_beta<S>(beta: Seq<S>, kept: Seq<usize>) -> Seq<S> {
    if beta.len() == 0 {
        beta
    } else {
        Seq::new(kept.len(), |r: int| beta[kept[r] as int])
    }
}

/// The reduced problem drops the redundant columns of this problem and nothing
/// else.
pub open spec fn is_reduced<S: Scalar>(
    r: ReducedProblem<S>,
    x: Seq<S>,
    n: int,
    p: int,
    model: ModelView,
    start: Option<StartValues<S>>,
    opts: FitOptions<S>,
    aliased: Seq<bool>,
) -> bool {
    let kept = kept_cols(aliased);
    &&& r.kept@ == kept
    &&& r.p == kept.len()
    &&& r.x@.len() == n * r.p
    &&& forall|i: int, k: int|
        0 <= i < n && 0 <= k < r.p ==> r.x@[i * r.p + k] == #[trigger] x[i * p + kept[k]]
    &&& r.model@ == moved_model(model, reduction_map(aliased))
    &&& (r.start is Some) == (start is Some)
    &&& start matches Some(s) ==> {
        &&& r.start->0.beta@ == reduced_beta(s.beta@, kept)
        &&& r.start->0.theta@ == s.theta@
    }
    &&& r.opts.same_but_targets(&opts)
    &&& r.opts.target_indices@ == reduced_targets(
        opts.target_indices@,
        aliased,
        opts.target_indices@.len(),
    )
}

/// The kept columns of a row-major design.
fn reduced_design<S: Scalar>(x: &[S], n: usize, p: usize, kept: &Vec<usize>) -> (xr: Vec<S>)
    requires
        x@.len() == n * p,
        kept@.len() <= p,
        forall|k: int| 0 <= k < kept@.len() ==> #[trigger] kept@[k] < p,
    ensures
        xr@.len() == n * kept@.len(),
        forall|i: int, k: int|
            0 <= i < n && 0 <= k < kept@.len() ==> xr@[i * kept@.len() + k] == #[trigger] x@[i * p
                + kept@[k]],
{
    let pk: usize = kept.len();
    let mut xr: Vec<S> = Vec::new();
    let mut i: usize = 0;
    assert(0 * pk == 0) by (nonlinear_arith);
    while i < n
        invariant
            i <= n,
            x@.len() == n * p,
            pk == kept@.len(),
            forall|k: int| 0 <= k < pk ==> #[trigger] kept@[k] < p,
            xr@.len() == i * pk,
            forall|a: int, k: int|
                0 <= a < i && 0 <= k < pk ==> xr@[a * pk + k] == #[trigger] x@[a * p + kept@[k]],
        decreases n - i,
    {
        let ghost before = xr@;
        let mut k: usize = 0;
        while k < pk
            invariant
                k <= pk,
                i < n,
                x@.len() == n * p,
                pk == kept@.len(),
                forall|c: int| 0 <= c < pk ==> #[trigger] kept@[c] < p,
                before.len() == i * pk,
                xr@.len() == i * pk + k,
                forall|c: int| 0 <= c < before.len() ==> #[trigger] xr@[c] == before[c],
                forall|c: int|
                    0 <= c < k ==> xr@[i * pk + c] == x@[i * p + #[trigger] kept@[c]],
            decreases pk - k,
        {
            proof {
                lemma_cell(i as int, kept@[k as int] as int, n as int, p as int);
                assert(x.len() == x@.len());
            }
            xr.push(x[i * p + kept[k]]);
            k = k + 1;
        }
        proof {
            assert((i + 1) * pk == i * pk + pk) by (nonlinear_arith);
            assert forall|a: int, c: int| 0 <= a < i + 1 && 0 <= c < pk implies xr@[a * pk + c]
                == #[trigger] x@[a * p + kept@[c]] by {
                if a < i {
                    lemma_cell(a, c, i as int, pk as int);
                    assert(before[a * pk + c] == x@[a * p + kept@[c]]);
                } else {
                    let w = kept@[c];
                }
            }
        }
        i = i + 1;
    }
    xr
}

/// Drop the redundant columns from a problem. The design, the start and the
/// targets lose them, the slopes of the model are moved to their places in the
/// reduced design, and the rest is kept. Where a random slope stands on a
/// redundant column there is no reduced problem, and a fit that estimates nothing
/// says so.
pub fn reduce_design<S: Scalar>(
    x: &[S],
    n: usize,
    p: usize,
    model: &ModelSpec,
    start: Option<&StartValues<S>>,
    opts: &FitOptions<S>,
    aliased: &[bool],
) -> (r: Reduction<S>)
    requires
        x@.len() == n * p,
        aliased@.len() == p,
        slopes_below(model@, p as nat),
        2 * re_width(model@.re) <= usize::MAX,
        start matches Some(s) ==> s.beta@.len() == 0 || forall|r: int|
            0 <= r < kept_cols(aliased@).len() ==> #[trigger] kept_cols(aliased@)[r]
                < s.beta@.len(),
        forall|i: int|
            0 <= i < opts.target_indices@.len() ==> #[trigger] opts.target_indices@[i] < p,
    ensures
        (r is Unfittable) == slope_dropped(model@, reduction_map(aliased@)),
        match r {
            Reduction::Unfittable(f) => {
                &&& f.is_unestimated(p as nat, re_width(model@.re))
                &&& f.diagnostics.aliased@ == aliased@
                &&& f.reml == (model.family is Gaussian)
            },
            Reduction::Reduced(q) => is_reduced(
                q,
                x@,
                n as int,
                p as int,
                model@,
                match start {
                    Some(s) => Some(*s),
                    None => None,
                },
                *opts,
                aliased@,
            ),
        },
{
    let ghost mask = aliased@;
    proof {
        kept_columns_correspond(mask);
    }
    let mut kept: Vec<usize> = Vec::new();
    let mut to_reduced: Vec<usize> = Vec::with_capacity(p);
    let mut j: usize = 0;
    while j < p
        invariant
            j <= p,
            mask == aliased@,
            mask.len() == p,
            kept@ == kept_upto(mask, j as nat),
            kept@.len() <= j,
            to_reduced@.len() == j,
            forall|k: int| 0 <= k < j ==> #[trigger] to_reduced@[k] == reduction_map(mask)[k],
        decreases p - j,
    {
        if aliased[j] {
            to_reduced.push(usize::MAX);
        } else {
            to_reduced.push(kept.len());
            kept.push(j);
        }
        j = j + 1;
    }
    assert(to_reduced@ =~= reduction_map(mask));
    let model_r: ModelSpec = match remap_spec_slopes(model, to_reduced.as_slice()) {
        Some(m) => m,
        None => {
            return Reduction::Unfittable(unfittable_random_slope_fit(p, model, aliased));
        },
    };
    let xr: Vec<S> = reduced_design(x, n, p, &kept);
    let pk: usize = kept.len();
    let start_r: Option<StartValues<S>> = match start {
        Some(s) => {
            let mut beta: Vec<S> = Vec::new();
            if s.beta.len() > 0 {
                let mut r: usize = 0;
                while r < pk
                    invariant
                        r <= pk,
                        pk == kept@.len(),
                        s.beta@.len() > 0,
                        forall|k: int| 0 <= k < pk ==> #[trigger] kept@[k] < s.beta@.len(),
                        beta@ == reduced_beta(s.beta@, kept@).take(r as int),
                    decreases pk - r,
                {
                    beta.push(s.beta[kept[r]]);
                    r = r + 1;
                }
            }
            assert(beta@ =~= reduced_beta(s.beta@, kept@));
            Some(StartValues { beta, theta: copied(s.theta.as_slice()) })
        },
        None => None,
    };
    let mut targets: Vec<u32> = Vec::new();
    let mut t: usize = 0;
    while t < opts.target_indices.len()
        invariant
            t <= opts.target_indices.len(),
            mask == aliased@,
            mask.len() == p,
            to_reduced@ == reduction_map(mask),
            forall|i: int|
                0 <= i < opts.target_indices@.len() ==> #[trigger] opts.target_indices@[i] < p,
            targets@ == reduced_targets(opts.target_indices@, mask, t as nat),
        decreases opts.target_indices.len() - t,
    {
        let at: usize = opts.target_indices[t] as usize;
        if !aliased[at] {
            assert(to_reduced@[at as int] == reduced_index(mask, at as int) as usize);
            proof {
                kept_columns_correspond(mask);
            }
            targets.push(to_reduced[at] as u32);
        }
        t = t + 1;
    }
    let opts_r: FitOptions<S> = opts.with_targets(targets);
    Reduction::Reduced(
        ReducedProblem { kept, x: xr, p: pk, model: model_r, start: start_r, opts: opts_r },
    )
}

/// A note with its columns moved back to the design that was reduced.
pub open spec fn restored_note<S>(note: NoteView<S>, kept: Seq<usize>) -> NoteView<S> {
    match note {
        NoteView::IllConditioned { columns, pivot } => NoteView::IllConditioned {
            columns: Seq::new(columns.len(), |i: int| kept[columns[i] as int] as u32),
            pivot,
        },
        other => other,
    }
}

/// Every column that the notes name is one of `pk`.
pub open spec fn notes_below<S>(notes: Seq<NoteView<S>>, pk: nat) -> bool {
    forall|i: int, c: int|
        0 <= i < notes.len() && notes[i] is IllConditioned && 0 <= c
            < notes[i]->IllConditioned_columns.len()
            ==> #[trigger] notes[i]->IllConditioned_columns[c] < pk
}

/// A sequence over the kept columns, spread over all columns; a dropped column
/// has `blank`.
pub open spec fn spread<T>(v: Seq<T>, aliased: Seq<bool>, blank: T) -> Seq<T> {
    Seq::new(
        aliased.len(),
        |j: int|
            if aliased[j] {
                blank
            } else {
                v[reduced_index(aliased, j)]
            },
    )
}

/// The reduced fit `fr` covers the kept columns.
pub open spec fn covers<S: Scalar>(fr: Fit<S>, pk: nat) -> bool {
    &&& pk <= fr.beta@.len()
    &&& pk <= fr.se@.len()
    &&& pk <= fr.diagnostics.aliased@.len()
    &&& pk <= fr.vcov@.len()
    &&& forall|r: int| 0 <= r < pk ==> pk <= (#[trigger] fr.vcov@[r])@.len()
    &&& notes_below(notes_view(fr.diagnostics.notes@), pk)
}

/// The columns dropped here, and those that the reduced fit dropped in turn.
pub open spec fn dropped_at_any_level(aliased: Seq<bool>, inner: Seq<bool>) -> Seq<bool> {
    Seq::new(
        aliased.len(),
        |j: int| aliased[j] || inner[reduced_index(aliased, j)],
    )
}

/// Spread a sequence over the kept columns over all columns.
fn spread_out<T: Copy>(v: &Vec<T>, p: usize, kept: &Vec<usize>, aliased: &[bool], blank: T) -> (r:
    Vec<T>)
    requires
        aliased@.len() == p,
        kept@ == kept_cols(aliased@),
        kept@.len() <= v@.len(),
    ensures
        r@ == spread(v@, aliased@, blank),
{
    let ghost mask = aliased@;
    proof {
        kept_columns_correspond(mask);
    }
    let mut out: Vec<T> = filled(p, blank);
    let mut r: usize = 0;
    while r < kept.len()
        invariant
            r <= kept.len(),
            mask == aliased@,
            mask.len() == p,
            kept@ == kept_cols(mask),
            kept@.len() <= v@.len(),
            out@.len() == p,
            forall|j: int|
                0 <= j < p ==> #[trigger] out@[j] == (if !mask[j] && reduced_index(mask, j) < r {
                    v@[reduced_index(mask, j)]
                } else {
                    blank
                }),
        decreases kept.len() - r,
    {
        proof {
            kept_columns_correspond(mask);
            let c = kept_cols(mask)[r as int];
            assert(c < p);
        }
        let at: usize = kept[r];
        let ghost before = out@;
        out[at] = v[r];
        proof {
            assert forall|j: int| 0 <= j < p implies #[trigger] out@[j] == (if !mask[j]
                && reduced_index(mask, j) < r + 1 {
                v@[reduced_index(mask, j)]
            } else {
                blank
            }) by {
                if j != at {
                    assert(before[j] == out@[j]);
                    if !mask[j] && reduced_index(mask, j) == r {
                        assert(kept_cols(mask)[reduced_index(mask, j)] == j);
                    }
                }
            }
        }
        r = r + 1;
    }
    assert(out@ =~= spread(v@, mask, blank));
    out
}

/// The notes of a reduced fit, with their columns moved back.
fn restore_notes<S: Scalar>(notes: &Vec<Note<S>>, kept: &Vec<usize>) -> (r: Vec<Note<S>>)
    requires
        notes_below(notes_view(notes@), kept@.len()),
    ensures
        notes_view(r@) == Seq::new(
            notes@.len(),
            |i: int| restored_note(notes@[i]@, kept@),
        ),
{
    let mut out: Vec<Note<S>> = Vec::with_capacity(notes.len());
    let mut i: usize = 0;
    while i < notes.len()
        invariant
            i <= notes.len(),
            notes_below(notes_view(notes@), kept@.len()),
            out@.len() == i,
            forall|k: int|
                0 <= k < i ==> (#[trigger] out@[k])@ == restored_note(notes@[k]@, kept@),
        decreases notes.len() - i,
    {
        let note: Note<S> = match &notes[i] {
            Note::IllConditioned { columns, pivot } => {
                let ghost named = notes_view(notes@)[i as int]->IllConditioned_columns;
                assert(named == columns@);
                let mut moved_back: Vec<u32> = Vec::with_capacity(columns.len());
                let mut c: usize = 0;
                while c < columns.len()
                    invariant
                        c <= columns.len(),
                        i < notes.len(),
                        notes_below(notes_view(notes@), kept@.len()),
                        notes_view(notes@)[i as int] is IllConditioned,
                        named == notes_view(notes@)[i as int]->IllConditioned_columns,
                        named == columns@,
                        moved_back@.len() == c,
                        forall|k: int|
                            0 <= k < c ==> #[trigger] moved_back@[k]
                                == kept@[columns@[k] as int] as u32,
                    decreases columns.len() - c,
                {
                    assert(notes_view(notes@)[i as int]->IllConditioned_columns[c as int]
                        < kept@.len());
                    moved_back.push(kept[columns[c] as usize] as u32);
                    c = c + 1;
                }
                let note: Note<S> = Note::IllConditioned { columns: moved_back, pivot: *pivot };
                assert(note@ =~= restored_note(notes@[i as int]@, kept@));
                note
            },
            Note::PirlsExhausted { evals, final_eval } => Note::PirlsExhausted {
                evals: *evals,
                final_eval: *final_eval,
            },
            Note::HessianSeFallback => Note::HessianSeFallback,
            Note::UnusedGroupingLevels { grouping } => Note::UnusedGroupingLevels {
                grouping: *grouping,
            },
        };
        assert(note@ == restored_note(notes@[i as int]@, kept@));
        out.push(note);
        i = i + 1;
    }
    assert(notes_view(out@) =~= Seq::new(
        notes@.len(),
        |i: int| restored_note(notes@[i]@, kept@),
    ));
    out
}

/// The whole fit `f` reports the reduced fit `fr` over all columns.
pub open spec fn is_scattered<S: Scalar>(f: Fit<S>, fr: Fit<S>, aliased: Seq<bool>) -> bool {
    let p = aliased.len();
    &&& f.beta@ == spread(fr.beta@, aliased, S::nan_of())
    &&& f.se@ == spread(fr.se@, aliased, S::nan_of())
    &&& f.vcov@.len() == p
    &&& forall|i: int|
        0 <= i < p ==> (#[trigger] f.vcov@[i])@ == if aliased[i] {
            constant(p, S::nan_of())
        } else {
            spread(fr.vcov@[reduced_index(aliased, i)]@, aliased, S::nan_of())
        }
    &&& f.diagnostics.aliased@ == dropped_at_any_level(aliased, fr.diagnostics.aliased@)
    &&& f.diagnostics.converged == fr.diagnostics.converged
    &&& f.diagnostics.singular == fr.diagnostics.singular
    &&& f.diagnostics.boundary == fr.diagnostics.boundary
    &&& f.diagnostics.pinned == fr.diagnostics.pinned
    &&& notes_view(f.diagnostics.notes@) == Seq::new(
        fr.diagnostics.notes@.len(),
        |i: int| restored_note(fr.diagnostics.notes@[i]@, kept_cols(aliased)),
    )
    &&& f.tau2 == fr.tau2
    &&& f.dispersion == fr.dispersion
    &&& f.varcorr == fr.varcorr
    &&& f.stddev_se == fr.stddev_se
    &&& f.n_eval == fr.n_eval
    &&& f.deviance == fr.deviance
    &&& f.loglik == fr.loglik
    &&& f.df == fr.df
    &&& f.reml == fr.reml
    &&& f.fitted == fr.fitted
    &&& f.ranef == fr.ranef
    &&& f.ranef_levels == fr.ranef_levels
}

/// The columns dropped at this level or by the reduced fit.
fn union_aliased(inner: &Vec<bool>, p: usize, kept: &Vec<usize>, aliased: &[bool]) -> (r: Vec<
    bool,
>)
    requires
        aliased@.len() == p,
        kept@ == kept_cols(aliased@),
        kept@.len() <= inner@.len(),
    ensures
        r@ == dropped_at_any_level(aliased@, inner@),
{
    let out: Vec<bool> = spread_out(inner, p, kept, aliased, true);
    assert(out@ =~= dropped_at_any_level(aliased@, inner@));
    out
}

/// Report the fit `fr` of the kept columns over all columns. A kept column takes
/// what the reduced fit says of it; a dropped one is undefined in the estimates,
/// in the standard errors and in its whole row and column of the covariance. The
/// columns that a note names are moved back, and everything that does not belong
/// to a column passes through.
pub fn scatter_fit<S: Scalar>(
    p: usize,
    aliased: &[bool],
    kept: &Vec<usize>,
    fr: Fit<S>,
) -> (f: Fit<S>)
    requires
        aliased@.len() == p,
        kept@ == kept_cols(aliased@),
        covers(fr, kept@.len()),
    ensures
        is_scattered(f, fr, aliased@),
{
    let ghost mask = aliased@;
    proof {
        kept_columns_correspond(mask);
    }
    let beta: Vec<S> = spread_out(&fr.beta, p, kept, aliased, S::nan());
    let se: Vec<S> = spread_out(&fr.se, p, kept, aliased, S::nan());
    let mut vcov: Vec<Vec<S>> = Vec::with_capacity(p);
    let mut next: usize = 0;
    let mut i: usize = 0;
    while i < p
        invariant
            i <= p,
            mask == aliased@,
            mask.len() == p,
            kept@ == kept_cols(mask),
            covers(fr, kept@.len()),
            next == reduced_index(mask, i as int),
            next <= i,
            vcov@.len() == i,
            forall|k: int|
                0 <= k < i ==> (#[trigger] vcov@[k])@ == if mask[k] {
                    constant(p as nat, S::nan_of())
                } else {
                    spread(fr.vcov@[reduced_index(mask, k)]@, mask, S::nan_of())
                },
        decreases p - i,
    {
        if aliased[i] {
            vcov.push(filled(p, S::nan()));
        } else {
            proof {
                kept_columns_correspond(mask);
                assert(reduced_index(mask, i as int) < kept@.len());
                assert(kept@.len() <= fr.vcov@[next as int]@.len());
            }
            vcov.push(spread_out(&fr.vcov[next], p, kept, aliased, S::nan()));
            next = next + 1;
        }
        i = i + 1;
    }
    let notes: Vec<Note<S>> = restore_notes(&fr.diagnostics.notes, kept);
    let dropped: Vec<bool> = union_aliased(&fr.diagnostics.aliased, p, kept, aliased);
    let mut diagnostics: Diagnostics<S> = fr.diagnostics;
    diagnostics.aliased = dropped;
    diagnostics.notes = notes;
    Fit {
        beta,
        se,
        vcov,
        tau2: fr.tau2,
        dispersion: fr.dispersion,
        diagnostics,
        varcorr: fr.varcorr,
        stddev_se: fr.stddev_se,
        n_eval: fr.n_eval,
        deviance: fr.deviance,
        loglik: fr.loglik,
        df: fr.df,
        reml: fr.reml,
        fitted: fr.fitted,
        ranef: fr.ranef,
        ranef_levels: fr.ranef_levels,
    }
}

/// A coefficient and its standard error are undefined exactly where the column is
/// reported as dropped, however deep the reduction went: if that holds of the
/// reduced fit, it holds of the whole one.
pub proof fn undefined_means_dropped<S: Scalar>(f: Fit<S>, fr: Fit<S>, aliased: Seq<bool>)
    requires
        aliased.len() <= usize::MAX,
        is_scattered(f, fr, aliased),
        covers(fr, kept_cols(aliased).len()),
        forall|r: int|
            0 <= r < kept_cols(aliased).len() ==> (#[trigger] fr.diagnostics.aliased@[r] <==> (
            fr.beta@[r] == S::nan_of() && fr.se@[r] == S::nan_of())),
    ensures
        forall|j: int|
            0 <= j < aliased.len() ==> (#[trigger] f.diagnostics.aliased@[j] <==> (f.beta@[j]
                == S::nan_of() && f.se@[j] == S::nan_of())),
{
    kept_columns_correspond(aliased);
    assert forall|j: int| 0 <= j < aliased.len() implies (#[trigger] f.diagnostics.aliased@[j] <==> (
    f.beta@[j] == S::nan_of() && f.se@[j] == S::nan_of())) by {
        if !aliased[j] {
            let r = reduced_index(aliased, j);
            assert(r < kept_cols(aliased).len());
            assert(fr.diagnostics.aliased@[r] <==> (fr.beta@[r] == S::nan_of() && fr.se@[r]
                == S::nan_of()));
        }
    }
}

/// A dropped column has no covariance with anything: its row and its column are
/// undefined throughout.
pub proof fn dropped_columns_have_no_covariance<S: Scalar>(
    f: Fit<S>,
    fr: Fit<S>,
    aliased: Seq<bool>,
    j: int,
    k: int,
)
    requires
        is_scattered(f, fr, aliased),
        0 <= j < aliased.len(),
        0 <= k < aliased.len(),
        aliased[j],
    ensures
        f.vcov@[j]@[k] == S::nan_of(),
        f.vcov@[k]@[j] == S::nan_of(),
{
    assert(f.vcov@[j]@ == constant(aliased.len(), S::nan_of()));
    let row = f.vcov@[k]@;
}

/// The kept columns are the columns that are not redundant, in ascending order.
pub proof fn kept_columns_are_the_others(aliased: Seq<bool>, a: int, b: int, j: int)
    requires
        aliased.len() <= usize::MAX,
    ensures
        0 <= j < aliased.len() ==> (!aliased[j] <==> exists|r: int|
            0 <= r < kept_cols(aliased).len() && #[trigger] kept_cols(aliased)[r] == j),
        0 <= a < b < kept_cols(aliased).len() ==> kept_cols(aliased)[a] < kept_cols(aliased)[b],
{
    kept_columns_correspond(aliased);
    if 0 <= j < aliased.len() && !aliased[j] {
        assert(kept_cols(aliased)[reduced_index(aliased, j)] == j);
    }
    if 0 <= a < b < kept_cols(aliased).len() {
        lemma_kept_ascends(aliased, aliased.len(), a, b);
    }
}

proof fn lemma_kept_ascends(aliased: Seq<bool>, k: nat, a: int, b: int)
    requires
        k <= aliased.len() <= usize::MAX,
        0 <= a < b < kept_upto(aliased, k).len(),
    ensures
        kept_upto(aliased, k)[a] < kept_upto(aliased, k)[b],
    decreases k,
{
    let before = kept_upto(aliased, (k - 1) as nat);
    lemma_kept(aliased, (k - 1) as nat);
    if b < before.len() {
        lemma_kept_ascends(aliased, (k - 1) as nat, a, b);
    } else {
        assert(before[a] < k - 1);
    }
}

/// A column is mapped to its place among the kept ones, and a redundant one to no place.
pub proof fn columns_are_mapped_to_their_places(aliased: Seq<bool>, j: int)
    requires
        aliased.len() < usize::MAX,
        0 <= j < aliased.len(),
    ensures
        reduction_map(aliased).len() == aliased.len(),
        aliased[j] <==> reduction_map(aliased)[j] == usize::MAX,
        !aliased[j] ==> {
            &&& reduction_map(aliased)[j] < kept_cols(aliased).len()
            &&& kept_cols(aliased)[reduction_map(aliased)[j] as int] == j
        },
{
    kept_columns_correspond(aliased);
    if !aliased[j] {
        assert(reduced_index(aliased, j) < kept_cols(aliased).len());
    }
}

/// There is no reduced problem exactly if some random slope, of the primary or of an extra
/// grouping, stands on a redundant column.
pub proof fn unfittable_means_a_slope_on_a_redundant_column(m: ModelView, aliased: Seq<bool>)
    requires
        aliased.len() < usize::MAX,
        slopes_below(m, aliased.len()),
    ensures
        slope_dropped(m, reduction_map(aliased)) <==> m.re is Some && {
            ||| exists|i: int|
                0 <= i < m.re->0.slopes.len() && aliased[#[trigger] m.re->0.slopes[i] as int]
            ||| exists|g: int, i: int|
                0 <= g < m.re->0.extra_groupings.len() && 0 <= i
                    < m.re->0.extra_groupings[g].slopes.len()
                    && aliased[#[trigger] m.re->0.extra_groupings[g].slopes[i] as int]
        },
{
    let map = reduction_map(aliased);
    assert forall|j: int| 0 <= j < aliased.len() implies (#[trigger] aliased[j] <==> map[j]
        == usize::MAX) by {
        columns_are_mapped_to_their_places(aliased, j);
    }
    if m.re is Some {
        let re = m.re->0;
        if exists|i: int| 0 <= i < re.slopes.len() && aliased[#[trigger] re.slopes[i] as int] {
            let i = choose|i: int|
                0 <= i < re.slopes.len() && aliased[#[trigger] re.slopes[i] as int];
            assert(map[re.slopes[i] as int] == usize::MAX);
            assert(some_dropped(re.slopes, map));
        }
        if exists|g: int, i: int|
            0 <= g < re.extra_groupings.len() && 0 <= i < re.extra_groupings[g].slopes.len()
                && aliased[#[trigger] re.extra_groupings[g].slopes[i] as int] {
            let (g, i) = choose|g: int, i: int|
                0 <= g < re.extra_groupings.len() && 0 <= i < re.extra_groupings[g].slopes.len()
                    && aliased[#[trigger] re.extra_groupings[g].slopes[i] as int];
            assert(map[re.extra_groupings[g].slopes[i] as int] == usize::MAX);
            assert(some_dropped(re.extra_groupings[g].slopes, map));
        }
        if slope_dropped(m, map) {
            if some_dropped(re.slopes, map) {
                let i = choose|i: int|
                    0 <= i < re.slopes.len() && map[#[trigger] re.slopes[i] as int] == usize::MAX;
                assert(aliased[re.slopes[i] as int]);
            } else {
                let g = choose|g: int|
                    0 <= g < re.extra_groupings.len() && some_dropped(
                        (#[trigger] re.extra_groupings[g]).slopes,
                        map,
                    );
                let cols = re.extra_groupings[g].slopes;
                let i = choose|i: int|
                    0 <= i < cols.len() && map[#[trigger] cols[i] as int] == usize::MAX;
                assert(re.extra_groupings[g].slopes[i] < aliased.len());
                assert(aliased[re.extra_groupings[g].slopes[i] as int]);
            }
        }
    }
}

/// A random slope of the reduced problem stands on the numbers that it stood on before:
/// its column in the reduced design holds, row by row, what its column held in the design.
/// Family, clusters, groupings and their order stay.
pub proof fn reduced_slopes_stand_on_the_same_numbers<S: Scalar>(
    r: ReducedProblem<S>,
    x: Seq<S>,
    n: int,
    p: int,
    model: ModelView,
    start: Option<StartValues<S>>,
    opts: FitOptions<S>,
    aliased: Seq<bool>,
    i: int,
    g: int,
    d: int,
)
    requires
        is_reduced(r, x, n, p, model, start, opts, aliased),
        aliased.len() == p,
        p < u32::MAX,
        p < usize::MAX,
        slopes_below(model, p as nat),
        !slope_dropped(model, reduction_map(aliased)),
        0 <= i < n,
        model.re is Some,
    ensures
        ({
            let old_re = model.re->0;
            let new_re = r.model@.re->0;
            &&& r.model@.family == model.family
            &&& r.model@.re is Some
            &&& new_re.sizing == old_re.sizing
            &&& new_re.slopes.len() == old_re.slopes.len()
            &&& new_re.extra_groupings.len() == old_re.extra_groupings.len()
            &&& 0 <= d < old_re.slopes.len() ==> {
                &&& new_re.slopes[d] < r.p
                &&& r.x@[i * r.p + new_re.slopes[d]] == x[i * p + old_re.slopes[d]]
            }
            &&& 0 <= g < old_re.extra_groupings.len() ==> {
                let a = old_re.extra_groupings[g];
                let b = new_re.extra_groupings[g];
                &&& b.relation == a.relation
                &&& b.slopes.len() == a.slopes.len()
                &&& 0 <= d < a.slopes.len() ==> {
                    &&& b.slopes[d] < r.p
                    &&& r.x@[i * r.p + b.slopes[d]] == x[i * p + a.slopes[d]]
                }
            }
        }),
{
    let map = reduction_map(aliased);
    let kept = kept_cols(aliased);
    let re = model.re->0;
    kept_columns_correspond(aliased);
    if 0 <= d < re.slopes.len() {
        let c = re.slopes[d] as int;
        assert(re.slopes[d] < p);
        columns_are_mapped_to_their_places(aliased, c);
        if aliased[c] {
            assert(map[re.slopes[d] as int] == usize::MAX);
            assert(some_dropped(re.slopes, map));
        }
        let k = map[c] as int;
        assert(x[i * p + kept[k]] == r.x@[i * r.p + k]);
        assert(r.model@.re->0.slopes[d] == k);
    }
    if 0 <= g < re.extra_groupings.len() && 0 <= d < re.extra_groupings[g].slopes.len() {
        let cols = re.extra_groupings[g].slopes;
        let c = cols[d] as int;
        assert(re.extra_groupings[g].slopes[d] < p);
        columns_are_mapped_to_their_places(aliased, c);
        if aliased[c] {
            assert(map[cols[d] as int] == usize::MAX);
            assert(some_dropped(cols, map));
        }
        let k = map[c] as int;
        assert(x[i * p + kept[k]] == r.x@[i * r.p + k]);
        assert(r.model@.re->0.extra_groupings[g].slopes[d] == k);
    }
}

/// The targets of a reduced problem are the targets that were kept, in their order: one
/// more target adds its place among the kept columns, and a redundant one adds nothing.
pub proof fn reduced_targets_keep_their_order(targets: Seq<u32>, aliased: Seq<bool>, k: nat)
    requires
        aliased.len() < u32::MAX,
        aliased.len() < usize::MAX,
        k < targets.len(),
        targets[k as int] < aliased.len(),
    ensures
        reduced_targets(targets, aliased, 0).len() == 0,
        ({
            let before = reduced_targets(targets, aliased, k);
            let after = reduced_targets(targets, aliased, (k + 1) as nat);
            let t = targets[k as int] as int;
            if aliased[t] {
                after == before
            } else {
                &&& after.len() == before.len() + 1
                &&& forall|i: int| 0 <= i < before.len() ==> #[trigger] after[i] == before[i]
                &&& after.last() < kept_cols(aliased).len()
                &&& kept_cols(aliased)[after.last() as int] == t
            }
        }),
{
    kept_columns_correspond(aliased);
    let t = targets[k as int] as int;
    if !aliased[t] {
        assert(reduced_index(aliased, t) < kept_cols(aliased).len());
    }
}

/// A start for the kept columns is the start of those columns, and a cold one stays cold.
pub proof fn reduced_starts_are_the_kept_starts<S: Scalar>(beta: Seq<S>, kept: Seq<usize>, r: int)
    ensures
        beta.len() == 0 ==> reduced_beta(beta, kept).len() == 0,
        beta.len() > 0 ==> reduced_beta(beta, kept).len() == kept.len(),
        beta.len() > 0 && 0 <= r < kept.len() ==> reduced_beta(beta, kept)[r]
            == beta[kept[r] as int],
{
}

/// A kept column is reported as the reduced fit reports it: coefficient, standard error,
/// covariance with every other kept column, and whether it was dropped further down. What
/// belongs to no column passes through.
pub proof fn kept_columns_are_reported_as_fitted<S: Scalar>(
    f: Fit<S>,
    fr: Fit<S>,
    aliased: Seq<bool>,
    r: int,
    q: int,
)
    requires
        aliased.len() <= usize::MAX,
        is_scattered(f, fr, aliased),
        covers(fr, kept_cols(aliased).len()),
        0 <= r < kept_cols(aliased).len(),
        0 <= q < kept_cols(aliased).len(),
    ensures
        ({
            let a = kept_cols(aliased)[r] as int;
            let b = kept_cols(aliased)[q] as int;
            &&& f.beta@[a] == fr.beta@[r]
            &&& f.se@[a] == fr.se@[r]
            &&& f.vcov@[a]@[b] == fr.vcov@[r]@[q]
            &&& f.diagnostics.aliased@[a] == fr.diagnostics.aliased@[r]
        }),
        f.beta@.len() == aliased.len() && f.se@.len() == aliased.len() && f.vcov@.len()
            == aliased.len() && f.diagnostics.aliased@.len() == aliased.len(),
        f.tau2 == fr.tau2 && f.varcorr == fr.varcorr && f.stddev_se == fr.stddev_se,
        f.dispersion == fr.dispersion && f.deviance == fr.deviance && f.loglik == fr.loglik,
        f.df == fr.df && f.reml == fr.reml && f.n_eval == fr.n_eval,
        f.fitted == fr.fitted && f.ranef == fr.ranef && f.ranef_levels == fr.ranef_levels,
        f.diagnostics.converged == fr.diagnostics.converged && f.diagnostics.singular
            == fr.diagnostics.singular && f.diagnostics.boundary == fr.diagnostics.boundary
            && f.diagnostics.pinned == fr.diagnostics.pinned,
{
    kept_columns_correspond(aliased);
    let a = kept_cols(aliased)[r];
    let b = kept_cols(aliased)[q];
    assert(reduced_index(aliased, a as int) == r);
    assert(reduced_index(aliased, b as int) == q);
}

/// A redundant column is reported as dropped, with neither a coefficient nor a standard
/// error.
pub proof fn redundant_columns_are_reported_as_dropped<S: Scalar>(
    f: Fit<S>,
    fr: Fit<S>,
    aliased: Seq<bool>,
    j: int,
)
    requires
        is_scattered(f, fr, aliased),
        0 <= j < aliased.len(),
        aliased[j],
    ensures
        f.diagnostics.aliased@[j],
        f.beta@[j] == S::nan_of(),
        f.se@[j] == S::nan_of(),
{
}

/// A note of the reduced fit stays the note that it was, in its place; the columns that it
/// names are named by their places in the whole design.
pub proof fn notes_name_columns_of_the_whole_design<S: Scalar>(
    f: Fit<S>,
    fr: Fit<S>,
    aliased: Seq<bool>,
    i: int,
    c: int,
)
    requires
        aliased.len() <= u32::MAX,
        aliased.len() <= usize::MAX,
        is_scattered(f, fr, aliased),
        covers(fr, kept_cols(aliased).len()),
        0 <= i < fr.diagnostics.notes@.len(),
    ensures
        f.diagnostics.notes@.len() == fr.diagnostics.notes@.len(),
        match fr.diagnostics.notes@[i]@ {
            NoteView::IllConditioned { columns, pivot } => {
                let out = f.diagnostics.notes@[i]@;
                &&& out is IllConditioned
                &&& out->pivot == pivot
                &&& out->columns.len() == columns.len()
                &&& 0 <= c < columns.len() ==> out->columns[c] == kept_cols(
                    aliased,
                )[columns[c] as int]
            },
            other => f.diagnostics.notes@[i]@ == other,
        },
{
    kept_columns_correspond(aliased);
    let all = notes_view(f.diagnostics.notes@);
    assert(all.len() == f.diagnostics.notes@.len());
    assert(all[i] == f.diagnostics.notes@[i]@);
    let notes = notes_view(fr.diagnostics.notes@);
    assert(notes[i] == fr.diagnostics.notes@[i]@);
    if notes[i] is IllConditioned && 0 <= c < notes[i]->IllConditioned_columns.len() {
        assert(notes[i]->IllConditioned_columns[c] < kept_cols(aliased).len());
        let k = kept_cols(aliased)[notes[i]->IllConditioned_columns[c] as int];
        assert(k < aliased.len());
    }
}

} // verus!
