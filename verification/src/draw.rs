//! One draw on a workspace: check that it has the shape, put it into the buffers,
//! and say what to run.
use crate::diagnostics::notes_view;
use crate::fit::{unestimated_fits_say_nothing, Fit};
use crate::fitted::{row_level, rows_in_levels, slopes_in_design};
use crate::glmm::{
    is_degenerate, prep_glmm_design, refuse_degenerate, weights_after, weights_reach_their_rows,
};
use crate::groupings::{
    layout_width_is_topology_width, own_extra_cols, widened, LmmGroupings,
};
use crate::matrix::{at_least_one, fill_col_major};
use crate::model::{re_width, GroupIds, GroupingRelation, ModelView};
use crate::options::{opt_seq, FitOptions, StartValues};
use crate::perm::{exchange_moves_two_entries, exchanged, Perm};
use crate::reading::exact;
use crate::scalar::{constant, copied, rows, Scalar};
use crate::shape::{
    accepted_ids_cover_every_row, accepted_slopes_are_columns, assert_group_ids, ids_error,
    refused_rows, GroupIdsError,
};
use crate::sizing::{
    blocked, count_levels, counts_levels, gapless, level_count, level_counts_reach_the_largest,
    levels_used, levels_used_is_least,
    nested_levels_find_room, sized, sizing_keeps_the_model, widest,
};
use crate::view::{
    prebuilt_view, variances_of, wald_of, warm_start_round_trip, FitView, FitViewKind,
};
use crate::workspace::{
    capacity_of, extras_of, one_model_has_one_layout, FitKind, FitWorkspace, Route,
};
use vstd::prelude::*;

verus! {

/// Why a draw cannot be fitted on a workspace.
#[derive(Clone, Copy, Debug, PartialEq, Eq, Structural)]
pub enum CallError {
    /// More rows than the workspace was built for.
    TooManyRows,
    /// The design does not have the workspace's number of columns.
    DesignLength,
    /// Another number of quadrature nodes.
    Nagq,
    /// Another number of targets.
    TargetCount,
    /// Weights where there were none, or none where there were some.
    WeightsPresence,
    /// An offset where there was none, or none where there was one.
    OffsetPresence,
    /// Another use of threads.
    ParallelInner,
    /// The levels do not cover the rows.
    Ids(GroupIdsError),
    /// Another number of primary levels.
    PrimaryLevels,
    /// More levels in an extra grouping than there is room for.
    ExtraCapacity {
        /// The grouping.
        grouping: usize,
    },
}

/// The first of the first `k` extra groupings whose levels find no room.
pub open spec fn first_over_capacity(
    extra: Seq<Seq<u32>>,
    capacity: Seq<usize>,
    k: nat,
) -> Option<CallError>
    decreases k,
{
    if k == 0 {
        None
    } else {
        match first_over_capacity(extra, capacity, (k - 1) as nat) {
            Some(e) => Some(e),
            None => if levels_used(extra[k - 1]) > capacity[k - 1] {
                Some(CallError::ExtraCapacity { grouping: (k - 1) as usize })
            } else {
                None
            },
        }
    }
}

/// What the levels of a draw are refused for.
pub open spec fn level_error<S: Scalar>(
    ws: FitWorkspace<S>,
    n: nat,
    primary: Seq<u32>,
    extra: Seq<Seq<u32>>,
) -> Option<CallError> {
    match ws.sized@.re {
        None => None,
        Some(re) => match ids_error(re.extra_groupings.len(), primary, extra, n) {
            Some(e) => Some(CallError::Ids(e)),
            None => if level_count(primary) != ws.build_primary_levels {
                Some(CallError::PrimaryLevels)
            } else {
                first_over_capacity(extra, ws.build_extra_capacity@, extra.len())
            },
        },
    }
}

/// What a draw is refused for, the first of its faults; `None` for one that has
/// the shape of the workspace.
pub open spec fn call_error<S: Scalar>(
    ws: FitWorkspace<S>,
    x_len: nat,
    n: nat,
    primary: Seq<u32>,
    extra: Seq<Seq<u32>>,
    opts: FitOptions<S>,
) -> Option<CallError> {
    if n > ws.n_max {
        Some(CallError::TooManyRows)
    } else if x_len != n * ws.p {
        Some(CallError::DesignLength)
    } else if opts.nagq != ws.nagq {
        Some(CallError::Nagq)
    } else if opts.target_indices@.len() != ws.n_targets {
        Some(CallError::TargetCount)
    } else if (opts.weights is Some) != ws.has_weights {
        Some(CallError::WeightsPresence)
    } else if (opts.offset is Some) != ws.has_offset {
        Some(CallError::OffsetPresence)
    } else if opts.parallel_inner != ws.parallel_inner {
        Some(CallError::ParallelInner)
    } else {
        level_error(ws, n, primary, extra)
    }
}

/// Whether a draw has the shape and the fixed options of the workspace; the first
/// fault where it does not. The primary levels are compared exactly, with one
/// level for a draw without rows; an extra grouping need not fill its room.
pub fn check_call<S: Scalar>(
    ws: &FitWorkspace<S>,
    x: &[S],
    y: &[S],
    ids: &GroupIds,
    opts: &FitOptions<S>,
) -> (r: Result<(), CallError>)
    requires
        ws.wf(),
    ensures
        r == (match call_error(
            *ws,
            x@.len(),
            y@.len(),
            ids.primary@,
            rows(ids.extra@),
            *opts,
        ) {
            None => Ok::<(), CallError>(()),
            Some(e) => Err(e),
        }),
{
    let n: usize = y.len();
    if n > ws.n_max {
        return Err(CallError::TooManyRows);
    }
    assert(x.len() == x@.len());
    match n.checked_mul(ws.p) {
        Some(np) => if x.len() != np {
            return Err(CallError::DesignLength);
        },
        None => {
            return Err(CallError::DesignLength);
        },
    }
    if opts.nagq != ws.nagq {
        return Err(CallError::Nagq);
    }
    if opts.target_indices.len() != ws.n_targets {
        return Err(CallError::TargetCount);
    }
    if opts.weights.is_some() != ws.has_weights {
        return Err(CallError::WeightsPresence);
    }
    if opts.offset.is_some() != ws.has_offset {
        return Err(CallError::OffsetPresence);
    }
    if opts.parallel_inner != ws.parallel_inner {
        return Err(CallError::ParallelInner);
    }
    match &ws.sized.re {
        None => Ok(()),
        Some(re) => {
            if let Err(e) = assert_group_ids(re, ids, n) {
                return Err(CallError::Ids(e));
            }
            let used: u64 = count_levels(ids.primary.as_slice());
            let primary: u64 = if ids.primary.len() == 0 {
                1
            } else {
                used
            };
            if primary != ws.build_primary_levels as u64 {
                return Err(CallError::PrimaryLevels);
            }
            let ghost extra = rows(ids.extra@);
            let ghost capacity = ws.build_extra_capacity@;
            proof {
                accepted_ids_cover_every_row(
                    re@.extra_groupings.len(),
                    ids.primary@,
                    extra,
                    n as nat,
                );
            }
            let mut over: Option<CallError> = None;
            let mut g: usize = 0;
            while g < ids.extra.len()
                invariant
                    g <= ids.extra.len(),
                    extra == rows(ids.extra@),
                    capacity == ws.build_extra_capacity@,
                    capacity.len() == extra.len(),
                    over == first_over_capacity(extra, capacity, g as nat),
                decreases ids.extra.len() - g,
            {
                assert(extra[g as int] == ids.extra@[g as int]@);
                let levels: u64 = count_levels(ids.extra[g].as_slice());
                if over.is_none() && levels > ws.build_extra_capacity[g] as u64 {
                    over = Some(CallError::ExtraCapacity { grouping: g });
                }
                g = g + 1;
            }
            match over {
                Some(e) => Err(e),
                None => Ok(()),
            }
        },
    }
}

proof fn lemma_first_over_capacity(extra: Seq<Seq<u32>>, capacity: Seq<usize>, k: nat)
    requires
        k <= extra.len(),
        first_over_capacity(extra, capacity, k) is None,
    ensures
        forall|g: int| 0 <= g < k ==> levels_used(#[trigger] extra[g]) <= capacity[g],
    decreases k,
{
    if k > 0 {
        lemma_first_over_capacity(extra, capacity, (k - 1) as nat);
    }
}

/// A level of an accepted draw lies in its own grouping's block: below the primary
/// levels of the workspace, and below the room of its extra grouping. No row can
/// reach the block of the next grouping.
pub proof fn accepted_levels_stay_in_their_block<S: Scalar>(
    ws: FitWorkspace<S>,
    n: nat,
    primary: Seq<u32>,
    extra: Seq<Seq<u32>>,
    i: int,
    g: int,
)
    requires
        ws.wf(),
        ws.sized@.re is Some,
        level_error(ws, n, primary, extra) is None,
        0 <= i < n,
        0 <= g < extra.len(),
    ensures
        primary[i] < ws.build_primary_levels,
        extra[g][i] < ws.build_extra_capacity@[g],
{
    accepted_ids_cover_every_row(
        ws.sized@.re->0.extra_groupings.len(),
        primary,
        extra,
        n,
    );
    levels_used_is_least(primary, 0);
    assert(extra[g].len() == n);
    levels_used_is_least(extra[g], 0);
    lemma_first_over_capacity(extra, ws.build_extra_capacity@, extra.len());
    let a = primary[i];
    let b = extra[g][i];
}

/// What to run for a draw. The design lies in the workspace.
#[derive(Debug)]
pub struct FitJob<S: Scalar> {
    /// The kernel.
    pub route: Route,
    /// Rows of the draw.
    pub n: usize,
    /// Columns of the design.
    pub p: usize,
    /// The response that the kernel fits.
    pub y: Vec<S>,
    /// Where the search starts, in the workspace's order of the groupings.
    pub start: Option<StartValues<S>>,
    /// The order that the workspace holds the groupings in.
    pub perm: Perm,
    /// The report of a generalized mixed draw whose fixed effects cannot be
    /// estimated: there is nothing to run.
    pub refused: Option<Fit<S>>,
}

/// The draw is refused exactly if the route is the dense generalized mixed one and
/// the draw has no more rows than columns, or no column; the report then estimates
/// nothing, at the width of the layout.
pub open spec fn refusal_of<S: Scalar>(
    refused: Option<Fit<S>>,
    kind: FitKind<S>,
    n: nat,
    p: nat,
) -> bool {
    &&& (refused is Some) == (kind.route() is GlmmDense && is_degenerate(n, p))
    &&& refused matches Some(f) ==> {
        &&& f.is_unestimated(p, kind.layout()->0.theta_len())
        &&& f.diagnostics.aliased@ == constant(p, false)
        &&& !f.reml
    }
}

/// The response without an offset.
pub open spec fn shifted<S: Scalar>(y: Seq<S>, o: Seq<S>) -> Seq<S> {
    Seq::new(y.len(), |i: int| y[i].less(o[i]))
}

/// The response that a route fits: a linear mixed model takes the offset off it
/// beforehand, any other kernel takes the offset along.
pub open spec fn effective_y<S: Scalar>(
    route: Route,
    y: Seq<S>,
    offset: Option<Seq<S>>,
) -> Seq<S> {
    match offset {
        Some(o) => if route is LmmDense {
            shifted(y, o)
        } else {
            y
        },
        None => y,
    }
}

/// The buffer of the response without its offset after a draw: the first entries are
/// the draw's where the draw has an offset, and the others stay as they are.
pub open spec fn shifted_after<S: Scalar>(
    before: Seq<S>,
    y: Seq<S>,
    offset: Option<Seq<S>>,
) -> Seq<S> {
    match offset {
        Some(o) => Seq::new(
            before.len(),
            |k: int|
                if k < y.len() {
                    y[k].less(o[k])
                } else {
                    before[k]
                },
        ),
        None => before,
    }
}

/// The buffers for `n_max` rows and `p` columns after a draw: the first rows of the
/// design are the draw's, whatever was there before, the other rows stay as they
/// are, and the options that vary from draw to draw are the draw's.
pub open spec fn holds_draw<S: Scalar>(
    after: FitKind<S>,
    before: FitKind<S>,
    n_max: nat,
    p: nat,
    x: Seq<S>,
    y: Seq<S>,
    opts: FitOptions<S>,
) -> bool {
    &&& after.route() == before.route()
    &&& after.layout() == before.layout()
    &&& !(after is Prebuilt) ==> forall|i: int, j: int|
        0 <= i < at_least_one(n_max) && 0 <= j < at_least_one(p) ==> #[trigger] after.design(i, j)
            == (if i < y.len() && j < p {
            x[i * p + j]
        } else {
            before.design(i, j)
        })
    &&& after matches FitKind::LmmDense { y_shifted, .. } ==> y_shifted@ == shifted_after(
        before->LmmDense_y_shifted@,
        y,
        opt_seq(opts.offset),
    )
    &&& after matches FitKind::GlmmDense { state, .. } ==> {
        &&& state.parallel_inner == opts.parallel_inner
        &&& state.weighted == (opts.weights is Some)
        &&& state.prior_w@ == weights_after(
            before->GlmmDense_state.prior_w@,
            opt_seq(opts.weights),
            y.len() as int,
        )
        &&& opt_seq(state.offset) == opt_seq(opts.offset)
    }
}

/// The draw's vectors are long enough for the route: an offset covers the rows of a
/// linear mixed model, and weights are one per row of a generalized one.
pub open spec fn vectors_fit<S: Scalar>(route: Route, n: nat, opts: FitOptions<S>) -> bool {
    &&& route is LmmDense ==> (opts.offset matches Some(o) ==> n <= o@.len())
    &&& route is GlmmDense ==> (opts.weights matches Some(w) ==> w@.len() == n)
}

/// Put a draw into the buffers, and hand back the response to fit.
fn load_draw<S: Scalar>(
    kind: &mut FitKind<S>,
    n_max: usize,
    x: &[S],
    y: &[S],
    p: usize,
    opts: &FitOptions<S>,
) -> (y_eff: Vec<S>)
    requires
        old(kind).wf(n_max as nat, p as nat),
        y@.len() <= n_max,
        x@.len() == y@.len() * p,
        vectors_fit(old(kind).route(), y@.len(), *opts),
    ensures
        final(kind).wf(n_max as nat, p as nat),
        holds_draw(*final(kind), *old(kind), n_max as nat, p as nat, x@, y@, *opts),
        y_eff@ == effective_y(old(kind).route(), y@, opt_seq(opts.offset)),
{
    let n: usize = y.len();
    match kind {
        FitKind::Ols { x_mat } => {
            fill_col_major(x_mat, x, n, p);
        },
        FitKind::Glm { x_mat } => {
            fill_col_major(x_mat, x, n, p);
        },
        FitKind::LmmDense { x_mat, y_shifted, .. } => {
            fill_col_major(x_mat, x, n, p);
            if let Some(o) = &opts.offset {
                let ghost before = y_shifted@;
                shift_into(y_shifted, y, o.as_slice());
                let mut out: Vec<S> = Vec::with_capacity(n);
                let mut i: usize = 0;
                while i < n
                    invariant
                        i <= n,
                        n == y@.len(),
                        n <= y_shifted@.len(),
                        n <= o@.len(),
                        forall|k: int| 0 <= k < n ==> #[trigger] y_shifted@[k] == y@[k].less(o@[k]),
                        out@ == shifted(y@, o@).take(i as int),
                    decreases n - i,
                {
                    out.push(y_shifted[i]);
                    i = i + 1;
                }
                assert(out@ =~= shifted(y@, o@));
                assert(y_shifted@ =~= shifted_after(before, y@, Some(o@)));
                return out;
            }
        },
        FitKind::GlmmDense { state, x_mat } => {
            fill_col_major(x_mat, x, n, p);
            prep_glmm_design(state, n, opts);
        },
        FitKind::Prebuilt(_) => {},
    }
    copied(y)
}

/// Fill the first rows of the buffer with the response without its offset.
fn shift_into<S: Scalar>(buf: &mut Vec<S>, y: &[S], o: &[S])
    requires
        y@.len() <= old(buf)@.len(),
        y@.len() <= o@.len(),
    ensures
        final(buf)@.len() == old(buf)@.len(),
        forall|k: int|
            0 <= k < final(buf)@.len() ==> #[trigger] final(buf)@[k] == (if k < y@.len() {
                y@[k].less(o@[k])
            } else {
                old(buf)@[k]
            }),
{
    let ghost start = buf@;
    let mut i: usize = 0;
    while i < y.len()
        invariant
            i <= y.len(),
            y@.len() <= start.len(),
            y@.len() <= o@.len(),
            buf@.len() == start.len(),
            forall|k: int|
                0 <= k < buf@.len() ==> #[trigger] buf@[k] == (if k < i {
                    y@[k].less(o@[k])
                } else {
                    start[k]
                }),
        decreases y.len() - i,
    {
        buf[i] = y[i].minus(o[i]);
        i = i + 1;
    }
}

/// The start in the workspace's order of the groupings.
pub open spec fn in_slot_order<S: Scalar>(
    r: Option<StartValues<S>>,
    start: Option<&StartValues<S>>,
    perm: Perm,
) -> bool {
    match start {
        None => r is None,
        Some(s) => r matches Some(t) && t.beta@ == s.beta@ && t.theta@ == exchanged(
            s.theta@,
            perm.slot as int,
        ),
    }
}

/// What to run for a draw on the workspace: its kernel, its rows, the response and
/// the start as the kernel takes them, and a refusal where there is nothing to run.
pub open spec fn is_job<S: Scalar>(
    job: FitJob<S>,
    ws: FitWorkspace<S>,
    y: Seq<S>,
    start: Option<&StartValues<S>>,
    opts: FitOptions<S>,
) -> bool {
    &&& job.route == ws.kind.route()
    &&& job.n == y.len()
    &&& job.p == ws.p
    &&& job.y@ == effective_y(ws.kind.route(), y, opt_seq(opts.offset))
    &&& in_slot_order(job.start, start, ws.perm)
    &&& job.perm == ws.perm
    &&& refusal_of(job.refused, ws.kind, y.len(), ws.p as nat)
}

/// Put a draw of the workspace's shape into its buffers, and say what to run.
///
/// The design takes the first rows of its buffer; what an earlier draw left in the
/// rows that this one uses is overwritten, and the options that vary from draw to
/// draw are set anew. A linear mixed model gets its response without the offset.
/// The variance parameters of a start come in declaration order, as a fit reports
/// them, and go to the kernel in the workspace's order. A generalized mixed draw
/// whose fixed effects cannot be estimated is not run at all.
pub fn fit_on<S: Scalar>(
    ws: &mut FitWorkspace<S>,
    x: &[S],
    y: &[S],
    ids: &GroupIds,
    start: Option<&StartValues<S>>,
    opts: &FitOptions<S>,
) -> (job: FitJob<S>)
    requires
        old(ws).wf(),
        call_error(*old(ws), x@.len(), y@.len(), ids.primary@, rows(ids.extra@), *opts) is None,
        vectors_fit(old(ws).kind.route(), y@.len(), *opts),
    ensures
        final(ws).wf(),
        holds_draw(
            final(ws).kind,
            old(ws).kind,
            old(ws).n_max as nat,
            old(ws).p as nat,
            x@,
            y@,
            *opts,
        ),
        *final(ws) == (FitWorkspace { kind: final(ws).kind, ..*old(ws) }),
        is_job(job, *old(ws), y@, start, *opts),
{
    let route: Route = ws.route();
    let perm: Perm = ws.perm;
    let p: usize = ws.p;
    let n_max: usize = ws.n_max;
    let refused: Option<Fit<S>> = match &ws.kind {
        FitKind::GlmmDense { state, .. } => refuse_degenerate(
            y.len(),
            p,
            state.groupings.n_theta(),
        ),
        _ => None,
    };
    let y_eff: Vec<S> = load_draw(&mut ws.kind, n_max, x, y, p, opts);
    let slot_start: Option<StartValues<S>> = match start {
        Some(s) => {
            let mut theta: Vec<S> = copied(s.theta.as_slice());
            perm.swap_slots(&mut theta);
            Some(StartValues { beta: copied(s.beta.as_slice()), theta })
        },
        None => None,
    };
    FitJob { route, n: y.len(), p, y: y_eff, start: slot_start, perm, refused }
}

/// The result is one of this route.
pub open spec fn result_of<S: Scalar>(kind: FitViewKind<S>, route: Route) -> bool {
    match route {
        Route::Ols => kind is Ols,
        Route::Glm => kind is Glm,
        Route::LmmDense => kind is Lmm,
        Route::GlmmDense => kind is Glmm,
        Route::Prebuilt(_) => kind is Prebuilt,
    }
}

impl<S: Scalar> FitJob<S> {
    /// The view of what the kernel of the route left behind, under the order that
    /// the workspace holds the groupings in.
    pub fn finish(self, kind: FitViewKind<S>) -> (v: FitView<S>)
        requires
            result_of(kind, self.route),
            kind.wf(),
        ensures
            v.wf(),
            v.kind == kind,
            v.perm == self.perm,
    {
        FitView::new(kind, self.perm)
    }

    /// The view of a report that is ready: one that the route assembled itself, or
    /// that of a refused draw.
    pub fn finish_prebuilt(self, fit: Fit<S>) -> (v: FitView<S>)
        requires
            self.route is Prebuilt || self.refused is Some,
            fit.beta@.len() <= fit.se@.len(),
        ensures
            v.wf(),
            v.perm == self.perm,
            v.kind matches FitViewKind::Prebuilt { fit: f, t_sq, var_diag } && f == fit && t_sq@
                == wald_of(fit) && var_diag@ == variances_of(fit),
    {
        prebuilt_view(fit, self.perm)
    }
}

/// Carrying the variance parameters of one fit into the next needs no mapping: the
/// parameters that a view reports, given as the start of the next draw on the
/// workspace, reach the kernel in the kernel's own order and in the units of the
/// design.
pub proof fn carried_start_reaches_the_kernel<S: Scalar>(
    v: FitView<S>,
    r: Option<StartValues<S>>,
    start: StartValues<S>,
)
    requires
        start.theta@ == v.declared_theta(),
        in_slot_order(r, Some(&start), v.perm),
    ensures
        r->0.theta@ == v.kind.slot_theta(),
{
    warm_start_round_trip(v);
}

/// What a draw leaves for the kernel to read does not depend on the draws before
/// it: two workspaces of one shape hold the same rows of the design, the same
/// weights and the same offset after the same draw, whatever they held before. A
/// draw without weights reads unit weights.
pub proof fn draws_forget_the_past<S: Scalar>(
    after1: FitWorkspace<S>,
    before1: FitWorkspace<S>,
    after2: FitWorkspace<S>,
    before2: FitWorkspace<S>,
    x: Seq<S>,
    y: Seq<S>,
    opts: FitOptions<S>,
    i: int,
    j: int,
)
    requires
        before1.wf(),
        before2.wf(),
        before1.same_shape(&before2),
        y.len() <= before1.n_max,
        (opts.weights is Some) == before1.has_weights,
        vectors_fit(before1.kind.route(), y.len(), opts),
        holds_draw(
            after1.kind,
            before1.kind,
            before1.n_max as nat,
            before1.p as nat,
            x,
            y,
            opts,
        ),
        holds_draw(
            after2.kind,
            before2.kind,
            before2.n_max as nat,
            before2.p as nat,
            x,
            y,
            opts,
        ),
        0 <= i < y.len(),
        0 <= j < before1.p,
    ensures
        after1.kind.route() == after2.kind.route(),
        reads_alike(after1.kind, after2.kind, opts, i, j),
{
    if !(after1.kind is Prebuilt) {
        let p = before1.p as nat;
        assert(after1.kind.design(i, j) == x[i * p + j]);
        assert(after2.kind.design(i, j) == x[i * p + j]);
    }
}

/// Two workspaces hold the same for row `i` and column `j` of a draw with these
/// options, and the same options: on the linear route the response without its
/// offset, where there is one, and on the generalized one the weight, which is 1
/// where the draw has none, the weight flag, the offset and the use of threads.
pub open spec fn reads_alike<S: Scalar>(
    a: FitKind<S>,
    b: FitKind<S>,
    opts: FitOptions<S>,
    i: int,
    j: int,
) -> bool {
    &&& a.route() == b.route()
    &&& !(a is Prebuilt) ==> a.design(i, j) == b.design(i, j)
    &&& a is LmmDense && opts.offset is Some ==> a->LmmDense_y_shifted@[i]
        == b->LmmDense_y_shifted@[i]
    &&& a is GlmmDense ==> {
        let s = a->GlmmDense_state;
        let t = b->GlmmDense_state;
        &&& s.prior_w@[i] == t.prior_w@[i]
        &&& s.prior_w@[i] == (match opts.weights {
            Some(w) => w@[i],
            None => S::one_of(),
        })
        &&& s.weighted == t.weighted
        &&& s.weighted == (opts.weights is Some)
        &&& s.parallel_inner == t.parallel_inner
        &&& opt_seq(s.offset) == opt_seq(t.offset)
        &&& opt_seq(s.offset) == opt_seq(opts.offset)
    }
}

/// The scales of a draw, set on top of it, leave nothing of the past either: two
/// workspaces of one shape, after the same draw and the same scales, hold the same
/// rows of the design, the same weights, weight flag and offset, and the same
/// layout with the same scales, whatever they held before.
pub proof fn scaled_draws_forget_the_past<S: Scalar>(
    after1: FitWorkspace<S>,
    before1: FitWorkspace<S>,
    after2: FitWorkspace<S>,
    before2: FitWorkspace<S>,
    x: Seq<S>,
    y: Seq<S>,
    opts: FitOptions<S>,
    primary1: Vec<S>,
    extra1: Vec<Vec<S>>,
    primary2: Vec<S>,
    extra2: Vec<Vec<S>>,
    i: int,
    j: int,
)
    requires
        before1.wf(),
        before2.wf(),
        before1.same_shape(&before2),
        before1.kind.layout() is Some,
        y.len() <= before1.n_max,
        (opts.weights is Some) == before1.has_weights,
        vectors_fit(before1.kind.route(), y.len(), opts),
        holds_draw(
            after1.kind,
            before1.kind,
            before1.n_max as nat,
            before1.p as nat,
            x,
            y,
            opts,
        ),
        holds_draw(
            after2.kind,
            before2.kind,
            before2.n_max as nat,
            before2.p as nat,
            x,
            y,
            opts,
        ),
        primary1@.len() == before1.kind.layout()->0.primary_q,
        extra1@.len() == before1.kind.layout()->0.extra_q@.len(),
        primary1@ == primary2@,
        rows(extra1@) == rows(extra2@),
        0 <= i < y.len(),
        0 <= j < before1.p,
    ensures
        reads_alike(
            after1.rescaled(primary1, extra1).kind,
            after2.rescaled(primary2, extra2).kind,
            opts,
            i,
            j,
        ),
        after1.rescaled(primary1, extra1).kind.layout() is Some,
        after2.rescaled(primary2, extra2).kind.layout() is Some,
        after1.rescaled(primary1, extra1).kind.layout()->0.same(
            &after2.rescaled(primary2, extra2).kind.layout()->0,
        ),
{
    draws_forget_the_past(after1, before1, after2, before2, x, y, opts, i, j);
    let ready1 = after1.rescaled(primary1, extra1);
    let ready2 = after2.rescaled(primary2, extra2);
    assert(ready1.kind.design(i, j) == after1.kind.design(i, j));
    assert(ready2.kind.design(i, j) == after2.kind.design(i, j));
    let a = before1.kind.layout()->0;
    let b = before2.kind.layout()->0;
    let g = ready1.kind.layout()->0;
    let h = ready2.kind.layout()->0;
    assert(g == a.rescaled(primary1, extra1) && h == b.rescaled(primary2, extra2));
    one_model_has_one_layout(a, b, before1.sized@, before1.n_max as nat);
    assert(g.widths() =~= a.widths() && h.widths() =~= b.widths());
    assert(g.levels() =~= a.levels() && h.levels() =~= b.levels());
    assert(g.slope_cols() =~= a.slope_cols() && h.slope_cols() =~= b.slope_cols());
    assert(a.widths().len() == 1 + a.extra_q@.len());
    assert(b.widths().len() == 1 + b.extra_q@.len());
    assert(rows(extra1@).len() == extra1@.len() && rows(extra2@).len() == extra2@.len());
    assert forall|e: int| 0 <= e < g.scales().len() implies #[trigger] g.scales()[e]
        == h.scales()[e] by {
        if e > 0 {
            assert(rows(extra1@)[e - 1] == extra1@[e - 1]@);
            assert(rows(extra2@)[e - 1] == extra2@[e - 1]@);
        }
    }
    assert(g.scales() =~= h.scales());
}

/// The same draw on two workspaces of one shape is the same job, whatever the two
/// went through before.
pub proof fn equal_draws_are_equal_jobs<S: Scalar>(
    job1: FitJob<S>,
    ws1: FitWorkspace<S>,
    job2: FitJob<S>,
    ws2: FitWorkspace<S>,
    y: Seq<S>,
    start: Option<&StartValues<S>>,
    opts: FitOptions<S>,
)
    requires
        ws1.wf(),
        ws2.wf(),
        ws1.same_shape(&ws2),
        is_job(job1, ws1, y, start, opts),
        is_job(job2, ws2, y, start, opts),
    ensures
        job1.route == job2.route,
        job1.n == job2.n,
        job1.p == job2.p,
        job1.y@ == job2.y@,
        job1.perm == job2.perm,
        (job1.start is Some) == (job2.start is Some),
        job1.start is Some ==> job1.start->0.same(&job2.start->0),
        (job1.refused is Some) == (job2.refused is Some),
        job1.refused is Some ==> job1.refused->0.same(&job2.refused->0),
{
    if job1.refused is Some {
        let g1 = ws1.kind.layout()->0;
        let g2 = ws2.kind.layout()->0;
        assert(g1.widths() == g2.widths());
        assert(g1.widths().len() == 1 + g1.extra_q@.len());
        assert(g2.widths().len() == 1 + g2.extra_q@.len());
        assert(g1.theta_len() == g2.theta_len());
        lemma_unestimated_alike(
            job1.refused->0,
            job2.refused->0,
            ws1.p as nat,
            g1.theta_len(),
        );
    }
}

/// Fits that estimate nothing, of one shape, report the same.
proof fn lemma_unestimated_alike<S: Scalar>(f: Fit<S>, g: Fit<S>, p: nat, n_theta: nat)
    requires
        f.is_unestimated(p, n_theta),
        g.is_unestimated(p, n_theta),
        f.diagnostics.aliased@ == g.diagnostics.aliased@,
        f.reml == g.reml,
    ensures
        f.same(&g),
{
    assert(rows(f.diagnostics.pinned@) =~= rows(g.diagnostics.pinned@));
    assert(notes_view(f.diagnostics.notes@) =~= notes_view(g.diagnostics.notes@));
    assert(rows(f.varcorr@) =~= rows(g.varcorr@));
    assert(f.stddev_se@ =~= g.stddev_se@);
    assert(f.fitted@ =~= g.fitted@);
    assert(f.ranef@ =~= g.ranef@);
    assert(f.ranef_levels@ =~= g.ranef_levels@);
}

/// The kernel used a layout of the workspace's widths.
pub open spec fn uses_layout<S: Scalar>(kind: FitViewKind<S>, ws: FitWorkspace<S>) -> bool {
    kind.kernel_groupings() matches Some(g) ==> g.widths() == ws.kind.layout()->0.widths()
}

/// The parameters that a view reports are as many as the caller's model has,
/// whatever order and scales the workspace held them in; a route without exposed
/// parameters reports none.
pub proof fn reported_parameters_are_the_models<S: Scalar>(
    ws: FitWorkspace<S>,
    v: FitView<S>,
    m: ModelView,
    primary: Seq<u32>,
    extra: Seq<Seq<u32>>,
)
    requires
        ws.wf(),
        ws.sized@ == sized(m, primary, extra),
        v.kind.wf(),
        result_of(v.kind, ws.kind.route()),
        uses_layout(v.kind, ws),
    ensures
        v.declared_theta().len() == (if ws.kind.route() is LmmDense || ws.kind.route() is GlmmDense {
            re_width(m.re)
        } else {
            0
        }),
{
    sizing_keeps_the_model(m, primary, extra);
    if v.kind.kernel_groupings() is Some {
        let g = v.kind.kernel_groupings()->0;
        let re = ws.sized@.re->0;
        assert(g.widths().len() == 1 + g.extra_q@.len());
        layout_width_is_topology_width(re, widened(re.slopes), own_extra_cols(re));
        assert(ws.sized@.re == Some(re));
    }
}

/// The rows of an accepted draw name levels of the workspace's layout, and its
/// slopes name columns of the design: the means can be summed up under any layout
/// with those levels and slopes.
pub proof fn accepted_draws_can_be_summed<S: Scalar>(
    ws: FitWorkspace<S>,
    g: LmmGroupings<S>,
    n: nat,
    primary: Seq<u32>,
    extra: Seq<Seq<u32>>,
)
    requires
        ws.wf(),
        ws.kind.layout() is Some,
        g.levels() == ws.kind.layout()->0.levels(),
        g.slope_cols() == ws.kind.layout()->0.slope_cols(),
        level_error(ws, n, primary, extra) is None,
    ensures
        rows_in_levels(g, primary, extra, n as int),
        slopes_in_design(g, ws.p as int),
{
    let re = ws.sized@.re->0;
    let w = ws.kind.layout()->0;
    accepted_ids_cover_every_row(re.extra_groupings.len(), primary, extra, n);
    accepted_slopes_are_columns(ws.sized@, ws.p as nat, ws.nagq);
    assert(g.levels().len() == 1 + g.extra_q@.len());
    assert(w.levels().len() == 1 + w.extra_q@.len());
    assert forall|e: int, i: int| 0 <= e <= extra.len() && 0 <= i < n implies #[trigger] row_level(
        primary,
        extra,
        e,
        i,
    ) < g.levels()[e] by {
        levels_used_is_least(primary, 0);
        if e == 0 {
            assert(primary[i] < levels_used(primary));
        } else {
            accepted_levels_stay_in_their_block(ws, n, primary, extra, i, e - 1);
            assert(ws.build_extra_capacity@[e - 1] == capacity_of(
                re.extra_groupings[e - 1],
                ws.build_primary_levels as nat,
            ));
        }
    }
    assert forall|e: int, d: int|
        0 <= e < g.slope_cols().len() && 0 <= d
            < g.slope_cols()[e].len() implies #[trigger] g.slope_cols()[e][d] < ws.p by {
        if e == 0 {
            assert(re.slopes[d] < ws.p);
        } else {
            assert(g.slope_cols()[e] == own_extra_cols(re)[e - 1]);
            assert(re.extra_groupings[e - 1].slopes[d] < ws.p);
        }
    }
}

/// The level counts of the rows are 32-bit numbers, and a nested grouping is
/// numbered without gaps or within a block per parent.
pub open spec fn well_numbered(m: ModelView, primary: Seq<u32>, extra: Seq<Seq<u32>>) -> bool {
    &&& level_count(primary) <= u32::MAX
    &&& forall|g: int|
        0 <= g < extras_of(m).len() ==> match (#[trigger] extras_of(m)[g]).relation {
            GroupingRelation::Crossed { .. } => level_count(extra[g]) <= u32::MAX,
            GroupingRelation::NestedWithin { .. } => {
                let w = widest(primary, extra[g], level_count(primary));
                &&& w <= u32::MAX
                &&& gapless(extra[g]) || blocked(primary, extra[g], w)
            },
        }
}

proof fn lemma_room_for_all(extra: Seq<Seq<u32>>, capacity: Seq<usize>, k: nat)
    requires
        k <= extra.len(),
        forall|g: int| 0 <= g < k ==> levels_used(#[trigger] extra[g]) <= capacity[g],
    ensures
        first_over_capacity(extra, capacity, k) is None,
    decreases k,
{
    if k > 0 {
        lemma_room_for_all(extra, capacity, (k - 1) as nat);
        assert(levels_used(extra[k - 1]) <= capacity[k - 1]);
    }
}

/// A workspace for a model that was sized from some rows accepts those rows.
pub proof fn own_rows_have_the_shape<S: Scalar>(
    ws: FitWorkspace<S>,
    m: ModelView,
    n: nat,
    primary: Seq<u32>,
    extra: Seq<Seq<u32>>,
)
    requires
        ws.wf(),
        m.re is Some,
        ws.sized@ == sized(m, primary, extra),
        ids_error(m.re->0.extra_groupings.len(), primary, extra, n) is None,
        well_numbered(m, primary, extra),
    ensures
        level_error(ws, n, primary, extra) is None,
{
    accepted_ids_cover_every_row(m.re->0.extra_groupings.len(), primary, extra, n);
    let np = level_count(primary);
    let capacity = ws.build_extra_capacity@;
    assert(ws.build_primary_levels == np);
    assert forall|g: int| 0 <= g < extra.len() implies levels_used(#[trigger] extra[g])
        <= capacity[g] by {
        let old_g = extras_of(m)[g];
        let new_g = extras_of(ws.sized@)[g];
        assert(new_g.relation == crate::sizing::sized_relation(
            old_g.relation,
            primary,
            extra[g],
        ));
        assert(capacity[g] == capacity_of(new_g, np));
        match old_g.relation {
            GroupingRelation::Crossed { .. } => {
                levels_used_is_least(extra[g], 0);
                if extra[g].len() > 0 {
                    assert(extra[g][0] < levels_used(extra[g]));
                }
            },
            GroupingRelation::NestedWithin { .. } => {
                nested_levels_find_room(primary, extra[g]);
                let w = widest(primary, extra[g], np);
                if w == 0 {
                    assert(np * w == 0) by (nonlinear_arith)
                        requires
                            w == 0,
                    ;
                }
            },
        }
    }
    lemma_room_for_all(extra, capacity, extra.len());
}

proof fn lemma_found_over_capacity(extra: Seq<Seq<u32>>, capacity: Seq<usize>, k: nat)
    requires
        k <= extra.len() <= usize::MAX,
    ensures
        first_over_capacity(extra, capacity, k) matches Some(e) ==> {
            &&& e is ExtraCapacity
            &&& e->grouping < k
            &&& levels_used(extra[e->grouping as int]) > capacity[e->grouping as int]
            &&& forall|g: int|
                0 <= g < e->grouping ==> levels_used(#[trigger] extra[g]) <= capacity[g]
        },
    decreases k,
{
    if k > 0 {
        lemma_found_over_capacity(extra, capacity, (k - 1) as nat);
        if first_over_capacity(extra, capacity, (k - 1) as nat) is None {
            lemma_first_over_capacity(extra, capacity, (k - 1) as nat);
        }
    }
}

/// Every level of the rows finds room below `room`.
pub open spec fn levels_below(v: Seq<u32>, room: int) -> bool {
    forall|i: int| 0 <= i < v.len() ==> #[trigger] v[i] < room
}

/// A draw is accepted exactly if it has no more rows than the workspace, a design with the
/// workspace's columns, the fixed options that the workspace was built with, and, under
/// random effects, a level of every grouping for each row, with just the workspace's
/// primary levels and no level that an extra grouping has no room for.
pub proof fn accepted_draws_have_the_shape<S: Scalar>(
    ws: FitWorkspace<S>,
    x_len: nat,
    n: nat,
    primary: Seq<u32>,
    extra: Seq<Seq<u32>>,
    opts: FitOptions<S>,
)
    requires
        ws.wf(),
        extra.len() <= usize::MAX,
    ensures
        call_error(ws, x_len, n, primary, extra, opts) is None <==> {
            &&& n <= ws.n_max
            &&& x_len == n * ws.p
            &&& opts.nagq == ws.nagq
            &&& opts.target_indices@.len() == ws.n_targets
            &&& opts.weights is Some <==> ws.has_weights
            &&& opts.offset is Some <==> ws.has_offset
            &&& opts.parallel_inner == ws.parallel_inner
            &&& ws.sized@.re is Some ==> {
                &&& primary.len() == n
                &&& extra.len() == ws.sized@.re->0.extra_groupings.len()
                &&& forall|g: int| 0 <= g < extra.len() ==> (#[trigger] extra[g]).len() == n
                &&& counts_levels(primary, ws.build_primary_levels as int)
                &&& forall|g: int|
                    0 <= g < extra.len() ==> levels_below(
                        #[trigger] extra[g],
                        ws.build_extra_capacity@[g] as int,
                    )
            }
        },
{
    if ws.sized@.re is Some {
        let re = ws.sized@.re->0;
        let capacity = ws.build_extra_capacity@;
        let n_extra = re.extra_groupings.len();
        refused_rows(n_extra, primary, extra, n);
        if ids_error(n_extra, primary, extra, n) is None {
            accepted_ids_cover_every_row(n_extra, primary, extra, n);
        }
        level_counts_reach_the_largest(primary);
        let c = level_count(primary) as int;
        let b = ws.build_primary_levels as int;
        if counts_levels(primary, b) && primary.len() > 0 {
            let i = choose|i: int| 0 <= i < primary.len() && #[trigger] primary[i] == b - 1;
            let j = choose|j: int| 0 <= j < primary.len() && #[trigger] primary[j] == c - 1;
            assert(primary[i] < c);
            assert(primary[j] < b);
        }
        assert forall|g: int| 0 <= g < extra.len() implies (levels_used(#[trigger] extra[g])
            <= capacity[g] <==> levels_below(extra[g], capacity[g] as int)) by {
            levels_used_is_least(extra[g], capacity[g] as nat);
        }
        if first_over_capacity(extra, capacity, extra.len()) is None {
            lemma_first_over_capacity(extra, capacity, extra.len());
        } else {
            lemma_found_over_capacity(extra, capacity, extra.len());
        }
    }
}

/// What a draw is refused for is its first fault, in the order of the checks: rows, design,
/// nodes, targets, weights, offset, threads, the lengths of the levels, the primary
/// levels, and then the first extra grouping with a level that finds no room.
pub proof fn refused_draws<S: Scalar>(
    ws: FitWorkspace<S>,
    x_len: nat,
    n: nat,
    primary: Seq<u32>,
    extra: Seq<Seq<u32>>,
    opts: FitOptions<S>,
)
    requires
        ws.wf(),
        extra.len() <= usize::MAX,
    ensures
        ({
            let e = call_error(ws, x_len, n, primary, extra, opts);
            let a = n <= ws.n_max;
            let b = a && x_len == n * ws.p;
            let c = b && opts.nagq == ws.nagq;
            let d = c && opts.target_indices@.len() == ws.n_targets;
            let f = d && (opts.weights is Some <==> ws.has_weights);
            let g = f && (opts.offset is Some <==> ws.has_offset);
            let h = g && opts.parallel_inner == ws.parallel_inner;
            &&& !a <==> e == Some(CallError::TooManyRows)
            &&& a && !b <==> e == Some(CallError::DesignLength)
            &&& b && !c <==> e == Some(CallError::Nagq)
            &&& c && !d <==> e == Some(CallError::TargetCount)
            &&& d && !f <==> e == Some(CallError::WeightsPresence)
            &&& f && !g <==> e == Some(CallError::OffsetPresence)
            &&& g && !h <==> e == Some(CallError::ParallelInner)
            &&& h && ws.sized@.re is Some && primary.len() != n <==> e == Some(
                CallError::Ids(GroupIdsError::PrimaryLength),
            )
            &&& h && ws.sized@.re is Some && primary.len() == n && extra.len()
                != ws.sized@.re->0.extra_groupings.len() <==> e == Some(
                CallError::Ids(GroupIdsError::ExtraCount),
            )
            &&& e == Some(CallError::PrimaryLevels) ==> h && primary.len() == n && !counts_levels(
                primary,
                ws.build_primary_levels as int,
            )
            &&& e is Some && e->0 is ExtraCapacity ==> {
                let at = e->0->grouping as int;
                &&& h && primary.len() == n
                &&& counts_levels(primary, ws.build_primary_levels as int)
                &&& 0 <= at < extra.len()
                &&& !levels_below(extra[at], ws.build_extra_capacity@[at] as int)
                &&& forall|k: int|
                    0 <= k < at ==> levels_below(
                        #[trigger] extra[k],
                        ws.build_extra_capacity@[k] as int,
                    )
            }
        }),
{
    let capacity = ws.build_extra_capacity@;
    lemma_found_over_capacity(extra, capacity, extra.len());
    level_counts_reach_the_largest(primary);
    if ws.sized@.re is Some {
        let n_extra = ws.sized@.re->0.extra_groupings.len();
        refused_rows(n_extra, primary, extra, n);
        if ids_error(n_extra, primary, extra, n) is None {
            accepted_ids_cover_every_row(n_extra, primary, extra, n);
        }
        let c = level_count(primary) as int;
        let b = ws.build_primary_levels as int;
        if counts_levels(primary, b) && primary.len() > 0 {
            let i = choose|i: int| 0 <= i < primary.len() && #[trigger] primary[i] == b - 1;
            let j = choose|j: int| 0 <= j < primary.len() && #[trigger] primary[j] == c - 1;
            assert(primary[i] < c);
            assert(primary[j] < b);
        }
        assert forall|g: int| 0 <= g < extra.len() implies (levels_used(#[trigger] extra[g])
            <= capacity[g] <==> levels_below(extra[g], capacity[g] as int)) by {
            levels_used_is_least(extra[g], capacity[g] as nat);
        }
    }
}

/// The response that a kernel fits, row by row: on the linear mixed route a draw with an
/// offset is fitted without it, and response and offset together are the draw's response
/// again; every other response is the draw's own.
pub proof fn fitted_responses_leave_the_offset_out<S: Scalar>(
    value: spec_fn(S) -> real,
    route: Route,
    y: Seq<S>,
    offset: Option<Seq<S>>,
    i: int,
)
    requires
        0 <= i < y.len(),
    ensures
        effective_y(route, y, offset).len() == y.len(),
        route == Route::LmmDense && offset is Some && exact(value) && y[i].finite()
            && offset->0[i].finite() ==> {
            let fitted = effective_y(route, y, offset)[i];
            fitted.finite() && value(fitted) + value(offset->0[i]) == value(y[i])
        },
        route != Route::LmmDense || offset is None ==> effective_y(route, y, offset)[i] == y[i],
{
}

/// What a job says: the workspace's kernel and order of the groupings, the rows of the
/// draw, its start with the same fixed effects and with the parameters of the primary
/// grouping and of grouping `slot` exchanged, and a refusal just for a generalized mixed
/// draw on the dense kernel that has no column or no more rows than columns.
pub proof fn jobs_say_what_to_run<S: Scalar>(
    job: FitJob<S>,
    ws: FitWorkspace<S>,
    y: Seq<S>,
    start: StartValues<S>,
    given: bool,
    opts: FitOptions<S>,
    k: int,
)
    requires
        is_job(
            job,
            ws,
            y,
            if given {
                Some(&start)
            } else {
                None
            },
            opts,
        ),
        ws.perm.slot < start.theta@.len(),
        0 <= k < start.theta@.len(),
    ensures
        ws.kind is Ols <==> job.route == Route::Ols,
        ws.kind is Glm <==> job.route == Route::Glm,
        ws.kind is LmmDense <==> job.route == Route::LmmDense,
        ws.kind is GlmmDense <==> job.route == Route::GlmmDense,
        ws.kind is Prebuilt ==> job.route == Route::Prebuilt(ws.kind->Prebuilt_0),
        job.n == y.len() && job.p == ws.p && job.perm == ws.perm,
        job.start is Some <==> given,
        given ==> {
            let t = job.start->0.theta@;
            let slot = ws.perm.slot as int;
            &&& job.start->0.beta@ == start.beta@
            &&& t.len() == start.theta@.len()
            &&& t[0] == start.theta@[slot]
            &&& t[slot] == start.theta@[0]
            &&& k != 0 && k != slot ==> t[k] == start.theta@[k]
        },
        job.refused is Some <==> ws.kind is GlmmDense && (ws.p == 0 || y.len() <= ws.p),
        job.refused is Some ==> !job.refused->0.diagnostics.converged && !job.refused->0.reml
            && job.refused->0.beta@.len() == ws.p,
{
    exchange_moves_two_entries(start.theta@, ws.perm.slot as int, k);
    if job.refused is Some {
        unestimated_fits_say_nothing(
            job.refused->0,
            ws.p as nat,
            ws.kind.layout()->0.theta_len(),
            0,
            0,
            0,
        );
    }
}

/// After a draw its row `i` lies in row `i` of the design of whatever kernel the workspace
/// keeps a design for, by columns; a row past the draw is what it was. On the linear mixed
/// route a draw without an offset leaves the buffer of the shifted response alone.
pub proof fn draws_lie_in_the_design<S: Scalar>(
    after: FitKind<S>,
    before: FitKind<S>,
    n_max: nat,
    p: nat,
    x: Seq<S>,
    y: Seq<S>,
    opts: FitOptions<S>,
    i: int,
    j: int,
)
    requires
        holds_draw(after, before, n_max, p, x, y, opts),
        before.wf(n_max, p),
        0 <= i < n_max,
        0 <= j < p,
    ensures
        after is Ols <==> before is Ols,
        after is Glm <==> before is Glm,
        after is LmmDense <==> before is LmmDense,
        after is GlmmDense <==> before is GlmmDense,
        i < y.len() ==> {
            &&& after is Ols ==> after->Ols_x_mat.cell(i, j) == x[i * p + j]
            &&& after is Glm ==> after->Glm_x_mat.cell(i, j) == x[i * p + j]
            &&& after is LmmDense ==> after->LmmDense_x_mat.cell(i, j) == x[i * p + j]
            &&& after is GlmmDense ==> after->GlmmDense_x_mat.cell(i, j) == x[i * p + j]
        },
        i >= y.len() ==> {
            &&& after is Ols ==> after->Ols_x_mat.cell(i, j) == before->Ols_x_mat.cell(i, j)
            &&& after is Glm ==> after->Glm_x_mat.cell(i, j) == before->Glm_x_mat.cell(i, j)
            &&& after is LmmDense ==> after->LmmDense_x_mat.cell(i, j)
                == before->LmmDense_x_mat.cell(i, j)
            &&& after is GlmmDense ==> after->GlmmDense_x_mat.cell(i, j)
                == before->GlmmDense_x_mat.cell(i, j)
        },
        after is LmmDense ==> {
            let buf = after->LmmDense_y_shifted@;
            let old_buf = before->LmmDense_y_shifted@;
            &&& after->LmmDense_groupings == before->LmmDense_groupings
            &&& buf.len() == old_buf.len()
            &&& opts.offset is None || i >= y.len() ==> buf[i] == old_buf[i]
            &&& opts.offset is Some && i < y.len() ==> buf[i] == y[i].less(opts.offset->0@[i])
        },
        after is GlmmDense ==> {
            let s = after->GlmmDense_state;
            let t = before->GlmmDense_state;
            &&& s.groupings == t.groupings
            &&& s.parallel_inner == opts.parallel_inner
            &&& s.weighted <==> opts.weights is Some
            &&& opts.offset is Some <==> s.offset is Some
            &&& opts.offset is Some ==> s.offset->0@ == opts.offset->0@
            &&& opts.weights is None ==> s.prior_w@ == t.prior_w@
            &&& opts.weights is Some && opts.weights->0@.len() == y.len() && y.len() <= n_max ==> {
                &&& i < y.len() ==> s.prior_w@[i] == opts.weights->0@[i]
                &&& i >= y.len() ==> s.prior_w@[i] == t.prior_w@[i]
            }
        },
{
    let d = after.design(i, j);
    assert(!(after is Prebuilt) ==> d == (if i < y.len() && j < p {
        x[i * p + j]
    } else {
        before.design(i, j)
    }));
    if after is GlmmDense && opts.weights is Some && opts.weights->0@.len() == y.len() && y.len()
        <= n_max {
        weights_reach_their_rows(
            before->GlmmDense_state.prior_w@,
            Some(opts.weights->0@),
            y.len() as int,
            i,
        );
    }
}

/// A route is finished with the result of its own kernel, and with no other.
pub proof fn results_belong_to_their_route<S: Scalar>(kind: FitViewKind<S>, route: Route)
    ensures
        result_of(kind, Route::Ols) <==> kind is Ols,
        result_of(kind, Route::Glm) <==> kind is Glm,
        result_of(kind, Route::LmmDense) <==> kind is Lmm,
        result_of(kind, Route::GlmmDense) <==> kind is Glmm,
        route is Prebuilt ==> (result_of(kind, route) <==> kind is Prebuilt),
{
}

} // verus!
