//! What a fit says of itself: convergence, boundary, pinned components, notes.
use crate::model::vech;
use crate::scalar::{constant, filled, rows, Scalar};
use crate::varcorr::{vech_q, width_is_found_back, width_of};
use vstd::prelude::*;

verus! {

/// Every diagnostic that a fitting route produces, in one carrier. It holds
/// nothing that allocates, so that a loop over draws can read it at every draw.
///
/// Redundant columns are not in it: no route decides on them. Neither is whether
/// the fit is singular: that is known once the covariance is assembled.
#[derive(Debug)]
pub struct FitDiagnostics<S: Scalar> {
    /// The fit reached its convergence criterion.
    pub converged: bool,
    /// 0 for an optimum in the interior, 1 for a component pinned to its floor, 2
    /// for no optimum. 0 where there are no variance parameters.
    pub boundary_hit: u8,
    /// One bit per diagonal variance parameter that is pinned, in the order of
    /// the groupings.
    pub pinned_components: u64,
    /// The smallest pivot ratio that the route measured; undefined where it
    /// measured none.
    pub pivot: S,
    /// Column of that pivot.
    pub pivot_col: u32,
    /// The pivot fell below the route's own floor.
    pub ill_conditioned: bool,
    /// Inner solves of the search that ran into their cap.
    pub pirls_exhausted: u32,
    /// The inner solve at the optimum ran into its cap.
    pub final_pirls_exhausted: bool,
    /// The standard errors come from the fallback, not from the Hessian.
    pub hessian_fallback: bool,
}

impl<S: Scalar> Clone for FitDiagnostics<S> {
    /// The same diagnostics.
    fn clone(&self) -> (r: FitDiagnostics<S>)
        ensures
            r == *self,
    {
        *self
    }
}

impl<S: Scalar> Copy for FitDiagnostics<S> {

}

/// The carrier of a route without variance parameters and without detection.
pub open spec fn fixed_only_of<S: Scalar>(converged: bool) -> FitDiagnostics<S> {
    FitDiagnostics {
        converged,
        boundary_hit: 0,
        pinned_components: 0,
        pivot: S::nan_of(),
        pivot_col: 0,
        ill_conditioned: false,
        pirls_exhausted: 0,
        final_pirls_exhausted: false,
        hessian_fallback: false,
    }
}

impl<S: Scalar> FitDiagnostics<S> {
    /// Whether the fit converged, and nothing else.
    pub fn fixed_only(converged: bool) -> (r: FitDiagnostics<S>)
        ensures
            r == fixed_only_of::<S>(converged),
    {
        FitDiagnostics {
            converged,
            boundary_hit: 0,
            pinned_components: 0,
            pivot: S::nan(),
            pivot_col: 0,
            ill_conditioned: false,
            pirls_exhausted: 0,
            final_pirls_exhausted: false,
            hessian_fallback: false,
        }
    }
}

/// Where the optimum lies.
#[derive(Clone, Copy, Debug, PartialEq, Eq, Structural)]
pub enum Boundary {
    /// Inside the parameter range.
    Interior,
    /// A component is pinned to its floor.
    AtBoundary,
    /// No optimum was found.
    NoOptimum,
}

/// A remark on a fit.
#[derive(Debug)]
pub enum Note<S: Scalar> {
    /// Some columns are barely identified.
    IllConditioned {
        /// The columns.
        columns: Vec<u32>,
        /// The smallest pivot ratio.
        pivot: S,
    },
    /// Inner solves ran into their cap.
    PirlsExhausted {
        /// How many during the search.
        evals: u32,
        /// Whether the one at the optimum did.
        final_eval: bool,
    },
    /// The standard errors come from the fallback.
    HessianSeFallback,
    /// A grouping declares levels that no row uses.
    UnusedGroupingLevels {
        /// The grouping.
        grouping: u32,
    },
}

/// What a [`Note`] says.
#[verifier::ext_equal]
pub enum NoteView<S> {
    /// Some columns are barely identified.
    IllConditioned {
        /// The columns.
        columns: Seq<u32>,
        /// The smallest pivot ratio.
        pivot: S,
    },
    /// Inner solves ran into their cap.
    PirlsExhausted {
        /// How many during the search.
        evals: u32,
        /// Whether the one at the optimum did.
        final_eval: bool,
    },
    /// The standard errors come from the fallback.
    HessianSeFallback,
    /// A grouping declares levels that no row uses.
    UnusedGroupingLevels {
        /// The grouping.
        grouping: u32,
    },
}

impl<S: Scalar> View for Note<S> {
    type V = NoteView<S>;

    open spec fn view(&self) -> NoteView<S> {
        match *self {
            Note::IllConditioned { columns, pivot } => NoteView::IllConditioned {
                columns: columns@,
                pivot,
            },
            Note::PirlsExhausted { evals, final_eval } => NoteView::PirlsExhausted {
                evals,
                final_eval,
            },
            Note::HessianSeFallback => NoteView::HessianSeFallback,
            Note::UnusedGroupingLevels { grouping } => NoteView::UnusedGroupingLevels { grouping },
        }
    }
}

/// What a sequence of notes says.
pub open spec fn notes_view<S: Scalar>(notes: Seq<Note<S>>) -> Seq<NoteView<S>> {
    Seq::new(notes.len(), |i: int| notes[i]@)
}

/// The reported diagnostics of a fit.
#[derive(Debug)]
pub struct Diagnostics<S: Scalar> {
    /// The fit reached its convergence criterion.
    pub converged: bool,
    /// A variance component is pinned or negligible.
    pub singular: bool,
    /// For each column, whether it was dropped as redundant.
    pub aliased: Vec<bool>,
    /// Where the optimum lies.
    pub boundary: Boundary,
    /// For each grouping and each of its effects, whether its variance is pinned;
    /// empty where nothing is.
    pub pinned: Vec<Vec<bool>>,
    /// Remarks.
    pub notes: Vec<Note<S>>,
}

impl<S: Scalar> Diagnostics<S> {
    /// The diagnostics of a route that reports two flags alone, over `p` columns.
    pub fn from_flags(converged: bool, singular: bool, p: usize) -> (r: Diagnostics<S>)
        ensures
            r.converged == converged,
            r.singular == singular,
            r.aliased@ == constant(p as nat, false),
            r.boundary == (if singular {
                Boundary::AtBoundary
            } else {
                Boundary::Interior
            }),
            r.pinned@.len() == 0,
            r.notes@.len() == 0,
    {
        Diagnostics {
            converged,
            singular,
            aliased: filled(p, false),
            boundary: if singular {
                Boundary::AtBoundary
            } else {
                Boundary::Interior
            },
            pinned: Vec::new(),
            notes: Vec::new(),
        }
    }
}

/// Bit `k` of `mask`; a bit past the mask is not set.
pub open spec fn mask_bit(mask: u64, k: int) -> bool {
    0 <= k < 64 && (mask >> (k as u64)) & 1 == 1
}

/// Effects of the blocks before block `g`.
pub open spec fn diagonals_before<S>(varcorr: Seq<Seq<S>>, g: nat) -> nat
    decreases g,
{
    if g == 0 {
        0
    } else {
        diagonals_before(varcorr, (g - 1) as nat) + width_of(varcorr[g - 1].len())
    }
}

/// Pin flags of block `g`, one per effect.
pub open spec fn pin_row<S>(mask: u64, varcorr: Seq<Seq<S>>, g: int) -> Seq<bool> {
    Seq::new(
        width_of(varcorr[g].len()),
        |i: int| mask_bit(mask, diagonals_before(varcorr, g as nat) + i),
    )
}

/// The pin flags in the order of the covariance blocks: bit after bit of the mask
/// goes to effect after effect, block by block. No grid for an empty mask.
pub open spec fn pin_grid<S>(mask: u64, varcorr: Seq<Seq<S>>) -> Seq<Seq<bool>> {
    if mask == 0 {
        Seq::empty()
    } else {
        Seq::new(varcorr.len(), |g: int| pin_row(mask, varcorr, g))
    }
}

/// The smaller of `n` and 64.
spec fn capped(n: int) -> int {
    if n < 64 {
        n
    } else {
        64
    }
}

/// Pin flags aligned with the covariance blocks: `pinned[g][i]` belongs to effect
/// `i` of block `g`. Empty where the mask is.
pub fn pinned_flags<S: Scalar>(mask: u64, varcorr: &[Vec<S>]) -> (r: Vec<Vec<bool>>)
    ensures
        rows(r@) == pin_grid(mask, rows(varcorr@)),
{
    let ghost blocks = rows(varcorr@);
    let mut out: Vec<Vec<bool>> = Vec::new();
    if mask == 0 {
        assert(rows(out@) =~= pin_grid(mask, blocks));
        return out;
    }
    // Counts the effects so far; it stops at 64, past the last bit.
    let mut k: u64 = 0;
    let mut g: usize = 0;
    while g < varcorr.len()
        invariant
            g <= varcorr.len(),
            blocks == rows(varcorr@),
            k == capped(diagonals_before(blocks, g as nat) as int),
            out@.len() == g,
            forall|h: int| 0 <= h < g ==> (#[trigger] out@[h])@ == pin_row(mask, blocks, h),
        decreases varcorr.len() - g,
    {
        assert(blocks[g as int] == varcorr@[g as int]@);
        let q: usize = vech_q(varcorr[g].len());
        let ghost start = diagonals_before(blocks, g as nat);
        let mut row: Vec<bool> = Vec::with_capacity(q);
        let mut i: usize = 0;
        while i < q
            invariant
                i <= q,
                q == width_of(blocks[g as int].len()),
                start == diagonals_before(blocks, g as nat),
                k == capped(start + i),
                row@ == pin_row(mask, blocks, g as int).take(i as int),
            decreases q - i,
        {
            let bit: bool = k < 64 && (mask >> k) & 1 == 1;
            assert(bit == mask_bit(mask, start + i));
            row.push(bit);
            if k < 64 {
                k = k + 1;
            }
            i = i + 1;
        }
        assert(row@ =~= pin_row(mask, blocks, g as int));
        out.push(row);
        g = g + 1;
    }
    assert(rows(out@) =~= pin_grid(mask, blocks));
    out
}

/// A pin flag stands beside the effect that it belongs to: where anything is
/// pinned there is one row of flags per covariance block, and in a packed `q x q`
/// block one flag per effect.
pub proof fn pins_align_with_blocks<S: Scalar>(
    mask: u64,
    varcorr: Seq<Seq<S>>,
    g: int,
    q: nat,
)
    requires
        mask != 0,
        0 <= g < varcorr.len(),
        varcorr[g].len() == vech(q),
    ensures
        pin_grid(mask, varcorr).len() == varcorr.len(),
        pin_grid(mask, varcorr)[g].len() == q,
{
    width_is_found_back(q);
}

/// Where the optimum lies, from the carrier's code.
pub open spec fn boundary_of(hit: u8) -> Boundary {
    if hit == 0 {
        Boundary::Interior
    } else if hit == 1 {
        Boundary::AtBoundary
    } else {
        Boundary::NoOptimum
    }
}

/// The notes that a carrier gives rise to.
pub open spec fn notes_of<S: Scalar>(d: FitDiagnostics<S>) -> Seq<NoteView<S>> {
    let ill: Seq<NoteView<S>> = if d.ill_conditioned {
        seq![NoteView::IllConditioned { columns: seq![d.pivot_col], pivot: d.pivot }]
    } else {
        Seq::empty()
    };
    let inner: Seq<NoteView<S>> = if d.pirls_exhausted > 0 || d.final_pirls_exhausted {
        seq![
            NoteView::PirlsExhausted {
                evals: d.pirls_exhausted,
                final_eval: d.final_pirls_exhausted,
            },
        ]
    } else {
        Seq::empty()
    };
    let fallback: Seq<NoteView<S>> = if d.hessian_fallback {
        seq![NoteView::HessianSeFallback]
    } else {
        Seq::empty()
    };
    ill + inner + fallback
}

/// The reported diagnostics say what the carrier says, over `p` columns and these
/// covariance blocks; `negligible` adds that a component is too small to matter.
pub open spec fn reports<S: Scalar>(
    r: Diagnostics<S>,
    d: FitDiagnostics<S>,
    p: nat,
    varcorr: Seq<Seq<S>>,
    negligible: bool,
) -> bool {
    &&& r.converged == d.converged
    &&& r.singular == (d.boundary_hit == 1 || negligible)
    &&& r.aliased@ == constant(p, false)
    &&& r.boundary == boundary_of(d.boundary_hit)
    &&& rows(r.pinned@) == pin_grid(d.pinned_components, varcorr)
    &&& notes_view(r.notes@) == notes_of(d)
}

/// The reported diagnostics for a carrier, over `p` columns and the covariance
/// blocks that place its pin bits. No column is reported as dropped: no route
/// drops one.
pub fn materialize_diagnostics<S: Scalar>(
    d: &FitDiagnostics<S>,
    p: usize,
    varcorr: &[Vec<S>],
) -> (r: Diagnostics<S>)
    requires
        d.boundary_hit <= 2,
    ensures
        reports(r, *d, p as nat, rows(varcorr@), false),
{
    let pinned: Vec<Vec<bool>> = pinned_flags(d.pinned_components, varcorr);
    let mut notes: Vec<Note<S>> = Vec::new();
    if d.ill_conditioned {
        let mut columns: Vec<u32> = Vec::new();
        columns.push(d.pivot_col);
        assert(columns@ =~= seq![d.pivot_col]);
        notes.push(Note::IllConditioned { columns, pivot: d.pivot });
    }
    if d.pirls_exhausted > 0 || d.final_pirls_exhausted {
        notes.push(
            Note::PirlsExhausted { evals: d.pirls_exhausted, final_eval: d.final_pirls_exhausted },
        );
    }
    if d.hessian_fallback {
        notes.push(Note::HessianSeFallback);
    }
    assert(notes_view(notes@) =~= notes_of(*d));
    Diagnostics {
        converged: d.converged,
        singular: d.boundary_hit == 1,
        aliased: filled(p, false),
        boundary: if d.boundary_hit == 0 {
            Boundary::Interior
        } else if d.boundary_hit == 1 {
            Boundary::AtBoundary
        } else {
            Boundary::NoOptimum
        },
        pinned,
        notes,
    }
}

/// A clean fit has nothing to list: no pin flags and no notes.
pub proof fn clean_fit_lists_nothing<S: Scalar>(
    r: Diagnostics<S>,
    d: FitDiagnostics<S>,
    p: nat,
    varcorr: Seq<Seq<S>>,
    negligible: bool,
)
    requires
        reports(r, d, p, varcorr, negligible),
        d.pinned_components == 0,
        !d.ill_conditioned,
        d.pirls_exhausted == 0,
        !d.final_pirls_exhausted,
        !d.hessian_fallback,
    ensures
        r.pinned@.len() == 0,
        r.notes@.len() == 0,
{
    assert(rows(r.pinned@).len() == r.pinned@.len());
    assert(notes_view(r.notes@).len() == r.notes@.len());
}

/// A fit is singular exactly if its optimum lies at the boundary or a component is
/// negligible: a fit whose search pinned a component is never reported as regular.
pub proof fn singular_means_pinned_or_negligible<S: Scalar>(
    r: Diagnostics<S>,
    d: FitDiagnostics<S>,
    p: nat,
    varcorr: Seq<Seq<S>>,
    negligible: bool,
)
    requires
        reports(r, d, p, varcorr, negligible),
    ensures
        r.singular <==> (r.boundary == Boundary::AtBoundary || negligible),
{
}

/// What a route found is reported as it found it: convergence; a singular fit for an
/// optimum at the boundary or a negligible component; no column as dropped; and one of the
/// three places of the optimum for each of the three codes.
pub proof fn reports_say_what_the_route_found<S: Scalar>(
    r: Diagnostics<S>,
    d: FitDiagnostics<S>,
    p: nat,
    varcorr: Seq<Seq<S>>,
    negligible: bool,
    j: int,
)
    requires
        reports(r, d, p, varcorr, negligible),
        d.boundary_hit <= 2,
    ensures
        r.converged == d.converged,
        r.singular <==> d.boundary_hit == 1 || negligible,
        r.aliased@.len() == p,
        0 <= j < p ==> !r.aliased@[j],
        r.boundary == Boundary::Interior <==> d.boundary_hit == 0,
        r.boundary == Boundary::AtBoundary <==> d.boundary_hit == 1,
        r.boundary == Boundary::NoOptimum <==> d.boundary_hit == 2,
{
}

/// The notes of a fit: the column and the pivot of an ill-conditioned design, then the
/// exhausted inner solves where there were any, then the fallback, each exactly where the
/// route found it and nothing else.
pub proof fn notes_say_what_the_route_found<S: Scalar>(
    r: Diagnostics<S>,
    d: FitDiagnostics<S>,
    p: nat,
    varcorr: Seq<Seq<S>>,
    negligible: bool,
)
    requires
        reports(r, d, p, varcorr, negligible),
    ensures
        ({
            let exhausted = d.pirls_exhausted > 0 || d.final_pirls_exhausted;
            let first = if d.ill_conditioned {
                1int
            } else {
                0
            };
            let second = if exhausted {
                first + 1
            } else {
                first
            };
            &&& r.notes@.len() == (if d.hessian_fallback {
                second + 1
            } else {
                second
            })
            &&& d.ill_conditioned ==> {
                let note = r.notes@[0]@;
                &&& note is IllConditioned
                &&& note->columns.len() == 1
                &&& note->columns[0] == d.pivot_col
                &&& note->pivot == d.pivot
            }
            &&& exhausted ==> {
                let note = r.notes@[first]@;
                &&& note is PirlsExhausted
                &&& note->evals == d.pirls_exhausted
                &&& note->final_eval == d.final_pirls_exhausted
            }
            &&& d.hessian_fallback ==> r.notes@[second]@ is HessianSeFallback
        }),
{
    let all = notes_view(r.notes@);
    assert(all.len() == r.notes@.len());
    assert(all == notes_of(d));
    assert forall|i: int| 0 <= i < r.notes@.len() implies #[trigger] all[i] == r.notes@[i]@ by {}
    let exhausted = d.pirls_exhausted > 0 || d.final_pirls_exhausted;
    let first = if d.ill_conditioned {
        1int
    } else {
        0
    };
    if d.ill_conditioned {
        assert(all[0] == r.notes@[0]@);
    }
    if exhausted {
        assert(all[first] == r.notes@[first]@);
    }
    if d.hessian_fallback {
        let second = if exhausted {
            first + 1
        } else {
            first
        };
        assert(all[second] == r.notes@[second]@);
    }
}

/// Pin flags are the bits of the mask, one for each effect, counted through the groupings
/// in their order: the flag of effect `i` of a grouping is the bit that comes after those
/// of all effects before it. Past the last bit nothing is pinned, and without a bit there
/// are no flags at all.
pub proof fn pins_follow_the_bits<S: Scalar>(
    r: Diagnostics<S>,
    d: FitDiagnostics<S>,
    p: nat,
    varcorr: Seq<Seq<S>>,
    negligible: bool,
    g: int,
    q: nat,
    i: int,
)
    requires
        reports(r, d, p, varcorr, negligible),
        0 <= g < varcorr.len(),
        2 * varcorr[g].len() == q * (q + 1),
        0 <= i < q,
    ensures
        d.pinned_components == 0 ==> r.pinned@.len() == 0,
        d.pinned_components != 0 ==> {
            let k = diagonals_before(varcorr, g as nat) + i;
            &&& r.pinned@.len() == varcorr.len()
            &&& r.pinned@[g]@.len() == q
            &&& r.pinned@[g]@[i] == (k < 64 && (d.pinned_components >> (k as u64)) & 1 == 1)
        },
        diagonals_before(varcorr, 0) == 0,
        diagonals_before(varcorr, (g + 1) as nat) == diagonals_before(varcorr, g as nat) + q,
{
    crate::model::lemma_vech(q);
    width_is_found_back(q);
    assert(rows(r.pinned@).len() == r.pinned@.len());
    if d.pinned_components != 0 {
        assert(rows(r.pinned@)[g] == r.pinned@[g]@);
        assert(rows(r.pinned@)[g] == pin_row(d.pinned_components, varcorr, g));
    }
}

/// A route without variance parameters says whether it converged and nothing else.
pub proof fn fixed_routes_find_nothing_else<S: Scalar>(converged: bool)
    ensures
        ({
            let d = fixed_only_of::<S>(converged);
            &&& d.converged == converged
            &&& d.boundary_hit == 0 && d.pinned_components == 0
            &&& d.pivot == S::nan_of() && d.pivot_col == 0 && !d.ill_conditioned
            &&& d.pirls_exhausted == 0 && !d.final_pirls_exhausted && !d.hessian_fallback
        }),
{
}

} // verus!
