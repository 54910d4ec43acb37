//! Reordering of grouping factors.
use crate::fit::Fit;
use crate::scalar::Scalar;
use vstd::prelude::*;

verus! {

/// An exchange of the primary grouping with one extra grouping, under which a
/// workspace may hold a model: slot 0 holds grouping `slot`, and slot `slot`
/// holds the declared primary grouping. Slot 0 itself is no exchange at all.
#[derive(Clone, Copy, Debug, PartialEq, Eq, Structural)]
pub struct Perm {
    /// The slot that the declared primary grouping is held in.
    pub slot: usize,
}

/// A grouping-indexed sequence with the primary entry and entry `slot`
/// exchanged; a sequence too short to have both is left as it is.
pub open spec fn exchanged<T>(s: Seq<T>, slot: int) -> Seq<T> {
    if 0 <= slot < s.len() {
        s.update(0, s[slot]).update(slot, s[0])
    } else {
        s
    }
}

/// Exchanges twice over are no exchange.
pub proof fn exchange_is_an_involution<T>(s: Seq<T>, slot: int)
    ensures
        exchanged(exchanged(s, slot), slot) == s,
{
    assert(exchanged(exchanged(s, slot), slot) =~= s);
}

impl Perm {
    /// No exchange.
    pub fn identity() -> (r: Perm)
        ensures
            r == (Perm { slot: 0 }),
    {
        Perm { slot: 0 }
    }

    /// Whether nothing is exchanged.
    pub fn is_identity(&self) -> (r: bool)
        ensures
            r == (self.slot == 0),
    {
        self.slot == 0
    }

    /// Exchange the two groupings' entries of a grouping-indexed vector. Done
    /// twice it restores the vector, so one call maps declaration order to slot
    /// order and back.
    pub fn swap_slots<T>(&self, v: &mut Vec<T>)
        ensures
            final(v)@ == exchanged(old(v)@, self.slot as int),
    {
        if 0 < self.slot && self.slot < v.len() {
            let other: T = v.remove(self.slot);
            v.insert(0, other);
            let first: T = v.remove(1);
            v.insert(self.slot, first);
        }
        assert(v@ =~= exchanged(old(v)@, self.slot as int));
    }
}

/// Levels of the first `k` groupings.
pub open spec fn levels_before(counts: Seq<usize>, k: nat) -> nat
    decreases k,
{
    if k == 0 {
        0
    } else {
        levels_before(counts, (k - 1) as nat) + counts[k - 1] as nat
    }
}

/// The effects of grouping `e`, where every grouping has one effect per level.
pub open spec fn effects_block<S>(ranef: Seq<S>, counts: Seq<usize>, e: int) -> Seq<S> {
    ranef.subrange(
        levels_before(counts, e as nat) as int,
        levels_before(counts, (e + 1) as nat) as int,
    )
}

/// The grouping that stands at place `e` after the exchange.
pub open spec fn exchanged_place(e: int, slot: int) -> int {
    if e == 0 {
        slot
    } else if e == slot {
        0
    } else {
        e
    }
}

/// The effects of the groupings at the first `k` places after the exchange.
pub open spec fn regrouped<S>(ranef: Seq<S>, counts: Seq<usize>, slot: int, k: nat) -> Seq<S>
    decreases k,
{
    if k == 0 {
        Seq::empty()
    } else {
        regrouped(ranef, counts, slot, (k - 1) as nat) + effects_block(
            ranef,
            counts,
            exchanged_place(k - 1, slot),
        )
    }
}

/// The effects after the exchange.
pub open spec fn exchanged_effects<S>(ranef: Seq<S>, counts: Seq<usize>, slot: int) -> Seq<S> {
    if 0 < slot < counts.len() && ranef.len() > 0 {
        regrouped(ranef, counts, slot, counts.len())
    } else {
        ranef
    }
}

/// More groupings have at least as many levels.
proof fn lemma_levels_before(counts: Seq<usize>, j: nat, k: nat)
    requires
        j <= k,
    ensures
        levels_before(counts, j) <= levels_before(counts, k),
    decreases k,
{
    if j < k {
        lemma_levels_before(counts, j, (k - 1) as nat);
    }
}

/// A fit with the two groupings' entries exchanged, in everything that is kept by
/// grouping.
pub open spec fn is_exchanged<S: Scalar>(f: Fit<S>, before: Fit<S>, perm: Perm) -> bool {
    let slot = perm.slot as int;
    &&& f.tau2@ == exchanged(before.tau2@, slot)
    &&& f.stddev_se@ == exchanged(before.stddev_se@, slot)
    &&& f.varcorr@ == exchanged(before.varcorr@, slot)
    &&& f.ranef_levels@ == exchanged(before.ranef_levels@, slot)
    &&& f.diagnostics.pinned@ == exchanged(before.diagnostics.pinned@, slot)
    &&& f.ranef@ == exchanged_effects(before.ranef@, before.ranef_levels@, slot)
    &&& f.beta == before.beta
    &&& f.se == before.se
    &&& f.vcov == before.vcov
    &&& f.dispersion == before.dispersion
    &&& f.diagnostics.converged == before.diagnostics.converged
    &&& f.diagnostics.singular == before.diagnostics.singular
    &&& f.diagnostics.aliased == before.diagnostics.aliased
    &&& f.diagnostics.boundary == before.diagnostics.boundary
    &&& f.diagnostics.notes == before.diagnostics.notes
    &&& f.n_eval == before.n_eval
    &&& f.deviance == before.deviance
    &&& f.loglik == before.loglik
    &&& f.df == before.df
    &&& f.reml == before.reml
    &&& f.fitted == before.fitted
}

/// The effects of an exchanging fit are one per level of each grouping.
pub open spec fn exchangeable<S: Scalar>(f: Fit<S>, perm: Perm) -> bool {
    perm.slot == 0 || f.ranef@.len() == 0 || f.ranef@.len() == levels_before(
        f.ranef_levels@,
        f.ranef_levels@.len(),
    )
}

/// Append the effects of the groupings in exchanged order.
fn regroup<S: Copy>(ranef: &Vec<S>, counts: &Vec<usize>, slot: usize) -> (r: Vec<S>)
    requires
        0 < slot < counts@.len(),
        ranef@.len() == levels_before(counts@, counts@.len()),
    ensures
        r@ == regrouped(ranef@, counts@, slot as int, counts@.len()),
{
    let m: usize = counts.len();
    let mut starts: Vec<usize> = Vec::with_capacity(m);
    let mut at: usize = 0;
    let mut e: usize = 0;
    while e < m
        invariant
            e <= m,
            m == counts@.len(),
            ranef@.len() == levels_before(counts@, m as nat),
            at == levels_before(counts@, e as nat),
            starts@.len() == e,
            forall|k: int|
                0 <= k < e ==> #[trigger] starts@[k] == levels_before(counts@, k as nat),
        decreases m - e,
    {
        proof {
            lemma_levels_before(counts@, (e + 1) as nat, m as nat);
            assert(ranef.len() == ranef@.len());
        }
        starts.push(at);
        at = at + counts[e];
        e = e + 1;
    }
    let mut out: Vec<S> = Vec::new();
    let mut k: usize = 0;
    while k < m
        invariant
            k <= m,
            m == counts@.len(),
            0 < slot < m,
            ranef@.len() == levels_before(counts@, m as nat),
            starts@.len() == m,
            forall|i: int|
                0 <= i < m ==> #[trigger] starts@[i] == levels_before(counts@, i as nat),
            out@ == regrouped(ranef@, counts@, slot as int, k as nat),
        decreases m - k,
    {
        let src: usize = if k == 0 {
            slot
        } else if k == slot {
            0
        } else {
            k
        };
        let start: usize = starts[src];
        let len: usize = counts[src];
        let ghost block = effects_block(ranef@, counts@, src as int);
        let ghost before = out@;
        proof {
            lemma_levels_before(counts@, (src + 1) as nat, m as nat);
            assert(starts@[src as int] == levels_before(counts@, src as nat));
            assert(block.len() == len);
        }
        let mut l: usize = 0;
        while l < len
            invariant
                l <= len,
                start + len <= ranef@.len(),
                block == ranef@.subrange(start as int, start + len),
                out@ == before + block.take(l as int),
            decreases len - l,
        {
            assert(ranef.len() == ranef@.len());
            out.push(ranef[start + l]);
            l = l + 1;
        }
        assert(block.take(len as int) =~= block);
        k = k + 1;
    }
    out
}

/// Report a fit that was held in slot order in declaration order: exchange the two
/// groupings' entries in everything that is kept by grouping.
pub fn unpermute_fit<S: Scalar>(perm: Perm, fit: &mut Fit<S>)
    requires
        exchangeable(*old(fit), perm),
    ensures
        is_exchanged(*final(fit), *old(fit), perm),
{
    if perm.slot > 0 && perm.slot < fit.ranef_levels.len() && fit.ranef.len() > 0 {
        let moved: Vec<S> = regroup(&fit.ranef, &fit.ranef_levels, perm.slot);
        fit.ranef = moved;
    }
    perm.swap_slots(&mut fit.tau2);
    perm.swap_slots(&mut fit.stddev_se);
    perm.swap_slots(&mut fit.varcorr);
    perm.swap_slots(&mut fit.ranef_levels);
    perm.swap_slots(&mut fit.diagnostics.pinned);
}

/// Without an exchange the report stands as it is.
pub proof fn no_exchange_changes_nothing<S: Scalar>(f: Fit<S>, before: Fit<S>)
    requires
        is_exchanged(f, before, Perm { slot: 0 }),
    ensures
        f.tau2@ == before.tau2@,
        f.stddev_se@ == before.stddev_se@,
        f.varcorr@ == before.varcorr@,
        f.ranef_levels@ == before.ranef_levels@,
        f.diagnostics.pinned@ == before.diagnostics.pinned@,
        f.ranef@ == before.ranef@,
{
    assert(f.tau2@ =~= before.tau2@);
    assert(f.stddev_se@ =~= before.stddev_se@);
    assert(f.varcorr@ =~= before.varcorr@);
    assert(f.ranef_levels@ =~= before.ranef_levels@);
    assert(f.diagnostics.pinned@ =~= before.diagnostics.pinned@);
}

/// Levels of the groupings before place `k`, after the exchange.
proof fn lemma_regrouped_len<S>(ranef: Seq<S>, counts: Seq<usize>, slot: int, k: nat)
    requires
        0 < slot < counts.len(),
        k <= counts.len(),
        ranef.len() == levels_before(counts, counts.len()),
    ensures
        regrouped(ranef, counts, slot, k).len() == levels_before(exchanged(counts, slot), k),
    decreases k,
{
    if k > 0 {
        lemma_regrouped_len(ranef, counts, slot, (k - 1) as nat);
        let src = exchanged_place(k - 1, slot);
        lemma_levels_before(counts, (src + 1) as nat, counts.len());
        assert(exchanged(counts, slot)[k - 1] == counts[src]);
    }
}

/// Later places do not disturb the effects of a place.
proof fn lemma_regrouped_block<S>(ranef: Seq<S>, counts: Seq<usize>, slot: int, k: nat, e: int)
    requires
        0 < slot < counts.len(),
        0 <= e < k <= counts.len(),
        ranef.len() == levels_before(counts, counts.len()),
    ensures
        effects_block(regrouped(ranef, counts, slot, k), exchanged(counts, slot), e)
            == effects_block(ranef, counts, exchanged_place(e, slot)),
    decreases k,
{
    let moved = exchanged(counts, slot);
    lemma_regrouped_len(ranef, counts, slot, k);
    lemma_regrouped_len(ranef, counts, slot, (k - 1) as nat);
    lemma_levels_before(moved, (e + 1) as nat, k);
    let now = regrouped(ranef, counts, slot, k);
    let before = regrouped(ranef, counts, slot, (k - 1) as nat);
    let src = exchanged_place(k - 1, slot);
    lemma_levels_before(counts, (src + 1) as nat, counts.len());
    assert(moved[k - 1] == counts[src]);
    if e < k - 1 {
        lemma_regrouped_block(ranef, counts, slot, (k - 1) as nat, e);
        lemma_levels_before(moved, (e + 1) as nat, (k - 1) as nat);
        assert(effects_block(now, moved, e) =~= effects_block(before, moved, e));
    } else {
        assert(effects_block(now, moved, e) =~= effects_block(ranef, counts, src));
    }
}

/// The blocks of all places, put together again, are the effects.
proof fn lemma_restored<S>(ranef: Seq<S>, counts: Seq<usize>, slot: int, k: nat)
    requires
        0 < slot < counts.len(),
        k <= counts.len(),
        ranef.len() == levels_before(counts, counts.len()),
    ensures
        regrouped(
            regrouped(ranef, counts, slot, counts.len()),
            exchanged(counts, slot),
            slot,
            k,
        ) == ranef.take(levels_before(counts, k) as int),
    decreases k,
{
    let moved = exchanged(counts, slot);
    let all = regrouped(ranef, counts, slot, counts.len());
    lemma_levels_before(counts, k, counts.len());
    if k > 0 {
        let e = k - 1;
        lemma_restored(ranef, counts, slot, e as nat);
        lemma_regrouped_block(ranef, counts, slot, counts.len(), exchanged_place(e, slot));
        lemma_levels_before(counts, e as nat, k);
        assert(exchanged_place(exchanged_place(e, slot), slot) == e);
        assert(regrouped(all, moved, slot, k) =~= ranef.take(levels_before(counts, k) as int));
    } else {
        assert(regrouped(all, moved, slot, k) =~= ranef.take(0));
    }
}

/// Reporting a reported fit once more brings the slot order back: the exchange of
/// a fit undoes itself.
pub proof fn reporting_twice_restores<S: Scalar>(
    first: Fit<S>,
    second: Fit<S>,
    third: Fit<S>,
    perm: Perm,
)
    requires
        exchangeable(first, perm),
        is_exchanged(second, first, perm),
        is_exchanged(third, second, perm),
    ensures
        third.tau2@ == first.tau2@,
        third.stddev_se@ == first.stddev_se@,
        third.varcorr@ == first.varcorr@,
        third.ranef_levels@ == first.ranef_levels@,
        third.diagnostics.pinned@ == first.diagnostics.pinned@,
        third.ranef@ == first.ranef@,
{
    let slot = perm.slot as int;
    exchange_is_an_involution(first.tau2@, slot);
    exchange_is_an_involution(first.stddev_se@, slot);
    exchange_is_an_involution(first.varcorr@, slot);
    exchange_is_an_involution(first.ranef_levels@, slot);
    exchange_is_an_involution(first.diagnostics.pinned@, slot);
    let counts = first.ranef_levels@;
    if 0 < slot < counts.len() && first.ranef@.len() > 0 {
        lemma_restored(first.ranef@, counts, slot, counts.len());
        lemma_regrouped_len(first.ranef@, counts, slot, counts.len());
        lemma_exchanged_total(counts, slot);
        assert(first.ranef@.take(first.ranef@.len() as int) =~= first.ranef@);
    }
}

/// The exchange moves no level in or out.
proof fn lemma_exchanged_total(counts: Seq<usize>, slot: int)
    requires
        0 < slot < counts.len(),
    ensures
        levels_before(exchanged(counts, slot), counts.len()) == levels_before(
            counts,
            counts.len(),
        ),
{
    lemma_total_after(counts, slot, counts.len());
}

/// Levels before a place, after the exchange.
proof fn lemma_total_after(counts: Seq<usize>, slot: int, k: nat)
    requires
        0 < slot < counts.len(),
        k <= counts.len(),
    ensures
        levels_before(exchanged(counts, slot), k) == levels_before(counts, k) + (if k > 0 && k
            <= slot {
            counts[slot] - counts[0]
        } else {
            0
        }),
    decreases k,
{
    if k > 0 {
        lemma_total_after(counts, slot, (k - 1) as nat);
    }
}

/// An exchange puts the entry of the primary grouping where that of grouping `slot` was,
/// that of grouping `slot` first, and leaves every other entry in its place.
pub proof fn exchange_moves_two_entries<T>(s: Seq<T>, slot: int, e: int)
    requires
        0 <= slot < s.len(),
        0 <= e < s.len(),
    ensures
        exchanged(s, slot).len() == s.len(),
        exchanged(s, slot)[0] == s[slot],
        exchanged(s, slot)[slot] == s[0],
        e != 0 && e != slot ==> exchanged(s, slot)[e] == s[e],
{
}

/// The levels of the groupings are counted up grouping by grouping.
pub proof fn levels_are_counted_up(counts: Seq<usize>, k: nat)
    ensures
        levels_before(counts, 0) == 0,
        levels_before(counts, (k + 1) as nat) == levels_before(counts, k) + counts[k as int],
{
}

/// Everything that a fit keeps by grouping moves with its grouping: parameters, errors,
/// covariance, level counts, pin flags, and the effects of every level. The rest stays.
pub proof fn groupings_move_as_a_whole<S: Scalar>(
    f: Fit<S>,
    before: Fit<S>,
    perm: Perm,
    e: int,
    l: int,
)
    requires
        is_exchanged(f, before, perm),
        exchangeable(before, perm),
        0 < perm.slot < before.ranef_levels@.len(),
        before.ranef@.len() > 0,
        0 <= e < before.ranef_levels@.len(),
    ensures
        ({
            let src = if e == 0 {
                perm.slot as int
            } else if e == perm.slot {
                0
            } else {
                e
            };
            &&& f.ranef_levels@[e] == before.ranef_levels@[src]
            &&& f.tau2@.len() == before.tau2@.len()
            &&& perm.slot < before.tau2@.len() && e < before.tau2@.len() ==> f.tau2@[e]
                == before.tau2@[src]
            &&& perm.slot < before.stddev_se@.len() && e < before.stddev_se@.len()
                ==> f.stddev_se@[e] == before.stddev_se@[src]
            &&& perm.slot < before.varcorr@.len() && e < before.varcorr@.len() ==> f.varcorr@[e]
                == before.varcorr@[src]
            &&& perm.slot < before.diagnostics.pinned@.len() && e
                < before.diagnostics.pinned@.len() ==> f.diagnostics.pinned@[e]
                == before.diagnostics.pinned@[src]
            &&& 0 <= l < f.ranef_levels@[e] ==> f.ranef@[levels_before(f.ranef_levels@, e as nat)
                + l] == before.ranef@[levels_before(before.ranef_levels@, src as nat) + l]
            &&& f.ranef@.len() == before.ranef@.len()
        }),
        f.beta == before.beta && f.se == before.se && f.vcov == before.vcov,
        f.dispersion == before.dispersion && f.deviance == before.deviance && f.loglik
            == before.loglik,
        f.df == before.df && f.reml == before.reml && f.n_eval == before.n_eval && f.fitted
            == before.fitted,
        f.diagnostics.converged == before.diagnostics.converged && f.diagnostics.singular
            == before.diagnostics.singular && f.diagnostics.aliased == before.diagnostics.aliased
            && f.diagnostics.boundary == before.diagnostics.boundary && f.diagnostics.notes
            == before.diagnostics.notes,
{
    let slot = perm.slot as int;
    let counts = before.ranef_levels@;
    let ranef = before.ranef@;
    let moved = exchanged(counts, slot);
    let src = exchanged_place(e, slot);
    lemma_regrouped_block(ranef, counts, slot, counts.len(), e);
    lemma_regrouped_len(ranef, counts, slot, counts.len());
    lemma_exchanged_total(counts, slot);
    lemma_levels_before(counts, (src + 1) as nat, counts.len());
    lemma_levels_before(moved, (e + 1) as nat, counts.len());
    assert(moved[e] == counts[src]);
    if 0 <= l < moved[e] {
        let a = effects_block(f.ranef@, moved, e);
        let b = effects_block(ranef, counts, src);
        assert(a[l] == b[l]);
    }
}

/// What a fit keeps one of for each grouping moves with its grouping, whether or not it
/// reports effects.
pub proof fn grouping_entries_move_without_effects_too<S: Scalar>(
    f: Fit<S>,
    before: Fit<S>,
    perm: Perm,
    e: int,
)
    requires
        is_exchanged(f, before, perm),
        0 <= e,
    ensures
        ({
            let slot = perm.slot as int;
            let src = if e == 0 {
                slot
            } else if e == slot {
                0
            } else {
                e
            };
            let m = if e < slot {
                slot
            } else {
                e
            };
            &&& m < before.ranef_levels@.len() ==> f.ranef_levels@[e] == before.ranef_levels@[src]
            &&& m < before.tau2@.len() ==> f.tau2@[e] == before.tau2@[src]
            &&& m < before.stddev_se@.len() ==> f.stddev_se@[e] == before.stddev_se@[src]
            &&& m < before.varcorr@.len() ==> f.varcorr@[e]@ == before.varcorr@[src]@
            &&& m < before.diagnostics.pinned@.len() ==> f.diagnostics.pinned@[e]@
                == before.diagnostics.pinned@[src]@
            &&& f.ranef_levels@.len() == before.ranef_levels@.len()
            &&& f.tau2@.len() == before.tau2@.len()
            &&& f.varcorr@.len() == before.varcorr@.len()
            &&& f.diagnostics.pinned@.len() == before.diagnostics.pinned@.len()
            &&& f.stddev_se@.len() == before.stddev_se@.len()
            &&& perm.slot == 0 ==> f.tau2@ == before.tau2@ && f.stddev_se@ == before.stddev_se@
                && f.ranef_levels@ == before.ranef_levels@ && f.varcorr@ == before.varcorr@
                && f.ranef@ == before.ranef@ && f.diagnostics.pinned@
                == before.diagnostics.pinned@
        }),
{
    if perm.slot == 0 {
        assert(perm == Perm { slot: 0 });
        no_exchange_changes_nothing(f, before);
    }
}

} // verus!
