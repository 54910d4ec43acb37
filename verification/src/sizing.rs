//! Level counts of a random-effect structure, derived from the data.
use crate::model::{
    extra_width, re_width, GroupIds, Grouping, GroupingRelation, GroupingView, ModelSpec, ModelView,
    ReStructure, ReView, Sizing,
};
use crate::perm::Perm;
use crate::scalar::{copied, rows};
use std::collections::HashSet;
use vstd::prelude::*;

verus! {

/// One more than the largest level; 0 where there is none.
pub open spec fn levels_used(v: Seq<u32>) -> nat
    decreases v.len(),
{
    if v.len() == 0 {
        0
    } else {
        let before = levels_used(v.drop_last());
        if before <= v.last() {
            (v.last() + 1) as nat
        } else {
            before
        }
    }
}

/// Levels that a grouping is sized for: those that the rows use, at least one.
pub open spec fn level_count(v: Seq<u32>) -> nat {
    if v.len() == 0 {
        1
    } else {
        levels_used(v)
    }
}

/// The levels of `extra` that occur with primary level `parent` in the first
/// `n` rows.
pub open spec fn children(primary: Seq<u32>, extra: Seq<u32>, n: int, parent: int) -> Set<u32> {
    Set::new(
        |c: u32|
            exists|i: int|
                0 <= i < n && #[trigger] primary[i] == parent && #[trigger] extra[i] == c,
    )
}

/// Rows in which both groupings have a level.
pub open spec fn paired(primary: Seq<u32>, extra: Seq<u32>) -> int {
    if primary.len() <= extra.len() {
        primary.len() as int
    } else {
        extra.len() as int
    }
}

/// Children of the parent, among the first `n_primary`, that has most of them;
/// at least one.
pub open spec fn widest(primary: Seq<u32>, extra: Seq<u32>, n_primary: nat) -> nat
    decreases n_primary,
{
    if n_primary == 0 {
        1
    } else {
        let before = widest(primary, extra, (n_primary - 1) as nat);
        let own = children(primary, extra, paired(primary, extra), n_primary - 1).len();
        if before < own {
            own
        } else {
            before
        }
    }
}

/// The relation of an extra grouping with the level count that the rows give it.
pub open spec fn sized_relation(
    relation: GroupingRelation,
    primary: Seq<u32>,
    extra: Seq<u32>,
) -> GroupingRelation {
    match relation {
        GroupingRelation::Crossed { .. } => GroupingRelation::Crossed {
            n_clusters: level_count(extra) as u32,
        },
        GroupingRelation::NestedWithin { .. } => GroupingRelation::NestedWithin {
            n_per_parent: widest(primary, extra, level_count(primary)) as u32,
        },
    }
}

/// Every level lies below the level count, and no smaller count would do.
pub proof fn levels_used_is_least(v: Seq<u32>, bound: nat)
    ensures
        forall|i: int| 0 <= i < v.len() ==> #[trigger] v[i] < levels_used(v),
        (forall|i: int| 0 <= i < v.len() ==> #[trigger] v[i] < bound) ==> levels_used(v) <= bound,
    decreases v.len(),
{
    if v.len() > 0 {
        let w = v.drop_last();
        levels_used_is_least(w, bound);
        assert forall|i: int| 0 <= i < v.len() implies #[trigger] v[i] < levels_used(v) by {
            if i < w.len() {
                assert(v[i] == w[i]);
            }
        }
        if forall|i: int| 0 <= i < v.len() ==> #[trigger] v[i] < bound {
            assert forall|i: int| 0 <= i < w.len() implies #[trigger] w[i] < bound by {
                assert(w[i] == v[i]);
            }
            assert(v[v.len() - 1] < bound);
        }
    }
}

/// One more than the largest level in `v`; 0 where `v` is empty.
pub fn count_levels(v: &[u32]) -> (r: u64)
    ensures
        r == levels_used(v@),
{
    let mut n: u64 = 0;
    let mut i: usize = 0;
    while i < v.len()
        invariant
            i <= v.len(),
            n == levels_used(v@.take(i as int)),
        decreases v.len() - i,
    {
        assert(v@.take(i + 1).drop_last() =~= v@.take(i as int));
        if n <= v[i] as u64 {
            n = v[i] as u64 + 1;
        }
        i = i + 1;
    }
    assert(v@.take(i as int) =~= v@);
    n
}

/// Levels that a grouping with these row levels is sized for.
pub fn size_levels(v: &[u32]) -> (r: usize)
    requires
        levels_used(v@) <= usize::MAX,
    ensures
        r == level_count(v@),
{
    if v.len() == 0 {
        1
    } else {
        count_levels(v) as usize
    }
}

/// The largest number of distinct children that one parent has, counted from
/// the row pairs themselves, so that neither the numbering of the children nor
/// the order of the parents matters.
pub fn widest_parent(primary: &[u32], extra: &[u32], n_primary: usize) -> (r: usize)
    requires
        n_primary == level_count(primary@),
    ensures
        r == widest(primary@, extra@, n_primary as nat),
{
    broadcast use vstd::std_specs::hash::group_hash_axioms;

    let mut per_parent: Vec<HashSet<u32>> = Vec::with_capacity(n_primary);
    let mut k: usize = 0;
    while k < n_primary
        invariant
            k <= n_primary,
            per_parent@.len() == k,
            forall|q: int|
                0 <= q < k ==> #[trigger] per_parent@[q]@ == children(primary@, extra@, 0, q),
        decreases n_primary - k,
    {
        let empty: HashSet<u32> = HashSet::new();
        assert(empty@ =~= children(primary@, extra@, 0, k as int));
        per_parent.push(empty);
        k = k + 1;
    }
    let mut i: usize = 0;
    while i < primary.len() && i < extra.len()
        invariant
            i <= paired(primary@, extra@),
            per_parent@.len() == n_primary,
            n_primary == level_count(primary@),
            forall|q: int|
                0 <= q < n_primary ==> #[trigger] per_parent@[q]@ == children(
                    primary@,
                    extra@,
                    i as int,
                    q,
                ),
        decreases primary.len() - i,
    {
        let parent: usize = primary[i] as usize;
        let child: u32 = extra[i];
        proof {
            levels_used_is_least(primary@, 0);
            assert(primary@[i as int] < levels_used(primary@));
        }
        let ghost before = per_parent@;
        per_parent[parent].insert(child);
        proof {
            assert forall|q: int| 0 <= q < n_primary implies #[trigger] per_parent@[q]@ == children(
                primary@,
                extra@,
                i + 1,
                q,
            ) by {
                let now = children(primary@, extra@, i + 1, q);
                let then = children(primary@, extra@, i as int, q);
                assert(before[q]@ == then);
                if q == parent {
                    assert(primary@[i as int] == q && extra@[i as int] == child);
                    assert(now =~= then.insert(child));
                } else {
                    assert(now =~= then);
                }
            }
        }
        i = i + 1;
    }
    let mut most: usize = 1;
    let mut q: usize = 0;
    while q < n_primary
        invariant
            q <= n_primary,
            per_parent@.len() == n_primary,
            most == widest(primary@, extra@, q as nat),
            forall|k: int|
                0 <= k < n_primary ==> #[trigger] per_parent@[k]@ == children(
                    primary@,
                    extra@,
                    paired(primary@, extra@),
                    k,
                ),
        decreases n_primary - q,
    {
        let own: usize = per_parent[q].len();
        assert(per_parent@[q as int]@ == children(
            primary@,
            extra@,
            paired(primary@, extra@),
            q as int,
        ));
        if most < own {
            most = own;
        }
        q = q + 1;
    }
    most
}

/// A model with the level counts that the rows give it: everything but the
/// counts is kept, and a fixed-effects model has none.
pub open spec fn sized(m: ModelView, primary: Seq<u32>, extra: Seq<Seq<u32>>) -> ModelView {
    match m.re {
        None => m,
        Some(re) => ModelView {
            family: m.family,
            re: Some(
                ReView {
                    sizing: Sizing::FixedClusters { n_clusters: level_count(primary) as u32 },
                    slopes: re.slopes,
                    extra_groupings: Seq::new(
                        re.extra_groupings.len(),
                        |g: int| sized_grouping(re.extra_groupings[g], primary, extra[g]),
                    ),
                },
            ),
        },
    }
}

/// An extra grouping with the level count that the rows give it.
pub open spec fn sized_grouping(
    g: GroupingView,
    primary: Seq<u32>,
    extra: Seq<u32>,
) -> GroupingView {
    GroupingView { relation: sized_relation(g.relation, primary, extra), slopes: g.slopes }
}

/// The rows name a level for each grouping of the model, and every level count
/// can be held.
pub open spec fn sizable(m: ModelView, primary: Seq<u32>, extra: Seq<Seq<u32>>) -> bool {
    m.re matches Some(re) ==> {
        &&& re.extra_groupings.len() <= extra.len()
        &&& levels_used(primary) <= usize::MAX
        &&& forall|g: int|
            0 <= g < re.extra_groupings.len() ==> levels_used(#[trigger] extra[g]) <= usize::MAX
    }
}

/// A copy of `model` whose level counts come from the rows: one more than the
/// largest level for the primary and each crossed grouping, and the children of
/// the fullest parent for a nested one. Family, slopes and topology are kept, as
/// are the rows themselves and the order of the groupings.
pub fn spec_sized_from_ids(model: &ModelSpec, ids: &GroupIds) -> (r: (ModelSpec, GroupIds, Perm))
    requires
        sizable(model@, ids.primary@, rows(ids.extra@)),
    ensures
        r.0@ == sized(model@, ids.primary@, rows(ids.extra@)),
        r.1.same(ids),
        r.2 == (Perm { slot: 0 }),
{
    let re: &ReStructure = match &model.re {
        Some(re) => re,
        None => {
            return (model.clone(), ids.clone(), Perm::identity());
        },
    };
    let n_primary: usize = size_levels(ids.primary.as_slice());
    let mut extra_groupings: Vec<Grouping> = Vec::with_capacity(re.extra_groupings.len());
    let ghost primary = ids.primary@;
    let ghost extra = rows(ids.extra@);
    let mut g: usize = 0;
    while g < re.extra_groupings.len()
        invariant
            g <= re.extra_groupings.len(),
            re.extra_groupings.len() <= ids.extra.len(),
            primary == ids.primary@,
            extra == rows(ids.extra@),
            n_primary == level_count(primary),
            forall|k: int|
                0 <= k < re.extra_groupings.len() ==> levels_used(#[trigger] extra[k])
                    <= usize::MAX,
            extra_groupings@.len() == g,
            forall|k: int|
                0 <= k < g ==> #[trigger] extra_groupings@[k]@ == sized_grouping(
                    re@.extra_groupings[k],
                    primary,
                    extra[k],
                ),
        decreases re.extra_groupings.len() - g,
    {
        assert(extra[g as int] == ids.extra@[g as int]@);
        let relation: GroupingRelation = match re.extra_groupings[g].relation {
            GroupingRelation::Crossed { .. } => GroupingRelation::Crossed {
                n_clusters: size_levels(ids.extra[g].as_slice()) as u32,
            },
            GroupingRelation::NestedWithin { .. } => GroupingRelation::NestedWithin {
                n_per_parent: widest_parent(
                    ids.primary.as_slice(),
                    ids.extra[g].as_slice(),
                    n_primary,
                ) as u32,
            },
        };
        extra_groupings.push(
            Grouping { relation, slopes: copied(re.extra_groupings[g].slopes.as_slice()) },
        );
        g = g + 1;
    }
    let out: ModelSpec = ModelSpec {
        family: model.family,
        re: Some(
            ReStructure {
                sizing: Sizing::FixedClusters { n_clusters: n_primary as u32 },
                slopes: copied(re.slopes.as_slice()),
                extra_groupings,
            },
        ),
    };
    proof {
        let want = sized(model@, primary, extra);
        assert(out@.re->0.extra_groupings =~= want.re->0.extra_groupings);
        assert(out@.re->0 =~= want.re->0);
    }
    (out, ids.clone(), Perm::identity())
}

/// [`spec_sized_from_ids`] for callers that build their own workspaces.
pub fn spec_sized_from_ids_pub(
    model: &ModelSpec,
    ids: &GroupIds,
) -> (r: (ModelSpec, GroupIds, Perm))
    requires
        sizable(model@, ids.primary@, rows(ids.extra@)),
    ensures
        r.0@ == sized(model@, ids.primary@, rows(ids.extra@)),
        r.1.same(ids),
        r.2 == (Perm { slot: 0 }),
{
    spec_sized_from_ids(model, ids)
}

/// Sizing a model that was sized from the same rows changes nothing.
pub proof fn sizing_is_idempotent(m: ModelView, primary: Seq<u32>, extra: Seq<Seq<u32>>)
    ensures
        sized(sized(m, primary, extra), primary, extra) == sized(m, primary, extra),
{
    if m.re is Some {
        let once = sized(m, primary, extra);
        let twice = sized(once, primary, extra);
        assert(twice.re->0.extra_groupings =~= once.re->0.extra_groupings);
        assert(twice.re->0 =~= once.re->0);
    }
}

/// The two models differ in their level counts at most.
pub open spec fn same_topology(a: ModelView, b: ModelView) -> bool {
    &&& a.family == b.family
    &&& (a.re is Some) == (b.re is Some)
    &&& a.re matches Some(r) ==> {
        let s = b.re->0;
        &&& r.slopes == s.slopes
        &&& r.extra_groupings.len() == s.extra_groupings.len()
        &&& forall|g: int|
            0 <= g < r.extra_groupings.len() ==> {
                &&& (#[trigger] r.extra_groupings[g]).slopes == s.extra_groupings[g].slopes
                &&& r.extra_groupings[g].relation is Crossed
                    == s.extra_groupings[g].relation is Crossed
            }
    }
}

/// The level counts that a model declares have no say in its sizing: they are
/// placeholders.
pub proof fn sizing_ignores_declared_counts(
    a: ModelView,
    b: ModelView,
    primary: Seq<u32>,
    extra: Seq<Seq<u32>>,
)
    requires
        same_topology(a, b),
    ensures
        sized(a, primary, extra) == sized(b, primary, extra),
{
    if a.re is Some {
        let x = sized(a, primary, extra).re->0;
        let y = sized(b, primary, extra).re->0;
        assert forall|g: int| 0 <= g < x.extra_groupings.len() implies #[trigger] x.extra_groupings[g]
            == y.extra_groupings[g] by {
            let r = a.re->0.extra_groupings[g];
        }
        assert(x.extra_groupings =~= y.extra_groupings);
    }
}

/// `order` names each of `n` rows.
pub open spec fn is_order(order: Seq<int>, n: nat) -> bool {
    &&& order.len() == n
    &&& forall|i: int| 0 <= i < n ==> 0 <= #[trigger] order[i] < n
    &&& forall|j: int| 0 <= j < n ==> #[trigger] named(order, j)
}

/// `order` names row `j`.
pub open spec fn named(order: Seq<int>, j: int) -> bool {
    exists|i: int| 0 <= i < order.len() && #[trigger] order[i] == j
}

/// The rows of `v` in the given order.
pub open spec fn reordered(v: Seq<u32>, order: Seq<int>) -> Seq<u32> {
    Seq::new(order.len(), |i: int| v[order[i]])
}

/// The rows of every grouping in the given order.
pub open spec fn all_reordered(v: Seq<Seq<u32>>, order: Seq<int>) -> Seq<Seq<u32>> {
    Seq::new(v.len(), |g: int| reordered(v[g], order))
}

/// The level count does not depend on the order of the rows.
proof fn lemma_reordered_count(v: Seq<u32>, order: Seq<int>)
    requires
        is_order(order, v.len()),
    ensures
        level_count(reordered(v, order)) == level_count(v),
{
    let w = reordered(v, order);
    levels_used_is_least(v, levels_used(w));
    levels_used_is_least(w, levels_used(v));
    assert forall|i: int| 0 <= i < w.len() implies #[trigger] w[i] < levels_used(v) by {
        assert(v[order[i]] < levels_used(v));
    }
    assert forall|j: int| 0 <= j < v.len() implies #[trigger] v[j] < levels_used(w) by {
        assert(named(order, j));
        let i = choose|i: int| 0 <= i < order.len() && #[trigger] order[i] == j;
        assert(w[i] < levels_used(w));
    }
}

/// The children of the fullest parent do not depend on the order of the rows.
proof fn lemma_reordered_widest(primary: Seq<u32>, extra: Seq<u32>, order: Seq<int>, k: nat)
    requires
        primary.len() == extra.len(),
        is_order(order, primary.len()),
    ensures
        widest(reordered(primary, order), reordered(extra, order), k) == widest(
            primary,
            extra,
            k,
        ),
    decreases k,
{
    if k > 0 {
        lemma_reordered_widest(primary, extra, order, (k - 1) as nat);
        let p = reordered(primary, order);
        let x = reordered(extra, order);
        let n = primary.len() as int;
        let a = children(p, x, n, k - 1);
        let b = children(primary, extra, n, k - 1);
        assert forall|c: u32| a.contains(c) implies b.contains(c) by {
            let i = choose|i: int| 0 <= i < n && #[trigger] p[i] == k - 1 && #[trigger] x[i] == c;
            assert(primary[order[i]] == k - 1 && extra[order[i]] == c);
        }
        assert forall|c: u32| b.contains(c) implies a.contains(c) by {
            let j = choose|j: int|
                0 <= j < n && #[trigger] primary[j] == k - 1 && #[trigger] extra[j] == c;
            assert(named(order, j));
            let i = choose|i: int| 0 <= i < order.len() && #[trigger] order[i] == j;
            assert(p[i] == k - 1 && x[i] == c);
        }
        assert(a =~= b);
    }
}

/// The order of the rows has no say in the sizing.
pub proof fn sizing_ignores_row_order(
    m: ModelView,
    primary: Seq<u32>,
    extra: Seq<Seq<u32>>,
    order: Seq<int>,
)
    requires
        is_order(order, primary.len()),
        forall|g: int| 0 <= g < extra.len() ==> (#[trigger] extra[g]).len() == primary.len(),
        m.re matches Some(re) ==> re.extra_groupings.len() <= extra.len(),
    ensures
        sized(m, reordered(primary, order), all_reordered(extra, order)) == sized(
            m,
            primary,
            extra,
        ),
{
    if m.re is Some {
        let re = m.re->0;
        let moved = all_reordered(extra, order);
        let a = sized(m, reordered(primary, order), moved).re->0;
        let b = sized(m, primary, extra).re->0;
        lemma_reordered_count(primary, order);
        assert forall|g: int| 0 <= g < re.extra_groupings.len() implies #[trigger] a.extra_groupings[g]
            == b.extra_groupings[g] by {
            assert(extra[g].len() == primary.len());
            assert(moved[g] == reordered(extra[g], order));
            lemma_reordered_count(extra[g], order);
            lemma_reordered_widest(primary, extra[g], order, level_count(primary));
        }
        assert(a.extra_groupings =~= b.extra_groupings);
    }
}

/// The extra blocks of a sized model are as wide as before.
proof fn lemma_sized_width(m: ModelView, primary: Seq<u32>, extra: Seq<Seq<u32>>, k: nat)
    requires
        m.re is Some,
        k <= m.re->0.extra_groupings.len(),
    ensures
        extra_width(sized(m, primary, extra).re->0.extra_groupings, k) == extra_width(
            m.re->0.extra_groupings,
            k,
        ),
    decreases k,
{
    if k > 0 {
        lemma_sized_width(m, primary, extra, (k - 1) as nat);
    }
}

/// Sizing keeps the family, the slopes, the topology and with them the number of
/// variance parameters: only level counts move.
pub proof fn sizing_keeps_the_model(m: ModelView, primary: Seq<u32>, extra: Seq<Seq<u32>>)
    ensures
        sized(m, primary, extra).family == m.family,
        re_width(sized(m, primary, extra).re) == re_width(m.re),
        (sized(m, primary, extra).re is Some) == (m.re is Some),
        m.re matches Some(re) ==> {
            let out = sized(m, primary, extra).re->0;
            &&& out.slopes == re.slopes
            &&& out.extra_groupings.len() == re.extra_groupings.len()
            &&& forall|g: int|
                0 <= g < re.extra_groupings.len() ==> {
                    &&& (#[trigger] out.extra_groupings[g]).slopes == re.extra_groupings[g].slopes
                    &&& out.extra_groupings[g].relation is Crossed
                        == re.extra_groupings[g].relation is Crossed
                }
        },
{
    if m.re is Some {
        lemma_sized_width(m, primary, extra, m.re->0.extra_groupings.len());
    }
}

/// A nested grouping is sized for the children of every parent that occurs, and
/// for no more than its fullest parent has (or one).
pub proof fn widest_parent_is_the_maximum(
    primary: Seq<u32>,
    extra: Seq<u32>,
    n_primary: nat,
    parent: nat,
)
    requires
        parent < n_primary,
    ensures
        children(primary, extra, paired(primary, extra), parent as int).len() <= widest(
            primary,
            extra,
            n_primary,
        ),
        widest(primary, extra, n_primary) == 1 || exists|q: int|
            0 <= q < n_primary && widest(primary, extra, n_primary) == #[trigger] children(
                primary,
                extra,
                paired(primary, extra),
                q,
            ).len(),
    decreases n_primary,
{
    let last = (n_primary - 1) as nat;
    if parent < last {
        widest_parent_is_the_maximum(primary, extra, last, parent);
    } else if last > 0 {
        widest_parent_is_the_maximum(primary, extra, last, 0);
    }
    let own = children(primary, extra, paired(primary, extra), last as int).len();
    if widest(primary, extra, last) >= own && widest(primary, extra, n_primary) != 1 {
        assert(last > 0);
        let q = choose|q: int|
            0 <= q < last && widest(primary, extra, last) == #[trigger] children(
                primary,
                extra,
                paired(primary, extra),
                q,
            ).len();
        assert(0 <= q < n_primary);
    }
}

/// Some row has level `c`.
pub open spec fn occurs(v: Seq<u32>, c: u32) -> bool {
    exists|i: int| 0 <= i < v.len() && #[trigger] v[i] == c
}

/// Every level below the largest occurs.
pub open spec fn gapless(v: Seq<u32>) -> bool {
    forall|c: u32| c < levels_used(v) ==> #[trigger] occurs(v, c)
}

/// The children of each parent are numbered within a block of `width` of its own.
pub open spec fn blocked(primary: Seq<u32>, extra: Seq<u32>, width: nat) -> bool {
    forall|i: int|
        0 <= i < extra.len() ==> #[trigger] extra[i] < (primary[i] + 1) * width
}

/// The children of the first `k` parents.
spec fn all_children(primary: Seq<u32>, extra: Seq<u32>, k: nat) -> Set<u32>
    decreases k,
{
    if k == 0 {
        Set::empty()
    } else {
        all_children(primary, extra, (k - 1) as nat).union(
            children(primary, extra, paired(primary, extra), k - 1),
        )
    }
}

/// The levels below `k`.
spec fn below(k: nat) -> Set<u32> {
    Set::new(|c: u32| c < k)
}

proof fn lemma_below(k: nat)
    requires
        k <= u32::MAX + 1,
    ensures
        below(k).finite(),
        below(k).len() == k,
    decreases k,
{
    if k == 0 {
        assert(below(0) =~= Set::empty());
    } else {
        lemma_below((k - 1) as nat);
        assert(below(k) =~= below((k - 1) as nat).insert((k - 1) as u32));
    }
}

/// Levels are 32-bit numbers, and so there are at most as many.
proof fn lemma_levels_bound(v: Seq<u32>)
    ensures
        levels_used(v) <= u32::MAX + 1,
    decreases v.len(),
{
    if v.len() > 0 {
        lemma_levels_bound(v.drop_last());
    }
}

proof fn lemma_all_children(primary: Seq<u32>, extra: Seq<u32>, k: nat, n_primary: nat)
    requires
        k <= n_primary,
    ensures
        all_children(primary, extra, k).finite(),
        all_children(primary, extra, k).len() <= k * widest(primary, extra, n_primary),
        forall|q: int, c: u32|
            0 <= q < k && #[trigger] children(primary, extra, paired(primary, extra), q).contains(c)
                ==> all_children(primary, extra, k).contains(c),
    decreases k,
{
    let w = widest(primary, extra, n_primary);
    if k == 0 {
        assert(0 * w == 0) by (nonlinear_arith);
    } else {
        lemma_all_children(primary, extra, (k - 1) as nat, n_primary);
        let own = children(primary, extra, paired(primary, extra), k - 1);
        lemma_below(u32::MAX as nat + 1);
        assert(own.subset_of(below(u32::MAX as nat + 1)));
        vstd::set_lib::lemma_len_subset(own, below(u32::MAX as nat + 1));
        vstd::set_lib::lemma_len_union(all_children(primary, extra, (k - 1) as nat), own);
        widest_parent_is_the_maximum(primary, extra, n_primary, (k - 1) as nat);
        assert((k - 1) * w + w == k * w) by (nonlinear_arith);
    }
}

/// A nested grouping finds room in the grid that it is sized for: parents times
/// the children of the fullest parent, wherever its levels are numbered without
/// gaps, or within a block per parent.
pub proof fn nested_levels_find_room(primary: Seq<u32>, extra: Seq<u32>)
    requires
        primary.len() == extra.len(),
        gapless(extra) || blocked(
            primary,
            extra,
            widest(primary, extra, level_count(primary)),
        ),
    ensures
        levels_used(extra) <= level_count(primary) * widest(
            primary,
            extra,
            level_count(primary),
        ),
{
    let np = level_count(primary);
    let w = widest(primary, extra, np);
    let used = levels_used(extra);
    levels_used_is_least(primary, 0);
    if gapless(extra) {
        lemma_levels_bound(extra);
        lemma_below(used);
        lemma_all_children(primary, extra, np, np);
        let all = all_children(primary, extra, np);
        assert forall|c: u32| below(used).contains(c) implies all.contains(c) by {
            assert(occurs(extra, c));
            let i = choose|i: int| 0 <= i < extra.len() && #[trigger] extra[i] == c;
            let q = primary[i] as int;
            assert(primary[i] == q && extra[i] == c);
            assert(children(primary, extra, paired(primary, extra), q).contains(c));
        }
        vstd::set_lib::lemma_len_subset(below(used), all);
    } else {
        assert forall|i: int| 0 <= i < extra.len() implies #[trigger] extra[i] < np * w by {
            let q = primary[i];
            assert(primary[i] < np);
            assert((q + 1) * w <= np * w) by (nonlinear_arith)
                requires
                    q + 1 <= np,
                    w >= 0,
            ;
        }
        assert(np * w >= 0) by (nonlinear_arith);
        levels_used_is_least(extra, (np * w) as nat);
    }
}

/// A level is a child of a parent exactly if some row has both; rows that only one of the
/// two groupings covers do not count.
pub proof fn children_share_a_row(primary: Seq<u32>, extra: Seq<u32>, parent: int, c: u32)
    ensures
        children(primary, extra, paired(primary, extra), parent).contains(c) <==> exists|i: int|
            0 <= i < primary.len() && i < extra.len() && #[trigger] primary[i] == parent
                && #[trigger] extra[i] == c,
{
    let n = paired(primary, extra);
    if exists|i: int|
        0 <= i < primary.len() && i < extra.len() && #[trigger] primary[i] == parent
            && #[trigger] extra[i] == c {
        let i = choose|i: int|
            0 <= i < primary.len() && i < extra.len() && #[trigger] primary[i] == parent
                && #[trigger] extra[i] == c;
        assert(0 <= i < n && primary[i] == parent && extra[i] == c);
    }
}

/// `n` is the number of levels that the rows use: no level reaches it, and some row has
/// the level just below. Without rows it is 1.
pub open spec fn counts_levels(v: Seq<u32>, n: int) -> bool {
    &&& v.len() == 0 ==> n == 1
    &&& v.len() > 0 ==> {
        &&& forall|i: int| 0 <= i < v.len() ==> #[trigger] v[i] < n
        &&& exists|i: int| 0 <= i < v.len() && #[trigger] v[i] == n - 1
    }
}

/// The level count of some rows is one more than their largest level.
pub proof fn level_counts_reach_the_largest(v: Seq<u32>)
    ensures
        counts_levels(v, level_count(v) as int),
        v.len() == 0 ==> levels_used(v) == 0,
        v.len() > 0 ==> counts_levels(v, levels_used(v) as int),
{
    let n = levels_used(v);
    levels_used_is_least(v, (n - 1) as nat);
    if v.len() > 0 {
        assert(v[0] < n);
        if forall|i: int| 0 <= i < v.len() ==> #[trigger] v[i] != n - 1 {
            assert forall|i: int| 0 <= i < v.len() implies #[trigger] v[i] < (n - 1) as nat by {
                assert(v[i] < n);
            }
        }
    }
}

/// The counts of a sized model come from the rows: clusters and crossed levels are counted
/// as levels are, and a nested grouping has room for the children of every parent that
/// occurs and for no more than some parent has, or for one.
pub proof fn sized_models_count_their_rows(
    m: ModelView,
    primary: Seq<u32>,
    extra: Seq<Seq<u32>>,
    g: int,
    parent: nat,
)
    requires
        m.re is Some,
        level_count(primary) <= u32::MAX,
        0 <= g < m.re->0.extra_groupings.len() ==> {
            &&& level_count(extra[g]) <= u32::MAX
            &&& widest(primary, extra[g], level_count(primary)) <= u32::MAX
        },
    ensures
        ({
            let re = sized(m, primary, extra).re->0;
            &&& sized(m, primary, extra).re is Some
            &&& re.sizing matches Sizing::FixedClusters { n_clusters } && counts_levels(
                primary,
                n_clusters as int,
            )
            &&& 0 <= g < m.re->0.extra_groupings.len() ==> match re.extra_groupings[g].relation {
                GroupingRelation::Crossed { n_clusters } => m.re->0.extra_groupings[g].relation
                    is Crossed && counts_levels(extra[g], n_clusters as int),
                GroupingRelation::NestedWithin { n_per_parent } => {
                    let of = |q: int| children(primary, extra[g], paired(primary, extra[g]), q).len();
                    &&& m.re->0.extra_groupings[g].relation is NestedWithin
                    &&& n_per_parent >= 1
                    &&& parent < level_count(primary) ==> of(parent as int) <= n_per_parent
                    &&& n_per_parent == 1 || exists|q: int|
                        0 <= q < level_count(primary) && #[trigger] of(q) == n_per_parent
                },
            }
        }),
{
    level_counts_reach_the_largest(primary);
    if 0 <= g < m.re->0.extra_groupings.len() {
        level_counts_reach_the_largest(extra[g]);
        let np = level_count(primary);
        if parent < np {
            widest_parent_is_the_maximum(primary, extra[g], np, parent);
        }
        lemma_at_least_one_child(primary, extra[g], np);
        assert(np >= 1);
        widest_parent_is_the_maximum(primary, extra[g], np, 0);
        let of = |q: int| children(primary, extra[g], paired(primary, extra[g]), q).len();
        if widest(primary, extra[g], np) != 1 {
            let q = choose|q: int|
                0 <= q < np && widest(primary, extra[g], np) == #[trigger] children(
                    primary,
                    extra[g],
                    paired(primary, extra[g]),
                    q,
                ).len();
            assert(of(q) == widest(primary, extra[g], np));
        }
    }
}

proof fn lemma_at_least_one_child(primary: Seq<u32>, extra: Seq<u32>, n: nat)
    ensures
        widest(primary, extra, n) >= 1,
    decreases n,
{
    if n > 0 {
        lemma_at_least_one_child(primary, extra, (n - 1) as nat);
    }
}

} // verus!
