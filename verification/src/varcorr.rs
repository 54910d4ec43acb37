//! Covariance of the random effects, one packed block per grouping.
use crate::groupings::{extra_vech_start, lemma_first_block, lemma_theta_at, theta_at, LmmGroupings};
use crate::layout::{
    column, factor_entry, is_factor, lemma_vech_index, packed, packed_cols,
    packed_holds_every_entry, scaled_factor, vech_index,
};
use crate::model::{lemma_vech, lemma_vech_monotone, vech};
use crate::reading::{exact, lemma_sum_equal, sum_reads_exactly, total};
use crate::scalar::{sum_to, Scalar};
use vstd::prelude::*;

verus! {

/// Products of rows `r` and `c` of a factor, as the terms of a sum.
pub open spec fn gram_terms<S: Scalar>(
    theta: Seq<S>,
    start: int,
    q: nat,
    scales: Seq<S>,
    r: int,
    c: int,
) -> spec_fn(int) -> S {
    |k: int|
        factor_entry(theta, start, q, scales, r, k).product(
            factor_entry(theta, start, q, scales, c, k),
        )
}

/// The matrix `scale * L * L'` of the factor `L` whose parameters start at `start`.
pub open spec fn covariance<S: Scalar>(
    theta: Seq<S>,
    start: int,
    q: nat,
    scale: S,
    scales: Seq<S>,
) -> spec_fn(int, int) -> S {
    |r: int, c: int|
        scale.product(sum_to((c + 1) as nat, gram_terms(theta, start, q, scales, r, c)))
}

/// The lower triangle of `scale * L * L'`, by columns.
fn covariance_block<S: Scalar>(
    theta: &[S],
    start: usize,
    q: usize,
    scale: S,
    scales: &[S],
) -> (out: Vec<S>)
    requires
        start + vech(q as nat) <= theta@.len(),
        scales@.len() == q,
    ensures
        out@ == packed(q as nat, covariance(theta@, start as int, q as nat, scale, scales@)),
{
    let ghost f = covariance(theta@, start as int, q as nat, scale, scales@);
    let lam: Vec<Vec<S>> = scaled_factor(theta, start, q, scales);
    let mut out: Vec<S> = Vec::new();
    let mut c: usize = 0;
    while c < q
        invariant
            c <= q,
            is_factor(lam@, theta@, start as int, q as nat, scales@),
            f == covariance(theta@, start as int, q as nat, scale, scales@),
            out@ == packed_cols(q as nat, c as nat, f),
        decreases q - c,
    {
        let ghost before = out@;
        let mut r: usize = c;
        while r < q
            invariant
                c <= r <= q,
                c < q,
                is_factor(lam@, theta@, start as int, q as nat, scales@),
                f == covariance(theta@, start as int, q as nat, scale, scales@),
                out@ == before + column(q as nat, c as int, f).take(r - c),
            decreases q - r,
        {
            let ghost terms = gram_terms(
                theta@,
                start as int,
                q as nat,
                scales@,
                r as int,
                c as int,
            );
            let mut d: S = S::zero();
            let mut k: usize = 0;
            while k <= c
                invariant
                    k <= c + 1,
                    c <= r < q,
                    is_factor(lam@, theta@, start as int, q as nat, scales@),
                    terms == gram_terms(
                        theta@,
                        start as int,
                        q as nat,
                        scales@,
                        r as int,
                        c as int,
                    ),
                    d == sum_to(k as nat, terms),
                decreases c + 1 - k,
            {
                assert(lam@[r as int]@.len() == r + 1);
                assert(lam@[c as int]@.len() == c + 1);
                assert(lam@[r as int]@[k as int] == factor_entry(
                    theta@,
                    start as int,
                    q as nat,
                    scales@,
                    r as int,
                    k as int,
                ));
                assert(lam@[c as int]@[k as int] == factor_entry(
                    theta@,
                    start as int,
                    q as nat,
                    scales@,
                    c as int,
                    k as int,
                ));
                d = d.plus(lam[r][k].times(lam[c][k]));
                k = k + 1;
            }
            let v: S = scale.times(d);
            assert(v == f(c + (r - c), c as int));
            out.push(v);
            r = r + 1;
        }
        assert(column(q as nat, c as int, f).take(q - c) =~= column(q as nat, c as int, f));
        c = c + 1;
    }
    out
}

/// The lower triangle, by columns, of `scale * L * L'` for one grouping of `q`
/// effects: `theta_block` holds the lower triangle of `L` by columns, and row `r`
/// of `L` is first divided by `row_scales[r]`.
pub fn varcorr_block<S: Scalar>(
    theta_block: &[S],
    q: usize,
    scale: S,
    row_scales: &[S],
) -> (out: Vec<S>)
    requires
        vech(q as nat) <= theta_block@.len(),
        row_scales@.len() == q,
    ensures
        out@ == packed(q as nat, covariance(theta_block@, 0, q as nat, scale, row_scales@)),
{
    covariance_block(theta_block, 0, q, scale, row_scales)
}

/// Block `e` of the covariance of the random effects.
pub open spec fn covariance_of<S: Scalar>(
    theta: Seq<S>,
    g: LmmGroupings<S>,
    scale: S,
    e: int,
) -> Seq<S> {
    packed(
        g.widths()[e],
        covariance(
            theta,
            theta_at(g.widths(), e as nat) as int,
            g.widths()[e],
            scale,
            g.scales()[e],
        ),
    )
}

/// One packed covariance block per grouping, primary first, each a function of
/// the variance parameters alone.
pub fn assemble_varcorr<S: Scalar>(
    theta: &[S],
    groupings: &LmmGroupings<S>,
    scale: S,
) -> (out: Vec<Vec<S>>)
    requires
        groupings.wf(),
        groupings.theta_len() <= theta@.len(),
    ensures
        out@.len() == groupings.widths().len(),
        forall|e: int|
            0 <= e < out@.len() ==> (#[trigger] out@[e])@ == covariance_of(
                theta@,
                *groupings,
                scale,
                e,
            ),
{
    let ghost widths = groupings.widths();
    let ghost m = widths.len();
    proof {
        lemma_theta_at(widths, 1, m);
        lemma_first_block(widths, groupings.levels());
    }
    let mut out: Vec<Vec<S>> = Vec::with_capacity(groupings.extra_q.len());
    out.push(
        covariance_block(
            theta,
            0,
            groupings.primary_q,
            scale,
            groupings.primary_scales.as_slice(),
        ),
    );
    let mut e: usize = 0;
    while e < groupings.extra_q.len()
        invariant
            e <= groupings.extra_q.len(),
            groupings.wf(),
            widths == groupings.widths(),
            m == widths.len(),
            groupings.theta_len() <= theta@.len(),
            out@.len() == e + 1,
            forall|k: int|
                0 <= k <= e ==> (#[trigger] out@[k])@ == covariance_of(
                    theta@,
                    *groupings,
                    scale,
                    k,
                ),
        decreases groupings.extra_q.len() - e,
    {
        proof {
            lemma_theta_at(widths, (e + 2) as nat, m);
            assert(groupings.extra_in_place(e as int));
            assert(groupings.scales()[e + 1] == groupings.extra_scales@[e as int]@);
        }
        let start: usize = extra_vech_start(groupings, e);
        out.push(
            covariance_block(
                theta,
                start,
                groupings.extra_q[e],
                scale,
                groupings.extra_scales[e].as_slice(),
            ),
        );
        e = e + 1;
    }
    out
}

/// `q` is the width of the largest triangle that fits into `len` entries.
pub open spec fn fits_width(len: nat, q: nat) -> bool {
    vech(q) <= len < vech((q + 1) as nat)
}

/// The width of the largest triangle that fits into `len` entries.
pub open spec fn width_of(len: nat) -> nat {
    choose|q: nat| fits_width(len, q)
}

/// There is one such width.
pub proof fn lemma_width_of(len: nat, q: nat)
    requires
        fits_width(len, q),
    ensures
        width_of(len) == q,
{
    let w = width_of(len);
    assert(fits_width(len, w));
    if w < q {
        lemma_vech_monotone((w + 1) as nat, q);
    } else if q < w {
        lemma_vech_monotone((q + 1) as nat, w);
    }
}

/// The width of a block is found back from the number of its entries.
pub proof fn width_is_found_back(q: nat)
    ensures
        width_of(vech(q)) == q,
{
    lemma_vech(q);
    lemma_width_of(vech(q), q);
}

/// The width of the block with `len` entries.
pub fn vech_q(len: usize) -> (q: usize)
    ensures
        q == width_of(len as nat),
        q <= len,
{
    // `used` entries make up the first `q` rows.
    let mut q: usize = 0;
    let mut used: usize = 0;
    proof {
        lemma_vech(0);
    }
    while q < len - used
        invariant
            used == vech(q as nat),
            used <= len,
            q <= used,
        decreases len - used,
    {
        proof {
            lemma_vech(q as nat);
        }
        q = q + 1;
        used = used + q;
    }
    proof {
        lemma_vech(q as nat);
        lemma_width_of(len as nat, q as nat);
    }
    q
}

/// The parameters and the row scales are finite, and no row scale is zero.
pub open spec fn readable<S: Scalar>(
    value: spec_fn(S) -> real,
    theta: Seq<S>,
    g: LmmGroupings<S>,
) -> bool {
    &&& forall|k: int| 0 <= k < theta.len() ==> (#[trigger] theta[k]).finite()
    &&& forall|e: int, r: int|
        0 <= e < g.widths().len() && 0 <= r < g.widths()[e] ==> (#[trigger] g.scales()[e][r]).finite()
            && value(g.scales()[e][r]) != 0real
}

/// Entry `(r, c)` of a packed covariance block is the scale times the products of rows
/// `r` and `c` of the factor, added up to the diagonal of row `c`; each row of the factor
/// is its parameters over the scale of the row.
pub proof fn packed_covariance_holds_row_products<S: Scalar>(
    theta: Seq<S>,
    start: int,
    q: nat,
    scale: S,
    scales: Seq<S>,
    r: int,
    c: int,
)
    requires
        0 <= c <= r < q,
    ensures
        2 * packed(q, covariance(theta, start, q, scale, scales)).len() == q * (q + 1),
        packed(q, covariance(theta, start, q, scale, scales))[vech_index(q, r, c)]
            == scale.product(
            sum_to(
                (c + 1) as nat,
                |k: int|
                    theta[start + vech_index(q, r, k)].quotient(scales[r]).product(
                        theta[start + vech_index(q, c, k)].quotient(scales[c]),
                    ),
            ),
        ),
{
    packed_holds_every_entry(q, covariance(theta, start, q, scale, scales));
    lemma_vech(q);
    let f = gram_terms(theta, start, q, scales, r, c);
    let g = |k: int|
        theta[start + vech_index(q, r, k)].quotient(scales[r]).product(
            theta[start + vech_index(q, c, k)].quotient(scales[c]),
        );
    lemma_sum_equal((c + 1) as nat, f, g);
}

/// The covariance of every grouping, primary or extra, carries one and the same scale: in
/// exact arithmetic, entry `(r, c)` of block `e` is the scale times the inner product of
/// rows `r` and `c` of that grouping's own factor. With an intercept alone it is the scale
/// times the squared parameter.
pub proof fn every_block_carries_the_scale<S: Scalar>(
    value: spec_fn(S) -> real,
    theta: Seq<S>,
    g: LmmGroupings<S>,
    scale: S,
    e: int,
    r: int,
    c: int,
)
    requires
        exact(value),
        scale.finite(),
        g.theta_len() <= theta.len(),
        readable(value, theta, g),
        0 <= e < g.widths().len(),
        0 <= c <= r < g.widths()[e],
    ensures
        ({
            let q = g.widths()[e];
            let start = theta_at(g.widths(), e as nat);
            let entry = covariance_of(theta, g, scale, e)[vech_index(q, r, c)];
            &&& entry.finite()
            &&& value(entry) == value(scale) * total(
                (c + 1) as nat,
                |k: int|
                    (value(theta[start + vech_index(q, r, k)]) / value(g.scales()[e][r])) * (value(
                        theta[start + vech_index(q, c, k)],
                    ) / value(g.scales()[e][c])),
            )
            &&& q == 1 ==> value(entry) == value(scale) * ((value(theta[start as int]) / value(
                g.scales()[e][0],
            )) * (value(theta[start as int]) / value(g.scales()[e][0])))
        }),
{
    let q = g.widths()[e];
    let start = theta_at(g.widths(), e as nat) as int;
    let scales = g.scales()[e];
    packed_covariance_holds_row_products(theta, start, q, scale, scales, r, c);
    let f = |k: int|
        theta[start + vech_index(q, r, k)].quotient(scales[r]).product(
            theta[start + vech_index(q, c, k)].quotient(scales[c]),
        );
    let h = |k: int|
        (value(theta[start + vech_index(q, r, k)]) / value(g.scales()[e][r])) * (value(
            theta[start + vech_index(q, c, k)],
        ) / value(g.scales()[e][c]));
    lemma_theta_at(g.widths(), (e + 1) as nat, g.widths().len());
    assert forall|k: int| 0 <= k < c + 1 implies (#[trigger] f(k)).finite() && value(f(k)) == h(
        k,
    ) by {
        lemma_vech_index(q, r, k);
        lemma_vech_index(q, c, k);
        assert(g.scales()[e][r].finite() && g.scales()[e][c].finite());
        assert(theta[start + vech_index(q, r, k)].finite());
        assert(theta[start + vech_index(q, c, k)].finite());
    }
    sum_reads_exactly(value, (c + 1) as nat, f, h);
    if q == 1 {
        assert(vech_index(1, 0, 0) == 0);
        assert(total(1, h) == total(0, h) + h(0));
    }
}

} // verus!
