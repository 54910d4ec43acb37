//! Model specifications: the response family, the random-effect structure and
//! the options of a fit.
use crate::scalar::{copied, copied_rows, rows};
use vstd::prelude::*;

verus! {

/// Link of a binomial response.
#[derive(Clone, Copy, Debug, PartialEq, Eq, Structural)]
pub enum BinomialLink {
    /// Log odds.
    Logit,
    /// Normal quantile.
    Probit,
    /// Complementary log-log.
    Cloglog,
}

/// Link of a Poisson response.
#[derive(Clone, Copy, Debug, PartialEq, Eq, Structural)]
pub enum PoissonLink {
    /// Logarithm.
    Log,
}

/// Link of a gamma response.
#[derive(Clone, Copy, Debug, PartialEq, Eq, Structural)]
pub enum GammaLink {
    /// Logarithm.
    Log,
    /// Reciprocal.
    Inverse,
}

/// Link of an inverse Gaussian response.
#[derive(Clone, Copy, Debug, PartialEq, Eq, Structural)]
pub enum InverseGaussianLink {
    /// Logarithm.
    Log,
    /// Reciprocal square.
    InverseSquared,
}

/// Link of a negative binomial response.
#[derive(Clone, Copy, Debug, PartialEq, Eq, Structural)]
pub enum NegBinomialLink {
    /// Logarithm.
    Log,
}

/// Distribution of the response, with its link.
#[allow(inconsistent_fields)]
#[derive(Clone, Copy, Debug, PartialEq, Eq, Structural)]
pub enum Family {
    /// Gaussian with the identity link.
    Gaussian,
    /// Binomial.
    Binomial {
        /// Its link.
        link: BinomialLink,
    },
    /// Poisson.
    Poisson {
        /// Its link.
        link: PoissonLink,
    },
    /// Gamma.
    Gamma {
        /// Its link.
        link: GammaLink,
    },
    /// Inverse Gaussian.
    InverseGaussian {
        /// Its link.
        link: InverseGaussianLink,
    },
    /// Negative binomial.
    NegativeBinomial {
        /// Its link.
        link: NegBinomialLink,
    },
}

/// How many levels the primary grouping has.
#[derive(Clone, Copy, Debug, PartialEq, Eq, Structural)]
pub enum Sizing {
    /// A fixed number of clusters.
    FixedClusters {
        /// The number.
        n_clusters: u32,
    },
    /// Clusters of a fixed number of rows.
    FixedSize {
        /// Rows in each cluster.
        cluster_size: u32,
    },
}

impl Sizing {
    /// Clusters among `n` rows.
    pub open spec fn clusters_at(self, n: nat) -> nat {
        match self {
            Sizing::FixedClusters { n_clusters } => n_clusters as nat,
            Sizing::FixedSize { cluster_size } => {
                let size: nat = if cluster_size == 0 {
                    1
                } else {
                    cluster_size as nat
                };
                ((n + size - 1) / (size as int)) as nat
            },
        }
    }

    /// Clusters among `n` rows: the declared number, or as many as it takes to
    /// hold `n` rows (a declared size of 0 counts as 1).
    pub fn n_clusters_at(&self, n: usize) -> (r: usize)
        ensures
            r == self.clusters_at(n as nat),
    {
        match *self {
            Sizing::FixedClusters { n_clusters } => n_clusters as usize,
            Sizing::FixedSize { cluster_size } => {
                let size: usize = if cluster_size == 0 {
                    1
                } else {
                    cluster_size as usize
                };
                let whole: usize = n / size;
                assert((n + size - 1) / (size as int) == (if n % size == 0 {
                    whole as int
                } else {
                    whole + 1
                }) && (n % size != 0 ==> whole < n)) by (nonlinear_arith)
                    requires
                        size > 0,
                        n >= 0,
                        whole == n as int / size as int,
                ;
                if n % size == 0 {
                    whole
                } else {
                    whole + 1
                }
            },
        }
    }
}

/// How an extra grouping lies to the primary one.
#[derive(Clone, Copy, Debug, PartialEq, Eq, Structural)]
pub enum GroupingRelation {
    /// Its levels are independent of the primary levels.
    Crossed {
        /// Number of levels.
        n_clusters: u32,
    },
    /// Each of its levels lies within one primary level.
    NestedWithin {
        /// Levels within each primary level.
        n_per_parent: u32,
    },
}

/// An extra grouping factor.
#[derive(Debug)]
pub struct Grouping {
    /// How it lies to the primary grouping.
    pub relation: GroupingRelation,
    /// Design columns with a random slope over this grouping.
    pub slopes: Vec<u32>,
}

/// Random-effect structure: a primary grouping and any number of extra ones.
#[derive(Debug)]
pub struct ReStructure {
    /// Number of primary levels.
    pub sizing: Sizing,
    /// Design columns with a random slope over the primary grouping.
    pub slopes: Vec<u32>,
    /// The extra groupings, in declaration order.
    pub extra_groupings: Vec<Grouping>,
}

/// A model: a response family and, for a mixed model, a random-effect structure.
#[derive(Debug)]
pub struct ModelSpec {
    /// Distribution of the response.
    pub family: Family,
    /// The random effects; `None` for a fixed-effects model.
    pub re: Option<ReStructure>,
}

/// Level of each row in each grouping.
#[derive(Debug, Default)]
pub struct GroupIds {
    /// Primary level of each row.
    pub primary: Vec<u32>,
    /// For each extra grouping, the level of each row.
    pub extra: Vec<Vec<u32>>,
}

/// What a [`Grouping`] says.
#[verifier::ext_equal]
pub struct GroupingView {
    /// How it lies to the primary grouping.
    pub relation: GroupingRelation,
    /// Its slope columns.
    pub slopes: Seq<u32>,
}

/// What a [`ReStructure`] says.
#[verifier::ext_equal]
pub struct ReView {
    /// Number of primary levels.
    pub sizing: Sizing,
    /// The primary slope columns.
    pub slopes: Seq<u32>,
    /// The extra groupings.
    pub extra_groupings: Seq<GroupingView>,
}

/// What a [`ModelSpec`] says.
#[verifier::ext_equal]
pub struct ModelView {
    /// Distribution of the response.
    pub family: Family,
    /// The random effects.
    pub re: Option<ReView>,
}

impl View for Grouping {
    type V = GroupingView;

    open spec fn view(&self) -> GroupingView {
        GroupingView { relation: self.relation, slopes: self.slopes@ }
    }
}

/// What a sequence of groupings says.
pub open spec fn groupings_view(g: Seq<Grouping>) -> Seq<GroupingView> {
    Seq::new(g.len(), |i: int| g[i]@)
}

impl View for ReStructure {
    type V = ReView;

    open spec fn view(&self) -> ReView {
        ReView {
            sizing: self.sizing,
            slopes: self.slopes@,
            extra_groupings: groupings_view(self.extra_groupings@),
        }
    }
}

/// What an optional random-effect structure says.
pub open spec fn re_view(re: Option<ReStructure>) -> Option<ReView> {
    match re {
        Some(re) => Some(re@),
        None => None,
    }
}

impl View for ModelSpec {
    type V = ModelView;

    open spec fn view(&self) -> ModelView {
        ModelView { family: self.family, re: re_view(self.re) }
    }
}

impl Clone for Grouping {
    /// A copy that says the same.
    fn clone(&self) -> (r: Grouping)
        ensures
            r@ == self@,
    {
        Grouping { relation: self.relation, slopes: copied(self.slopes.as_slice()) }
    }
}

impl Clone for ReStructure {
    /// A copy that says the same.
    fn clone(&self) -> (r: ReStructure)
        ensures
            r@ == self@,
    {
        let mut extra: Vec<Grouping> = Vec::with_capacity(self.extra_groupings.len());
        let mut g: usize = 0;
        while g < self.extra_groupings.len()
            invariant
                g <= self.extra_groupings.len(),
                extra@.len() == g,
                forall|i: int| 0 <= i < g ==> extra@[i]@ == self.extra_groupings@[i]@,
            decreases self.extra_groupings.len() - g,
        {
            extra.push(self.extra_groupings[g].clone());
            g = g + 1;
        }
        assert(groupings_view(extra@) == groupings_view(self.extra_groupings@));
        ReStructure {
            sizing: self.sizing,
            slopes: copied(self.slopes.as_slice()),
            extra_groupings: extra,
        }
    }
}

impl Clone for ModelSpec {
    /// A copy that says the same.
    fn clone(&self) -> (r: ModelSpec)
        ensures
            r@ == self@,
    {
        let re: Option<ReStructure> = match &self.re {
            Some(re) => Some(re.clone()),
            None => None,
        };
        ModelSpec { family: self.family, re }
    }
}

impl GroupIds {
    /// The primary levels and the extra levels.
    pub open spec fn same(&self, other: &GroupIds) -> bool {
        &&& self.primary@ == other.primary@
        &&& rows(self.extra@) == rows(other.extra@)
    }
}

impl Clone for GroupIds {
    /// A copy that says the same.
    fn clone(&self) -> (r: GroupIds)
        ensures
            r.same(self),
    {
        GroupIds {
            primary: copied(self.primary.as_slice()),
            extra: copied_rows(self.extra.as_slice()),
        }
    }
}

/// Parameters of a `q x q` lower-triangular block.
#[verifier::opaque]
pub open spec fn vech(q: nat) -> nat {
    (q * (q + 1) / 2) as nat
}

/// Variance parameters of the first `k` extra groupings.
pub open spec fn extra_width(extra: Seq<GroupingView>, k: nat) -> nat
    decreases k,
{
    if k == 0 {
        0
    } else {
        extra_width(extra, (k - 1) as nat) + vech((1 + extra[k - 1].slopes.len()) as nat)
    }
}

/// Variance parameters of a random-effect structure: a lower-triangular block
/// over the intercept and the slopes of each grouping.
pub open spec fn re_width(re: Option<ReView>) -> nat {
    match re {
        Some(re) => vech((1 + re.slopes.len()) as nat) + extra_width(
            re.extra_groupings,
            re.extra_groupings.len(),
        ),
        None => 0,
    }
}

/// The product behind `vech` is even, and a wider block has more parameters.
pub proof fn lemma_vech(q: nat)
    ensures
        2 * vech(q) == q * (q + 1),
        vech((q + 1) as nat) == vech(q) + q + 1,
        q <= vech(q),
        vech(0) == 0,
        vech(1) == 1,
{
    reveal(vech);
    assert((q * (q + 1)) % 2 == 0 && (q + 1) * (q + 2) == q * (q + 1) + 2 * (q + 1) && q * (q + 1)
        >= 2 * q) by (nonlinear_arith)
        requires
            q >= 0,
    {
        let h: int = q as int / 2;
        if q % 2 == 0 {
            assert(q == 2 * h);
            assert(q * (q + 1) == 2 * (h * (q + 1)));
        } else {
            assert(q == 2 * h + 1);
            assert(q * (q + 1) == 2 * (q * (h + 1)));
        }
        assert(q == 0 || q + 1 >= 2);
    }
}

/// A wider block has at least as many parameters.
pub proof fn lemma_vech_monotone(a: nat, b: nat)
    requires
        a <= b,
    ensures
        vech(a) <= vech(b),
    decreases b - a,
{
    if a < b {
        lemma_vech(a);
        lemma_vech_monotone((a + 1) as nat, b);
    }
}

/// More groupings have at least as many parameters.
pub proof fn lemma_extra_width_monotone(extra: Seq<GroupingView>, j: nat, k: nat)
    requires
        j <= k,
    ensures
        extra_width(extra, j) <= extra_width(extra, k),
    decreases k,
{
    if j < k {
        lemma_extra_width_monotone(extra, j, (k - 1) as nat);
    }
}

/// Parameters of a `q x q` lower-triangular block.
pub fn vech_len(q: usize) -> (r: usize)
    requires
        q * (q + 1) <= usize::MAX,
    ensures
        r == vech(q as nat),
{
    assert(q + 1 <= usize::MAX) by (nonlinear_arith)
        requires
            q * (q + 1) <= usize::MAX,
            q >= 0,
            usize::MAX >= 1,
    ;
    proof {
        reveal(vech);
    }
    q * (q + 1) / 2
}

/// Number of variance parameters of a random-effect structure, from its
/// topology alone: no level count matters. A fixed-effects model has none.
pub fn theta_width(re: Option<&ReStructure>) -> (r: usize)
    requires
        re matches Some(s) ==> 2 * re_width(Some(s@)) <= usize::MAX,
    ensures
        r == (match re {
            Some(s) => re_width(Some(s@)),
            None => 0,
        }),
{
    let re: &ReStructure = match re {
        Some(re) => re,
        None => return 0,
    };
    let ghost extra = re@.extra_groupings;
    proof {
        lemma_vech((1 + re@.slopes.len()) as nat);
    }
    let mut w: usize = vech_len(1 + re.slopes.len());
    let mut g: usize = 0;
    while g < re.extra_groupings.len()
        invariant
            g <= re.extra_groupings.len(),
            extra == re@.extra_groupings,
            w == vech((1 + re@.slopes.len()) as nat) + extra_width(extra, g as nat),
            2 * re_width(Some(re@)) <= usize::MAX,
        decreases re.extra_groupings.len() - g,
    {
        proof {
            lemma_vech((1 + extra[g as int].slopes.len()) as nat);
            lemma_extra_width_monotone(extra, (g + 1) as nat, extra.len());
            assert(extra[g as int].slopes == re.extra_groupings@[g as int].slopes@);
        }
        w = w + vech_len(1 + re.extra_groupings[g].slopes.len());
        g = g + 1;
    }
    w
}

/// Clusters of a fixed size are as many as it takes to hold the rows and no more: one
/// fewer would leave a row out. A fixed number of clusters is that number, whatever the
/// rows.
pub proof fn clusters_hold_the_rows(sizing: Sizing, n: nat)
    ensures
        match sizing {
            Sizing::FixedClusters { n_clusters } => sizing.clusters_at(n) == n_clusters,
            Sizing::FixedSize { cluster_size } => {
                let size: int = if cluster_size == 0 {
                    1
                } else {
                    cluster_size as int
                };
                &&& sizing.clusters_at(n) * size >= n
                &&& (sizing.clusters_at(n) - 1) * size < n
            },
        },
{
    if let Sizing::FixedSize { cluster_size } = sizing {
        let size: int = if cluster_size == 0 {
            1
        } else {
            cluster_size as int
        };
        let c = (n + size - 1) / size;
        assert(c >= 0 && c * size >= n && (c - 1) * size < n) by (nonlinear_arith)
            requires
                size >= 1,
                n >= 0,
                c == (n + size - 1) / size,
        ;
    }
}

/// A structure has a parameter for each entry of a triangle over the intercept and the
/// slopes of each grouping: those of the primary grouping alone, and one triangle more
/// for each further grouping. A model without random effects has none.
pub proof fn parameters_fill_triangles(re: ReView, g: GroupingView)
    ensures
        re_width(None) == 0,
        re.extra_groupings.len() == 0 ==> 2 * re_width(Some(re)) == (re.slopes.len() + 1) * (
        re.slopes.len() + 2),
        2 * re_width(
            Some(
                ReView {
                    sizing: re.sizing,
                    slopes: re.slopes,
                    extra_groupings: re.extra_groupings.push(g),
                },
            ),
        ) == 2 * re_width(Some(re)) + (g.slopes.len() + 1) * (g.slopes.len() + 2),
{
    lemma_vech((1 + re.slopes.len()) as nat);
    lemma_vech((1 + g.slopes.len()) as nat);
    let extra = re.extra_groupings;
    lemma_width_of_prefix(extra.push(g), extra, extra.len());
    assert(extra.push(g)[extra.len() as int] == g);
}

/// The parameters of the first groupings depend on the first groupings alone.
proof fn lemma_width_of_prefix(a: Seq<GroupingView>, b: Seq<GroupingView>, k: nat)
    requires
        k <= a.len(),
        k <= b.len(),
        forall|i: int| 0 <= i < k ==> a[i] == b[i],
    ensures
        extra_width(a, k) == extra_width(b, k),
    decreases k,
{
    if k > 0 {
        lemma_width_of_prefix(a, b, (k - 1) as nat);
    }
}

} // verus!
