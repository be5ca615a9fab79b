//! Mathematical model of the clustering engine.
//!
//! Points are rows of fixed-point integer coordinates.  A centroid is the
//! exact dimension-wise mean of its member points, kept as the rational
//! number `sum[dim] / count`; comparisons between squared Euclidean
//! distances to two centroids are carried out exactly by cross-multiplying
//! with the squared denominators, so the whole iteration is a pure function
//! of its inputs.

use vstd::prelude::*;

verus! {

/// Most points a table may hold.  Together with the coordinate bound this
/// keeps every intermediate product of the engine inside `i128`.
pub const MAX_POINTS: usize = 65536;

/// Most coordinates a point may hold.
pub const MAX_DIM: usize = 1024;

/// Largest magnitude a fixed-point coordinate may take.
pub const MAX_ABS_COORD: i64 = 1_000_000;

/// Value of a centroid: the exact dimension-wise mean of its `count`
/// member points, as the rational numbers `sum[dim] / count`.
#[verifier::ext_equal]
pub struct CentroidModel {
    pub sum: Seq<int>,
    pub count: int,
}

/// Full state of one engine run: the labeling that came out, the centroids
/// that produced it, and whether the run detected convergence or ran out of
/// its iteration budget.
#[verifier::ext_equal]
pub struct RunModel {
    pub centroids: Seq<CentroidModel>,
    pub labels: Seq<int>,
    pub converged: bool,
}

/// A row of fixed-point coordinates, as mathematical integers.
pub open spec fn row_model(r: Seq<i64>) -> Seq<int> {
    Seq::new(r.len(), |d: int| r[d] as int)
}

/// A table of points, as mathematical integers.
pub open spec fn table_model(t: Seq<Vec<i64>>) -> Seq<Seq<int>> {
    Seq::new(t.len(), |i: int| row_model(t[i]@))
}

/// A sequence of indices (labels or seeds), as mathematical integers.
pub open spec fn index_model(v: Seq<usize>) -> Seq<int> {
    Seq::new(v.len(), |i: int| v[i] as int)
}

/// Every row has the same length as the first.
pub open spec fn rectangular(t: Seq<Seq<int>>) -> bool {
    forall|i: int| 0 <= i < t.len() ==> #[trigger] t[i].len() == t[0].len()
}

/// The machine limits under which the engine's arithmetic cannot overflow.
pub open spec fn bounded(t: Seq<Seq<int>>) -> bool {
    &&& t.len() <= MAX_POINTS
    &&& forall|i: int| 0 <= i < t.len() ==> #[trigger] t[i].len() <= MAX_DIM
    &&& forall|i: int, d: int|
        0 <= i < t.len() && 0 <= d < t[i].len()
            ==> -(MAX_ABS_COORD as int) <= #[trigger] t[i][d] <= MAX_ABS_COORD as int
}

/// A clustering request the engine accepts: a non-empty rectangular table
/// and a cluster count between one and the number of points.
pub open spec fn valid_config(t: Seq<Seq<int>>, k: int) -> bool {
    &&& 1 <= t.len()
    &&& 1 <= k <= t.len()
    &&& rectangular(t)
}

/// Seed indices: one distinct in-range point index per initial centroid.
pub open spec fn valid_seeds(s: Seq<int>, n: int) -> bool {
    &&& forall|i: int| 0 <= i < s.len() ==> 0 <= #[trigger] s[i] < n
    &&& forall|i: int, j: int| 0 <= i < j < s.len() ==> s[i] != s[j]
}

/// A centroid of dimensionality `d` whose mean lies inside the coordinate
/// range, with its denominator within the point budget.
pub open spec fn wf_centroid(c: CentroidModel, d: int) -> bool {
    &&& c.sum.len() == d
    &&& 1 <= c.count <= MAX_POINTS as int
    &&& forall|t: int|
        0 <= t < d ==> -(c.count * MAX_ABS_COORD) <= #[trigger] c.sum[t] <= c.count * MAX_ABS_COORD
}

pub open spec fn wf_centroids(cs: Seq<CentroidModel>, d: int) -> bool {
    forall|j: int| 0 <= j < cs.len() ==> wf_centroid(#[trigger] cs[j], d)
}

pub open spec fn sq(x: int) -> int {
    x * x
}

/// Partial sum, over the first `n` dimensions, of the squared differences
/// between two points.
pub open spec fn sq_dist_upto(p: Seq<int>, q: Seq<int>, n: int) -> int
    decreases n,
{
    if n <= 0 {
        0
    } else {
        sq_dist_upto(p, q, n - 1) + sq(p[n - 1] - q[n - 1])
    }
}

/// Squared Euclidean distance between two same-length points.
pub open spec fn sq_dist(p: Seq<int>, q: Seq<int>) -> int {
    sq_dist_upto(p, q, p.len() as int)
}

/// Partial sum, over the first `n` dimensions, of the squared differences
/// between `p` scaled by `c.count` and the centroid's numerators.
pub open spec fn dist_num_upto(p: Seq<int>, c: CentroidModel, n: int) -> int
    decreases n,
{
    if n <= 0 {
        0
    } else {
        dist_num_upto(p, c, n - 1) + sq(p[n - 1] * c.count - c.sum[n - 1])
    }
}

/// `count^2` times the squared Euclidean distance from point `p` to the
/// rational point `sum/count`.
pub open spec fn dist_num(p: Seq<int>, c: CentroidModel) -> int {
    dist_num_upto(p, c, p.len() as int)
}

/// `n1/d1 <= n2/d2` for positive denominators, by cross-multiplication.
pub open spec fn rat_le(n1: int, d1: int, n2: int, d2: int) -> bool {
    n1 * d2 <= n2 * d1
}

/// `n1/d1 < n2/d2` for positive denominators, by cross-multiplication.
pub open spec fn rat_lt(n1: int, d1: int, n2: int, d2: int) -> bool {
    n1 * d2 < n2 * d1
}

/// The squared distance from `p` to `a` is at most the one to `b`.
pub open spec fn dist_le(p: Seq<int>, a: CentroidModel, b: CentroidModel) -> bool {
    rat_le(dist_num(p, a), sq(a.count), dist_num(p, b), sq(b.count))
}

/// The squared distance from `p` to `a` is strictly below the one to `b`.
pub open spec fn dist_lt(p: Seq<int>, a: CentroidModel, b: CentroidModel) -> bool {
    rat_lt(dist_num(p, a), sq(a.count), dist_num(p, b), sq(b.count))
}

/// Index of the centroid nearest to `p` among the first `n`, the lowest
/// index winning ties: a later centroid displaces the running best only
/// when it is strictly closer.
pub open spec fn nearest_upto(p: Seq<int>, cs: Seq<CentroidModel>, n: int) -> int
    decreases n,
{
    if n <= 1 {
        0
    } else {
        let prev = nearest_upto(p, cs, n - 1);
        if dist_lt(p, cs[n - 1], cs[prev]) {
            n - 1
        } else {
            prev
        }
    }
}

/// Index of the nearest centroid to `p`, lowest index winning ties.
pub open spec fn nearest(p: Seq<int>, cs: Seq<CentroidModel>) -> int {
    nearest_upto(p, cs, cs.len() as int)
}

/// `j` minimises the distance to `p` and every earlier centroid is
/// strictly farther: the first-wins tie-break picks exactly this index.
pub open spec fn is_nearest(p: Seq<int>, cs: Seq<CentroidModel>, j: int) -> bool {
    &&& 0 <= j < cs.len()
    &&& forall|m: int| 0 <= m < cs.len() ==> dist_le(p, cs[j], #[trigger] cs[m])
    &&& forall|m: int| 0 <= m < j ==> dist_lt(p, cs[j], #[trigger] cs[m])
}

/// The Assignment step: each point's label is its nearest centroid.
pub open spec fn assign_model(t: Seq<Seq<int>>, cs: Seq<CentroidModel>) -> Seq<int> {
    Seq::new(t.len(), |i: int| nearest(t[i], cs))
}

/// Number of points among the first `n` labeled `j`.
pub open spec fn cluster_count_upto(labels: Seq<int>, j: int, n: int) -> int
    decreases n,
{
    if n <= 0 {
        0
    } else {
        cluster_count_upto(labels, j, n - 1) + if labels[n - 1] == j {
            1int
        } else {
            0int
        }
    }
}

/// Number of points labeled `j`.
pub open spec fn cluster_count(labels: Seq<int>, j: int) -> int {
    cluster_count_upto(labels, j, labels.len() as int)
}

/// Sum, over the first `n` points labeled `j`, of coordinate `dim`.
pub open spec fn cluster_sum_upto(
    t: Seq<Seq<int>>,
    labels: Seq<int>,
    j: int,
    dim: int,
    n: int,
) -> int
    decreases n,
{
    if n <= 0 {
        0
    } else {
        cluster_sum_upto(t, labels, j, dim, n - 1) + if labels[n - 1] == j {
            t[n - 1][dim]
        } else {
            0int
        }
    }
}

/// Sum of coordinate `dim` over the points labeled `j`.
pub open spec fn cluster_sum(t: Seq<Seq<int>>, labels: Seq<int>, j: int, dim: int) -> int {
    cluster_sum_upto(t, labels, j, dim, t.len() as int)
}

/// The Update step: each non-empty cluster's centroid becomes the exact
/// mean of its members; a cluster that attracted no point keeps its
/// previous centroid unchanged.
pub open spec fn update_model(
    t: Seq<Seq<int>>,
    labels: Seq<int>,
    cs: Seq<CentroidModel>,
) -> Seq<CentroidModel> {
    Seq::new(
        cs.len(),
        |j: int|
            if cluster_count(labels, j) == 0 {
                cs[j]
            } else {
                CentroidModel {
                    sum: Seq::new(t[0].len(), |dim: int| cluster_sum(t, labels, j, dim)),
                    count: cluster_count(labels, j),
                }
            },
    )
}

/// The Initialization step: centroid `j` sits on the seed point
/// `t[seeds[j]]`, a mean of the single member it was sampled from.
pub open spec fn init_model(t: Seq<Seq<int>>, seeds: Seq<int>) -> Seq<CentroidModel> {
    Seq::new(seeds.len(), |j: int| CentroidModel { sum: t[seeds[j]], count: 1 })
}

/// The labeling buffer before any Assignment pass has run.
pub open spec fn zero_labels(n: int) -> Seq<int> {
    Seq::new(n as nat, |i: int| 0int)
}

/// The iterative loop.  Each pass assigns labels from the current
/// centroids; once a pass reproduces the previous pass's labeling the run
/// has converged and stops, otherwise the centroids are updated from the
/// fresh labeling and the next pass begins.  The first pass has no previous
/// labeling to compare against, so it always updates.  When the budget runs
/// out, the last computed labeling is returned unconverged.
pub open spec fn lloyd_run(
    t: Seq<Seq<int>>,
    cs: Seq<CentroidModel>,
    prev: Seq<int>,
    have_prev: bool,
    iters: nat,
) -> RunModel
    decreases iters,
{
    if iters == 0 {
        RunModel { centroids: cs, labels: prev, converged: false }
    } else {
        let fresh = assign_model(t, cs);
        if have_prev && fresh == prev {
            RunModel { centroids: cs, labels: prev, converged: true }
        } else {
            lloyd_run(t, update_model(t, fresh, cs), fresh, true, (iters - 1) as nat)
        }
    }
}

/// A whole run of the engine from its seeded initial centroids.
pub open spec fn engine_run(t: Seq<Seq<int>>, seeds: Seq<int>, iters: nat) -> RunModel {
    lloyd_run(t, init_model(t, seeds), zero_labels(t.len() as int), false, iters)
}

} // verus!
