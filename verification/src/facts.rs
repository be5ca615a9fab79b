//! Facts about the model that the engine's proofs lean on: exact rational
//! comparison is transitive, scaled squared distances are non-negative and
//! bounded, and the first-wins minimum really is the argmin.

use vstd::prelude::*;

use crate::model::{
    bounded, cluster_count_upto, cluster_sum_upto, dist_le, dist_lt, dist_num, dist_num_upto,
    index_model, is_nearest, nearest, nearest_upto, rectangular, sq, wf_centroid, CentroidModel,
    MAX_ABS_COORD, MAX_DIM, MAX_POINTS,
};

verus! {

/// Everything the comparison arithmetic needs of a centroid set: each
/// denominator is at least one.
pub open spec fn positive_counts(cs: Seq<CentroidModel>) -> bool {
    forall|j: int| 0 <= j < cs.len() ==> #[trigger] cs[j].count >= 1
}

/// Coordinates of a single row within the engine's fixed-point range.
pub open spec fn bounded_row(p: Seq<int>) -> bool {
    &&& p.len() <= MAX_DIM
    &&& forall|d: int|
        0 <= d < p.len() ==> -(MAX_ABS_COORD as int) <= #[trigger] p[d] <= MAX_ABS_COORD as int
}

/// Largest value one squared term of `dist_num` can take under the
/// engine's size limits.
pub open spec fn term_cap() -> int {
    4 * (MAX_POINTS as int) * (MAX_POINTS as int) * (MAX_ABS_COORD as int) * (MAX_ABS_COORD as int)
}

/// Largest value `dist_num` can take under the engine's size limits.
pub open spec fn dist_num_cap() -> int {
    (MAX_DIM as int) * term_cap()
}

pub proof fn lemma_sq_nonneg(x: int)
    by (nonlinear_arith)
    ensures
        sq(x) >= 0,
{
}

pub proof fn lemma_sq_pos(x: int)
    by (nonlinear_arith)
    requires
        x >= 1,
    ensures
        sq(x) >= 1,
{
}

/// Scaling a bounded value by a non-negative factor scales the bound.
pub proof fn lemma_mul_range(x: int, b: int, m: int)
    by (nonlinear_arith)
    requires
        -b <= x <= b,
        0 <= m,
    ensures
        -(m * b) <= x * m <= m * b,
{
}

/// Squaring a bounded value bounds the square.
pub proof fn lemma_sq_le(x: int, b: int)
    by (nonlinear_arith)
    requires
        -b <= x <= b,
    ensures
        0 <= sq(x) <= b * b,
{
}

/// `n1/d1 <= n2/d2 <= n3/d3` chains, for positive denominators.
pub proof fn lemma_rat_le_trans(n1: int, d1: int, n2: int, d2: int, n3: int, d3: int)
    by (nonlinear_arith)
    requires
        d1 > 0,
        d2 > 0,
        d3 > 0,
        n1 * d2 <= n2 * d1,
        n2 * d3 <= n3 * d2,
    ensures
        n1 * d3 <= n3 * d1,
{
}

/// A strict step on the left keeps the chain strict.
pub proof fn lemma_rat_lt_le_trans(n1: int, d1: int, n2: int, d2: int, n3: int, d3: int)
    by (nonlinear_arith)
    requires
        d1 > 0,
        d2 > 0,
        d3 > 0,
        n1 * d2 < n2 * d1,
        n2 * d3 <= n3 * d2,
    ensures
        n1 * d3 < n3 * d1,
{
}

/// Scaled squared distances never go negative.
pub proof fn lemma_dist_num_upto_nonneg(p: Seq<int>, c: CentroidModel, n: int)
    ensures
        dist_num_upto(p, c, n) >= 0,
    decreases n,
{
    if n > 0 {
        lemma_dist_num_upto_nonneg(p, c, n - 1);
        lemma_sq_nonneg(p[n - 1] * c.count - c.sum[n - 1]);
    }
}

/// Under the size limits, each squared term stays within `4·MP²·MA²`, so
/// the scaled squared distance stays under `dist_num_cap`.
pub proof fn lemma_dist_num_upto_bound(p: Seq<int>, c: CentroidModel, n: int)
    requires
        0 <= n <= p.len(),
        bounded_row(p),
        wf_centroid(c, p.len() as int),
    ensures
        0 <= dist_num_upto(p, c, n) <= n * term_cap(),
    decreases n,
{
    if n > 0 {
        lemma_dist_num_upto_bound(p, c, n - 1);
        let term = p[n - 1] * c.count - c.sum[n - 1];
        lemma_mul_range(p[n - 1], MAX_ABS_COORD as int, c.count);
        assert(-(2 * c.count * (MAX_ABS_COORD as int)) <= term <= 2 * c.count * (
        MAX_ABS_COORD as int));
        assert(-(2 * (MAX_POINTS as int) * (MAX_ABS_COORD as int)) <= term <= 2 * (
        MAX_POINTS as int) * (MAX_ABS_COORD as int));
        lemma_sq_le(term, 2 * (MAX_POINTS as int) * (MAX_ABS_COORD as int));
        assert(sq(term) <= term_cap()) by (nonlinear_arith)
            requires
                sq(term) <= (2 * (MAX_POINTS as int) * (MAX_ABS_COORD as int)) * (2 * (
                MAX_POINTS as int) * (MAX_ABS_COORD as int)),
        ;
        assert(dist_num_upto(p, c, n) == dist_num_upto(p, c, n - 1) + sq(term));
        assert(n * term_cap() == (n - 1) * term_cap() + term_cap()) by (nonlinear_arith);
    }
}

pub proof fn lemma_dist_num_bound(p: Seq<int>, c: CentroidModel)
    requires
        bounded_row(p),
        wf_centroid(c, p.len() as int),
    ensures
        0 <= dist_num(p, c) <= dist_num_cap(),
{
    lemma_dist_num_upto_bound(p, c, p.len() as int);
    assert(term_cap() >= 0) by (nonlinear_arith);
    assert((p.len() as int) * term_cap() <= (MAX_DIM as int) * term_cap()) by (nonlinear_arith)
        requires
            p.len() <= MAX_DIM,
            term_cap() >= 0,
    ;
}

pub proof fn lemma_sq_zero_iff(x: int)
    by (nonlinear_arith)
    ensures
        (sq(x) == 0) <==> (x == 0),
{
}

/// For a single-member centroid, the scaled squared distance vanishes on
/// the first `n` dimensions exactly when the point agrees with the
/// centroid there.
pub proof fn lemma_dist_num_upto_zero_iff(p: Seq<int>, c: CentroidModel, n: int)
    requires
        c.count == 1,
    ensures
        (dist_num_upto(p, c, n) == 0) <==> (forall|d: int| 0 <= d < n ==> p[d] == c.sum[d]),
    decreases n,
{
    if n > 0 {
        lemma_dist_num_upto_zero_iff(p, c, n - 1);
        lemma_dist_num_upto_nonneg(p, c, n - 1);
        let x = p[n - 1] * c.count - c.sum[n - 1];
        lemma_sq_nonneg(x);
        lemma_sq_zero_iff(x);
        assert(p[n - 1] * c.count == p[n - 1]);
    }
}

/// A point sits at distance zero from the single-member centroid on
/// itself.
pub proof fn lemma_unit_dist_zero(p: Seq<int>, c: CentroidModel)
    requires
        c.count == 1,
        p == c.sum,
    ensures
        dist_num(p, c) == 0,
{
    lemma_dist_num_upto_zero_iff(p, c, p.len() as int);
}

/// A point sits at strictly positive distance from a single-member
/// centroid on any other point of the same dimensionality.
pub proof fn lemma_unit_dist_pos(p: Seq<int>, c: CentroidModel)
    requires
        c.count == 1,
        p.len() == c.sum.len(),
        p != c.sum,
    ensures
        dist_num(p, c) > 0,
{
    lemma_dist_num_upto_zero_iff(p, c, p.len() as int);
    lemma_dist_num_upto_nonneg(p, c, p.len() as int);
    if dist_num(p, c) == 0 {
        assert(p =~= c.sum);
    }
}

/// A strictly closer centroid stays strictly closer than anything the
/// farther one is no closer than: distance comparison chains.
pub proof fn lemma_dist_lt_le_trans(
    p: Seq<int>,
    a: CentroidModel,
    b: CentroidModel,
    c: CentroidModel,
)
    requires
        a.count >= 1,
        b.count >= 1,
        c.count >= 1,
        dist_lt(p, a, b),
        dist_le(p, b, c),
    ensures
        dist_lt(p, a, c),
{
    lemma_sq_pos(a.count);
    lemma_sq_pos(b.count);
    lemma_sq_pos(c.count);
    lemma_rat_lt_le_trans(
        dist_num(p, a),
        sq(a.count),
        dist_num(p, b),
        sq(b.count),
        dist_num(p, c),
        sq(c.count),
    );
}

/// The first-wins running minimum lands on an index that is no farther
/// than any candidate and strictly closer than every earlier one.
pub proof fn lemma_nearest_upto_is_argmin(p: Seq<int>, cs: Seq<CentroidModel>, n: int)
    requires
        1 <= n <= cs.len(),
        positive_counts(cs),
    ensures
        0 <= nearest_upto(p, cs, n) < n,
        forall|m: int| 0 <= m < n ==> dist_le(p, cs[nearest_upto(p, cs, n)], #[trigger] cs[m]),
        forall|m: int| 0 <= m < nearest_upto(p, cs, n) ==> dist_lt(
            p,
            cs[nearest_upto(p, cs, n)],
            #[trigger] cs[m],
        ),
    decreases n,
{
    if n == 1 {
        assert(nearest_upto(p, cs, 1) == 0);
    } else {
        lemma_nearest_upto_is_argmin(p, cs, n - 1);
        let prev = nearest_upto(p, cs, n - 1);
        if dist_lt(p, cs[n - 1], cs[prev]) {
            assert(nearest_upto(p, cs, n) == n - 1);
            assert forall|m: int| 0 <= m < n - 1 implies dist_lt(p, cs[n - 1], #[trigger] cs[m]) by {
                lemma_dist_lt_le_trans(p, cs[n - 1], cs[prev], cs[m]);
            }
            assert forall|m: int| 0 <= m < n implies dist_le(p, cs[n - 1], #[trigger] cs[m]) by {
                if m < n - 1 {
                    assert(dist_lt(p, cs[n - 1], cs[m]));
                }
            }
        } else {
            assert(nearest_upto(p, cs, n) == prev);
            assert(dist_le(p, cs[prev], cs[n - 1]));
        }
    }
}

/// The running minimum over the whole set picks the nearest centroid,
/// lowest index first.
pub proof fn lemma_nearest_is_nearest(p: Seq<int>, cs: Seq<CentroidModel>)
    requires
        cs.len() >= 1,
        positive_counts(cs),
    ensures
        is_nearest(p, cs, nearest(p, cs)),
{
    lemma_nearest_upto_is_argmin(p, cs, cs.len() as int);
}

/// Only one index satisfies the first-wins nearest characterisation.
pub proof fn lemma_nearest_unique(p: Seq<int>, cs: Seq<CentroidModel>, j1: int, j2: int)
    requires
        is_nearest(p, cs, j1),
        is_nearest(p, cs, j2),
    ensures
        j1 == j2,
{
    if j1 < j2 {
        assert(dist_lt(p, cs[j2], cs[j1]));
        assert(dist_le(p, cs[j1], cs[j2]));
    }
    if j2 < j1 {
        assert(dist_lt(p, cs[j1], cs[j2]));
        assert(dist_le(p, cs[j2], cs[j1]));
    }
}

/// Cluster sizes count a subset of the first `n` points.
pub proof fn lemma_cluster_count_upto_range(labels: Seq<int>, j: int, n: int)
    requires
        0 <= n,
    ensures
        0 <= cluster_count_upto(labels, j, n) <= n,
    decreases n,
{
    if n > 0 {
        lemma_cluster_count_upto_range(labels, j, n - 1);
    }
}

/// A cluster's coordinate sum is bounded by its size times the coordinate
/// range.
pub proof fn lemma_cluster_sum_upto_bound(
    t: Seq<Seq<int>>,
    labels: Seq<int>,
    j: int,
    dim: int,
    n: int,
)
    requires
        0 <= n <= t.len(),
        bounded(t),
        rectangular(t),
        t.len() > 0 ==> 0 <= dim < t[0].len(),
    ensures
        -(cluster_count_upto(labels, j, n) * (MAX_ABS_COORD as int)) <= cluster_sum_upto(
            t,
            labels,
            j,
            dim,
            n,
        ) <= cluster_count_upto(labels, j, n) * (MAX_ABS_COORD as int),
    decreases n,
{
    if n > 0 {
        lemma_cluster_sum_upto_bound(t, labels, j, dim, n - 1);
        lemma_cluster_count_upto_range(labels, j, n - 1);
        assert(t[n - 1].len() == t[0].len());
        assert(-(MAX_ABS_COORD as int) <= t[n - 1][dim] <= MAX_ABS_COORD as int);
    }
}

/// Two index vectors agree exactly when their integer models agree.
pub proof fn lemma_index_model_eq(a: Seq<usize>, b: Seq<usize>)
    ensures
        (index_model(a) == index_model(b)) <==> (a == b),
{
    if index_model(a) == index_model(b) {
        assert(index_model(a).len() == a.len());
        assert(index_model(b).len() == b.len());
        assert(a.len() == b.len());
        assert forall|i: int| 0 <= i < a.len() implies a[i] == b[i] by {
            assert(index_model(a)[i] == index_model(b)[i]);
        }
        assert(a =~= b);
    }
    if a == b {
        assert(index_model(a) =~= index_model(b));
    }
}

} // verus!
