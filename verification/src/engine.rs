//! The executable clustering engine: centroids with exact rational means,
//! nearest-centroid assignment, mean recomputation, and the iterative loop
//! with convergence detection.

use vstd::prelude::*;

use crate::error::ConfigError;
use crate::facts::{
    bounded_row, dist_num_cap, lemma_cluster_sum_upto_bound,
    lemma_dist_num_bound, lemma_index_model_eq, lemma_mul_range, lemma_nearest_is_nearest,
    lemma_sq_le, positive_counts, term_cap,
};
use crate::model::{
    assign_model, bounded, cluster_count, cluster_count_upto, cluster_sum, cluster_sum_upto,
    dist_lt, dist_num, dist_num_upto, engine_run, index_model, init_model, is_nearest, lloyd_run,
    nearest, nearest_upto, rectangular, row_model, sq, sq_dist, sq_dist_upto, table_model,
    update_model, valid_config, valid_seeds, wf_centroid, wf_centroids, zero_labels, CentroidModel,
    RunModel, MAX_ABS_COORD, MAX_DIM, MAX_POINTS,
};

verus! {

/// A centroid: the exact dimension-wise mean of the `count` points that
/// produced it, stored as the integer numerators `sum` over the common
/// denominator `count`.
pub struct Centroid {
    /// Dimension-wise sums of the member points' coordinates.
    pub sum: Vec<i64>,
    /// Number of member points; always at least one.
    pub count: usize,
}

impl View for Centroid {
    type V = CentroidModel;

    open spec fn view(&self) -> CentroidModel {
        CentroidModel { sum: row_model(self.sum@), count: self.count as int }
    }
}

/// The mathematical value of a centroid vector.
pub open spec fn centroids_model(cs: Seq<Centroid>) -> Seq<CentroidModel> {
    Seq::new(cs.len(), |j: int| cs[j]@)
}

/// Every centroid in the vector is well formed for dimensionality `d`.
pub open spec fn wf_centroid_vec(cs: Seq<Centroid>, d: int) -> bool {
    wf_centroids(centroids_model(cs), d)
}

/// `count²` times the squared Euclidean distance from point `p` to the
/// mean stored in `c`.  Scaling by the squared denominator keeps the value
/// an integer, so equal inputs give exactly equal results.
pub fn scaled_sq_distance(p: &Vec<i64>, c: &Centroid) -> (r: i128)
    requires
        p@.len() == c.sum@.len(),
        bounded_row(row_model(p@)),
        wf_centroid(c@, p@.len() as int),
    ensures
        r == dist_num(row_model(p@), c@),
        0 <= r <= dist_num_cap(),
{
    let ghost pm = row_model(p@);
    let d = p.len();
    let cnt: i128 = c.count as i128;
    let mut acc: i128 = 0;
    let mut t: usize = 0;
    proof {
        lemma_dist_num_bound(pm, c@);
    }
    #[verifier::loop_isolation(false)]
    while t < d
        invariant
            t <= d,
            acc == dist_num_upto(pm, c@, t as int),
            0 <= acc <= (t as int) * term_cap(),
        decreases d - t,
    {
        proof {
            assert(pm[t as int] == p@[t as int] as int);
            lemma_mul_range(pm[t as int], MAX_ABS_COORD as int, c@.count);
        }
        let diff: i128 = (p[t] as i128) * cnt - (c.sum[t] as i128);
        proof {
            assert(c@.sum[t as int] == c.sum@[t as int] as int);
            assert(-(c@.count * (MAX_ABS_COORD as int)) <= c@.sum[t as int] <= c@.count * (
            MAX_ABS_COORD as int));
            assert(-(2 * (MAX_POINTS as int) * (MAX_ABS_COORD as int)) <= diff <= 2 * (
            MAX_POINTS as int) * (MAX_ABS_COORD as int));
            lemma_sq_le(diff as int, 2 * (MAX_POINTS as int) * (MAX_ABS_COORD as int));
            assert(sq(diff as int) <= term_cap()) by (nonlinear_arith)
                requires
                    sq(diff as int) <= (2 * (MAX_POINTS as int) * (MAX_ABS_COORD as int)) * (2 * (
                    MAX_POINTS as int) * (MAX_ABS_COORD as int)),
            ;
            assert(((t + 1) as int) * term_cap() == (t as int) * term_cap() + term_cap())
                by (nonlinear_arith);
            assert((t as int) * term_cap() <= (MAX_DIM as int) * term_cap()) by (nonlinear_arith)
                requires
                    t < MAX_DIM,
                    term_cap() >= 0,
            ;
        }
        acc = acc + diff * diff;
        t = t + 1;
    }
    acc
}

/// Squared Euclidean distance between two points.  The two coordinate
/// sequences must have the same length: a mismatch is invalid input, ruled
/// out by the precondition (the engine's dimensionality invariant
/// guarantees it everywhere this is used).
pub fn squared_distance(a: &Vec<i64>, b: &Vec<i64>) -> (r: i128)
    requires
        a@.len() == b@.len(),
        bounded_row(row_model(a@)),
        bounded_row(row_model(b@)),
    ensures
        r == sq_dist(row_model(a@), row_model(b@)),
        r >= 0,
{
    let ghost am = row_model(a@);
    let ghost bm = row_model(b@);
    let d = a.len();
    let mut acc: i128 = 0;
    let mut t: usize = 0;
    #[verifier::loop_isolation(false)]
    while t < d
        invariant
            t <= d,
            acc == sq_dist_upto(am, bm, t as int),
            0 <= acc <= (t as int) * 4 * (MAX_ABS_COORD as int) * (MAX_ABS_COORD as int),
        decreases d - t,
    {
        let diff: i128 = (a[t] as i128) - (b[t] as i128);
        proof {
            assert(am[t as int] == a@[t as int] as int);
            assert(bm[t as int] == b@[t as int] as int);
            lemma_sq_le(diff as int, 2 * (MAX_ABS_COORD as int));
            assert((t as int + 1) * 4 * (MAX_ABS_COORD as int) * (MAX_ABS_COORD as int) == (
            t as int) * 4 * (MAX_ABS_COORD as int) * (MAX_ABS_COORD as int) + 4 * (
            MAX_ABS_COORD as int) * (MAX_ABS_COORD as int)) by (nonlinear_arith);
            assert(sq(diff as int) <= 4 * (MAX_ABS_COORD as int) * (MAX_ABS_COORD as int))
                by (nonlinear_arith)
                requires
                    sq(diff as int) <= (2 * (MAX_ABS_COORD as int)) * (2 * (MAX_ABS_COORD as int)),
            ;
            assert((t as int) <= MAX_DIM as int);
            assert((t as int) * 4 * (MAX_ABS_COORD as int) * (MAX_ABS_COORD as int) <= (
            MAX_DIM as int) * 4 * (MAX_ABS_COORD as int) * (MAX_ABS_COORD as int))
                by (nonlinear_arith)
                requires
                    0 <= t as int <= MAX_DIM as int,
            ;
        }
        acc = acc + diff * diff;
        t = t + 1;
    }
    acc
}

/// Whether `p` lies strictly closer to centroid `a` than to centroid `b`,
/// decided exactly by cross-multiplying the scaled squared distances with
/// the squared denominators.
pub fn distance_lt(p: &Vec<i64>, a: &Centroid, b: &Centroid) -> (r: bool)
    requires
        p@.len() == a.sum@.len(),
        p@.len() == b.sum@.len(),
        bounded_row(row_model(p@)),
        wf_centroid(a@, p@.len() as int),
        wf_centroid(b@, p@.len() as int),
    ensures
        r == dist_lt(row_model(p@), a@, b@),
{
    let ghost pm = row_model(p@);
    let da: i128 = scaled_sq_distance(p, a);
    let db: i128 = scaled_sq_distance(p, b);
    let ca: i128 = a.count as i128;
    let cb: i128 = b.count as i128;
    proof {
        lemma_sq_le(a@.count, MAX_POINTS as int);
        lemma_sq_le(b@.count, MAX_POINTS as int);
        lemma_mul_range(da as int, dist_num_cap(), sq(b@.count));
        lemma_mul_range(db as int, dist_num_cap(), sq(a@.count));
        assert(sq(a@.count) * dist_num_cap() <= (MAX_POINTS as int) * (MAX_POINTS as int)
            * dist_num_cap()) by (nonlinear_arith)
            requires
                sq(a@.count) <= (MAX_POINTS as int) * (MAX_POINTS as int),
                dist_num_cap() >= 0,
        ;
        assert(sq(b@.count) * dist_num_cap() <= (MAX_POINTS as int) * (MAX_POINTS as int)
            * dist_num_cap()) by (nonlinear_arith)
            requires
                sq(b@.count) <= (MAX_POINTS as int) * (MAX_POINTS as int),
                dist_num_cap() >= 0,
        ;
    }
    da * (cb * cb) < db * (ca * ca)
}

/// Index of the centroid nearest to `p`, the lowest index winning ties:
/// the running best is displaced only by a strictly closer centroid.
pub fn nearest_centroid(p: &Vec<i64>, cs: &Vec<Centroid>) -> (r: usize)
    requires
        1 <= cs@.len(),
        bounded_row(row_model(p@)),
        wf_centroid_vec(cs@, p@.len() as int),
    ensures
        r < cs@.len(),
        r as int == nearest(row_model(p@), centroids_model(cs@)),
        is_nearest(row_model(p@), centroids_model(cs@), r as int),
{
    let ghost pm = row_model(p@);
    let ghost csm = centroids_model(cs@);
    let mut best: usize = 0;
    let mut j: usize = 1;
    #[verifier::loop_isolation(false)]
    while j < cs.len()
        invariant
            1 <= j <= cs@.len(),
            best < j,
            best as int == nearest_upto(pm, csm, j as int),
        decreases cs@.len() - j,
    {
        proof {
            assert(csm[j as int] == cs@[j as int]@);
            assert(csm[best as int] == cs@[best as int]@);
            assert(wf_centroid(csm[j as int], p@.len() as int));
            assert(wf_centroid(csm[best as int], p@.len() as int));
            assert(cs@[j as int].sum@.len() == p@.len());
            assert(cs@[best as int].sum@.len() == p@.len());
        }
        if distance_lt(p, &cs[j], &cs[best]) {
            best = j;
        }
        j = j + 1;
    }
    proof {
        assert(positive_counts(csm)) by {
            assert forall|m: int| 0 <= m < csm.len() implies #[trigger] csm[m].count >= 1 by {
                assert(wf_centroid(csm[m], p@.len() as int));
            }
        }
        lemma_nearest_is_nearest(pm, csm);
    }
    best
}

/// The Assignment step: label every point with its nearest centroid.
/// A pure function of the table and the centroid set.
pub fn assign_labels(table: &Vec<Vec<i64>>, cs: &Vec<Centroid>) -> (labels: Vec<usize>)
    requires
        1 <= cs@.len(),
        bounded(table_model(table@)),
        rectangular(table_model(table@)),
        wf_centroid_vec(cs@, table_model(table@)[0].len() as int),
        table@.len() >= 1,
    ensures
        labels@.len() == table@.len(),
        index_model(labels@) == assign_model(
            table_model(table@),
            centroids_model(cs@),
        ),
        forall|i: int| 0 <= i < labels@.len() ==> #[trigger] labels@[i] < cs@.len(),
{
    let ghost tm = table_model(table@);
    let ghost csm = centroids_model(cs@);
    let n = table.len();
    let mut labels: Vec<usize> = Vec::new();
    let mut i: usize = 0;
    #[verifier::loop_isolation(false)]
    while i < n
        invariant
            i <= n,
            labels@.len() == i,
            forall|m: int|
                0 <= m < i ==> #[trigger] labels@[m] as int == nearest(tm[m], csm),
            forall|m: int| 0 <= m < i ==> #[trigger] labels@[m] < cs@.len(),
        decreases n - i,
    {
        proof {
            assert(tm[i as int] == row_model(table@[i as int]@));
            assert(tm[i as int].len() == tm[0].len());
        }
        let lab = nearest_centroid(&table[i], cs);
        labels.push(lab);
        i = i + 1;
    }
    proof {
        assert(index_model(labels@) =~= assign_model(tm, csm));
    }
    labels
}

/// A row of `d` zero coordinates.
fn zero_row(d: usize) -> (r: Vec<i64>)
    ensures
        r@.len() == d,
        forall|t: int| 0 <= t < d ==> #[trigger] r@[t] == 0i64,
{
    let mut r: Vec<i64> = Vec::new();
    let mut t: usize = 0;
    #[verifier::loop_isolation(false)]
    while t < d
        invariant
            t <= d,
            r@.len() == t,
            forall|m: int| 0 <= m < t ==> #[trigger] r@[m] == 0i64,
        decreases d - t,
    {
        r.push(0);
        t = t + 1;
    }
    r
}

/// An element-wise copy of a row.
fn copy_row(p: &Vec<i64>) -> (r: Vec<i64>)
    ensures
        r@ == p@,
{
    let mut r: Vec<i64> = Vec::new();
    let mut t: usize = 0;
    #[verifier::loop_isolation(false)]
    while t < p.len()
        invariant
            t <= p@.len(),
            r@ =~= p@.subrange(0, t as int),
        decreases p@.len() - t,
    {
        r.push(p[t]);
        t = t + 1;
    }
    proof {
        assert(r@ =~= p@);
    }
    r
}

/// Whether two labelings agree element-wise.
pub fn labels_equal(a: &Vec<usize>, b: &Vec<usize>) -> (r: bool)
    ensures
        r == (a@ == b@),
{
    if a.len() != b.len() {
        return false;
    }
    let mut i: usize = 0;
    #[verifier::loop_isolation(false)]
    while i < a.len()
        invariant
            i <= a@.len(),
            a@.len() == b@.len(),
            forall|m: int| 0 <= m < i ==> #[trigger] a@[m] == b@[m],
        decreases a@.len() - i,
    {
        if a[i] != b[i] {
            return false;
        }
        i = i + 1;
    }
    proof {
        assert(a@ =~= b@);
    }
    true
}

/// The Initialization step: centroid `j` sits on the seed point
/// `table[seeds[j]]`, the mean of the single point it was sampled from.
pub fn initialize_centroids(table: &Vec<Vec<i64>>, seeds: &Vec<usize>) -> (cs: Vec<Centroid>)
    requires
        table@.len() >= 1,
        bounded(table_model(table@)),
        rectangular(table_model(table@)),
        forall|j: int| 0 <= j < seeds@.len() ==> #[trigger] seeds@[j] < table@.len(),
    ensures
        cs@.len() == seeds@.len(),
        centroids_model(cs@) == init_model(
            table_model(table@),
            index_model(seeds@),
        ),
        wf_centroid_vec(cs@, table_model(table@)[0].len() as int),
{
    let ghost tm = table_model(table@);
    let ghost sm = index_model(seeds@);
    let mut cs: Vec<Centroid> = Vec::new();
    let mut j: usize = 0;
    #[verifier::loop_isolation(false)]
    while j < seeds.len()
        invariant
            j <= seeds@.len(),
            cs@.len() == j,
            forall|m: int|
                0 <= m < j ==> #[trigger] cs@[m]@ == init_model(tm, sm)[m],
            forall|m: int| 0 <= m < j ==> wf_centroid(#[trigger] cs@[m]@, tm[0].len() as int),
        decreases seeds@.len() - j,
    {
        let idx = seeds[j];
        let sum = copy_row(&table[idx]);
        proof {
            assert(tm[idx as int] == row_model(table@[idx as int]@));
            assert(tm[idx as int].len() == tm[0].len());
            assert forall|t: int| 0 <= t < tm[idx as int].len() implies -(MAX_ABS_COORD as int)
                <= #[trigger] tm[idx as int][t] <= MAX_ABS_COORD as int by {
                assert(-(MAX_ABS_COORD as int) <= tm[idx as int][t] <= MAX_ABS_COORD as int);
            }
        }
        let c = Centroid { sum, count: 1 };
        proof {
            assert(c@ =~= init_model(tm, sm)[j as int]);
        }
        cs.push(c);
        j = j + 1;
    }
    proof {
        assert(centroids_model(cs@) =~= init_model(tm, sm));
        assert(wf_centroids(centroids_model(cs@), tm[0].len() as int));
    }
    cs
}

/// The Update step: every cluster that attracted at least one point gets
/// the exact mean of its members as its new centroid; a cluster that
/// attracted none keeps its previous centroid unchanged, so no undefined
/// mean ever arises.  A pure function of the table, the labeling and the
/// previous centroids.
pub fn update_centroids(table: &Vec<Vec<i64>>, labels: &Vec<usize>, old_cs: &Vec<Centroid>) -> (r:
    Vec<Centroid>)
    requires
        table@.len() >= 1,
        bounded(table_model(table@)),
        rectangular(table_model(table@)),
        labels@.len() == table@.len(),
        wf_centroid_vec(old_cs@, table_model(table@)[0].len() as int),
    ensures
        r@.len() == old_cs@.len(),
        centroids_model(r@) == update_model(
            table_model(table@),
            index_model(labels@),
            centroids_model(old_cs@),
        ),
        wf_centroid_vec(r@, table_model(table@)[0].len() as int),
{
    let ghost tm = table_model(table@);
    let ghost lm = index_model(labels@);
    let ghost om = centroids_model(old_cs@);
    let n = table.len();
    let d = table[0].len();
    let k = old_cs.len();
    proof {
        assert(tm[0].len() == d);
    }
    let mut r: Vec<Centroid> = Vec::new();
    let mut j: usize = 0;
    #[verifier::loop_isolation(false)]
    while j < k
        invariant
            j <= k,
            r@.len() == j,
            forall|m: int| 0 <= m < j ==> #[trigger] r@[m]@ == update_model(tm, lm, om)[m],
            forall|m: int| 0 <= m < j ==> wf_centroid(#[trigger] r@[m]@, d as int),
        decreases k - j,
    {
        let mut count: usize = 0;
        let mut sum: Vec<i64> = zero_row(d);
        let mut i: usize = 0;
        #[verifier::loop_isolation(false)]
        while i < n
            invariant
                i <= n,
                count as int == cluster_count_upto(lm, j as int, i as int),
                0 <= count <= i,
                sum@.len() == d,
                forall|t: int|
                    0 <= t < d ==> #[trigger] sum@[t] as int == cluster_sum_upto(
                        tm,
                        lm,
                        j as int,
                        t,
                        i as int,
                    ),
                forall|t: int|
                    0 <= t < d ==> -(count * (MAX_ABS_COORD as int)) <= #[trigger] sum@[t] as int
                        <= count * (MAX_ABS_COORD as int),
            decreases n - i,
        {
            if labels[i] == j {
                proof {
                    assert(tm[i as int] == row_model(table@[i as int]@));
                    assert(tm[i as int].len() == tm[0].len());
                }
                let mut t: usize = 0;
                #[verifier::loop_isolation(false)]
                while t < d
                    invariant
                        t <= d,
                        sum@.len() == d,
                        forall|tt: int|
                            0 <= tt < t ==> #[trigger] sum@[tt] as int == cluster_sum_upto(
                                tm,
                                lm,
                                j as int,
                                tt,
                                i as int,
                            ) + tm[i as int][tt],
                        forall|tt: int|
                            t <= tt < d ==> #[trigger] sum@[tt] as int == cluster_sum_upto(
                                tm,
                                lm,
                                j as int,
                                tt,
                                i as int,
                            ),
                        forall|tt: int|
                            0 <= tt < d ==> -((count + 1) * (MAX_ABS_COORD as int))
                                <= #[trigger] sum@[tt] as int <= (count + 1) * (
                            MAX_ABS_COORD as int),
                    decreases d - t,
                {
                    proof {
                        assert(-(MAX_ABS_COORD as int) <= tm[i as int][t as int]
                            <= MAX_ABS_COORD as int);
                        assert(sum@[t as int] as int == cluster_sum_upto(
                            tm,
                            lm,
                            j as int,
                            t as int,
                            i as int,
                        ));
                        assert(-(count * (MAX_ABS_COORD as int)) <= sum@[t as int] as int <= count
                            * (MAX_ABS_COORD as int)) by {
                            lemma_cluster_sum_upto_bound(tm, lm, j as int, t as int, i as int);
                        }
                    }
                    let v: i64 = sum[t] + table[i][t];
                    sum.set(t, v);
                    t = t + 1;
                }
                count = count + 1;
            }
            i = i + 1;
        }
        proof {
            assert(count as int == cluster_count(lm, j as int));
            assert forall|t: int| 0 <= t < d implies #[trigger] sum@[t] as int == cluster_sum(
                tm,
                lm,
                j as int,
                t,
            ) by {
                assert(sum@[t] as int == cluster_sum_upto(tm, lm, j as int, t, n as int));
            }
        }
        if count == 0 {
            let c = Centroid { sum: copy_row(&old_cs[j].sum), count: old_cs[j].count };
            proof {
                assert(om[j as int] == old_cs@[j as int]@);
                assert(c@ =~= om[j as int]);
                assert(c@ == update_model(tm, lm, om)[j as int]);
                assert(wf_centroid(c@, d as int));
            }
            r.push(c);
        } else {
            let c = Centroid { sum, count };
            proof {
                assert(c@.sum =~= update_model(tm, lm, om)[j as int].sum);
                assert(c@ =~= update_model(tm, lm, om)[j as int]);
                assert(wf_centroid(c@, d as int));
            }
            r.push(c);
        }
        j = j + 1;
    }
    proof {
        assert(centroids_model(r@) =~= update_model(tm, lm, om));
    }
    r
}

/// What one engine run hands back: the final labeling, the centroids that
/// produced it, and whether a pass reproduced the previous labeling within
/// the budget (`converged`) or the budget ran out first.
pub struct ClusterOutcome {
    pub labels: Vec<usize>,
    pub centroids: Vec<Centroid>,
    pub converged: bool,
}

/// The mathematical value of an outcome.
pub open spec fn outcome_model(o: ClusterOutcome) -> RunModel {
    RunModel {
        centroids: centroids_model(o.centroids@),
        labels: index_model(o.labels@),
        converged: o.converged,
    }
}

/// Run the engine from the given seed points: exactly the iterative loop
/// `engine_run` describes, with `seeds.len()` clusters.  Deterministic:
/// the outcome is a pure function of the table, the seeds and the budget.
pub fn cluster_seeded(table: &Vec<Vec<i64>>, max_iterations: usize, seeds: &Vec<usize>) -> (r:
    ClusterOutcome)
    requires
        valid_config(table_model(table@), seeds@.len() as int),
        bounded(table_model(table@)),
        valid_seeds(index_model(seeds@), table@.len() as int),
    ensures
        outcome_model(r) == engine_run(
            table_model(table@),
            index_model(seeds@),
            max_iterations as nat,
        ),
        r.labels@.len() == table@.len(),
        forall|i: int| 0 <= i < r.labels@.len() ==> #[trigger] r.labels@[i] < seeds@.len(),
        r.centroids@.len() == seeds@.len(),
        wf_centroid_vec(r.centroids@, table_model(table@)[0].len() as int),
{
    let ghost tm = table_model(table@);
    let ghost sm = index_model(seeds@);
    let ghost d = tm[0].len() as int;
    let n = table.len();
    let k = seeds.len();
    proof {
        assert forall|j: int| 0 <= j < seeds@.len() implies #[trigger] seeds@[j]
            < table@.len() by {
            assert(sm[j] == seeds@[j] as int);
        }
    }
    let mut cs: Vec<Centroid> = initialize_centroids(table, seeds);
    let mut labels: Vec<usize> = zero_labels_vec(n);
    let mut have_prev: bool = false;
    let mut converged: bool = false;
    let mut it: usize = 0;
    proof {
        assert(index_model(labels@) =~= zero_labels(n as int));
    }
    #[verifier::loop_isolation(false)]
    while it < max_iterations && !converged
        invariant
            it <= max_iterations,
            cs@.len() == k,
            wf_centroid_vec(cs@, d),
            labels@.len() == n,
            forall|i: int| 0 <= i < labels@.len() ==> #[trigger] labels@[i] < k,
            !converged ==> lloyd_run(
                tm,
                centroids_model(cs@),
                index_model(labels@),
                have_prev,
                (max_iterations - it) as nat,
            ) == engine_run(tm, sm, max_iterations as nat),
            converged ==> (RunModel {
                centroids: centroids_model(cs@),
                labels: index_model(labels@),
                converged: true,
            }) == engine_run(tm, sm, max_iterations as nat),
        decreases max_iterations - it,
    {
        let fresh = assign_labels(table, &cs);
        if have_prev && labels_equal(&fresh, &labels) {
            proof {
                assert(index_model(fresh@) == index_model(labels@));
                assert(assign_model(tm, centroids_model(cs@)) == index_model(labels@));
            }
            converged = true;
        } else {
            proof {
                if have_prev {
                    lemma_index_model_eq(fresh@, labels@);
                    assert(assign_model(tm, centroids_model(cs@)) != index_model(labels@));
                }
            }
            let new_cs = update_centroids(table, &fresh, &cs);
            labels = fresh;
            cs = new_cs;
            have_prev = true;
        }
        it = it + 1;
    }
    ClusterOutcome { labels, centroids: cs, converged }
}

/// Check a clustering request before any computation begins: the table
/// must be non-empty and rectangular, and `k` must lie between one and the
/// number of points.  Each rejection names the first failing condition, in
/// the order the conditions are listed here.
pub fn validate_config(table: &Vec<Vec<i64>>, k: usize) -> (r: Result<(), ConfigError>)
    ensures
        r is Ok <==> valid_config(table_model(table@), k as int),
        table@.len() == 0 ==> r == Result::<(), ConfigError>::Err(ConfigError::EmptyTable),
        table@.len() > 0 && k == 0 ==> r == Result::<(), ConfigError>::Err(
            ConfigError::ZeroClusters,
        ),
        table@.len() > 0 && k > table@.len() ==> r == Result::<(), ConfigError>::Err(
            ConfigError::TooManyClusters,
        ),
        table@.len() > 0 && 1 <= k <= table@.len() && !rectangular(table_model(table@)) ==> r
            == Result::<(), ConfigError>::Err(ConfigError::DimensionMismatch),
{
    let ghost tm = table_model(table@);
    let n = table.len();
    if n == 0 {
        return Err(ConfigError::EmptyTable);
    }
    if k == 0 {
        return Err(ConfigError::ZeroClusters);
    }
    if k > n {
        return Err(ConfigError::TooManyClusters);
    }
    let d = table[0].len();
    let mut i: usize = 1;
    #[verifier::loop_isolation(false)]
    while i < n
        invariant
            1 <= i <= n,
            d == tm[0].len(),
            forall|m: int| 0 <= m < i ==> #[trigger] tm[m].len() == tm[0].len(),
        decreases n - i,
    {
        proof {
            assert(tm[i as int] == row_model(table@[i as int]@));
        }
        if table[i].len() != d {
            proof {
                assert(tm[i as int].len() != tm[0].len());
            }
            return Err(ConfigError::DimensionMismatch);
        }
        i = i + 1;
    }
    proof {
        assert(rectangular(tm));
    }
    Ok(())
}

/// Cluster the table into `k` groups: validate the request, seed `k`
/// centroids on `k` distinct points drawn at random, and run the
/// iterative loop for at most `max_iterations` passes.  Every labeling
/// that comes back is an `engine_run` outcome for some valid seed set;
/// only the draw itself is left open.
pub fn cluster(table: &Vec<Vec<i64>>, k: usize, max_iterations: usize) -> (r: Result<
    Vec<usize>,
    ConfigError,
>)
    requires
        bounded(table_model(table@)),
    ensures
        r is Ok <==> valid_config(table_model(table@), k as int),
        table@.len() == 0 ==> r == Result::<Vec<usize>, ConfigError>::Err(ConfigError::EmptyTable),
        table@.len() > 0 && k == 0 ==> r == Result::<Vec<usize>, ConfigError>::Err(
            ConfigError::ZeroClusters,
        ),
        table@.len() > 0 && k > table@.len() ==> r == Result::<Vec<usize>, ConfigError>::Err(
            ConfigError::TooManyClusters,
        ),
        table@.len() > 0 && 1 <= k <= table@.len() && !rectangular(table_model(table@)) ==> r
            == Result::<Vec<usize>, ConfigError>::Err(ConfigError::DimensionMismatch),
        r matches Ok(labels) ==> {
            &&& labels@.len() == table@.len()
            &&& forall|i: int| 0 <= i < labels@.len() ==> #[trigger] labels@[i] < k
            &&& exists|s: Seq<int>|
                {
                    &&& valid_seeds(s, table@.len() as int)
                    &&& s.len() == k
                    &&& index_model(labels@) == engine_run(
                        table_model(table@),
                        s,
                        max_iterations as nat,
                    ).labels
                }
        },
{
    let ghost tm = table_model(table@);
    match validate_config(table, k) {
        Err(e) => Err(e),
        Ok(()) => {
            let seeds = crate::sampling::sample_distinct_indices(table.len(), k);
            proof {
                assert forall|i: int| 0 <= i < index_model(seeds@).len() implies 0
                    <= #[trigger] index_model(seeds@)[i] < table@.len() by {
                    assert(index_model(seeds@)[i] == seeds@[i] as int);
                }
                assert forall|i: int, j: int|
                    0 <= i < j < index_model(seeds@).len() implies index_model(seeds@)[i]
                    != index_model(seeds@)[j] by {
                    assert(seeds@[i] != seeds@[j]);
                }
            }
            let outcome = cluster_seeded(table, max_iterations, &seeds);
            proof {
                let s = index_model(seeds@);
                assert(valid_seeds(s, table@.len() as int));
                assert(index_model(outcome.labels@) == engine_run(
                    tm,
                    s,
                    max_iterations as nat,
                ).labels);
            }
            Ok(outcome.labels)
        },
    }
}

/// A labeling buffer of `n` zeroes.
fn zero_labels_vec(n: usize) -> (r: Vec<usize>)
    ensures
        r@.len() == n,
        forall|i: int| 0 <= i < n ==> #[trigger] r@[i] == 0usize,
{
    let mut r: Vec<usize> = Vec::new();
    let mut i: usize = 0;
    #[verifier::loop_isolation(false)]
    while i < n
        invariant
            i <= n,
            r@.len() == i,
            forall|m: int| 0 <= m < i ==> #[trigger] r@[m] == 0usize,
        decreases n - i,
    {
        r.push(0);
        i = i + 1;
    }
    r
}

} // verus!
