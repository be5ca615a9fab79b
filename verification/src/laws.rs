//! Laws of the engine, stated over the model and proved once and for all:
//! determinism of the two steps, idempotence of convergence, and the
//! self-clustering of `k == n` runs on distinct points.

use vstd::prelude::*;
use vstd::set_lib::{lemma_int_range, lemma_len_subset, set_int_range};

use crate::facts::{
    lemma_nearest_is_nearest, lemma_nearest_unique, lemma_unit_dist_pos, lemma_unit_dist_zero,
    positive_counts,
};
use crate::model::{
    assign_model, cluster_count, cluster_sum, dist_le, dist_lt, dist_num, init_model, is_nearest,
    lloyd_run, nearest, rectangular, sq, update_model, valid_seeds, CentroidModel, RunModel,
};

verus! {

/// Determinism of the Assignment step: it is a pure function of the table
/// and the centroid set, so two runs over the same inputs produce the
/// same labeling.
pub proof fn lemma_assignment_deterministic(
    t: Seq<Seq<int>>,
    cs: Seq<CentroidModel>,
    l1: Seq<int>,
    l2: Seq<int>,
)
    requires
        l1 == assign_model(t, cs),
        l2 == assign_model(t, cs),
    ensures
        l1 == l2,
{
}

/// Determinism of the Update step: it is a pure function of the table,
/// the labeling and the previous centroids, so two runs over the same
/// inputs produce the same centroids.
pub proof fn lemma_update_deterministic(
    t: Seq<Seq<int>>,
    labels: Seq<int>,
    cs: Seq<CentroidModel>,
    r1: Seq<CentroidModel>,
    r2: Seq<CentroidModel>,
)
    requires
        r1 == update_model(t, labels, cs),
        r2 == update_model(t, labels, cs),
    ensures
        r1 == r2,
{
}

/// Updating twice with the same labeling changes nothing the second time:
/// non-empty clusters get the same means again, and empty clusters keep
/// what the first update already kept.
pub proof fn lemma_update_idempotent(t: Seq<Seq<int>>, labels: Seq<int>, cs: Seq<CentroidModel>)
    ensures
        update_model(t, labels, update_model(t, labels, cs)) == update_model(t, labels, cs),
{
    let u1 = update_model(t, labels, cs);
    let u2 = update_model(t, labels, u1);
    assert forall|j: int| 0 <= j < u1.len() implies u2[j] == u1[j] by {
        if cluster_count(labels, j) == 0 {
        }
    }
    assert(u2 =~= u1);
}

/// Centroid-mean invariant: after an Update step, every cluster that
/// attracted at least one point carries exactly the dimension-wise
/// arithmetic mean of its members — the denominator is the member count
/// and each numerator is the members' coordinate sum, with no rounding.
pub proof fn lemma_update_centroid_is_member_mean(
    t: Seq<Seq<int>>,
    labels: Seq<int>,
    cs: Seq<CentroidModel>,
    j: int,
)
    requires
        0 <= j < cs.len(),
        cluster_count(labels, j) > 0,
    ensures
        update_model(t, labels, cs)[j].count == cluster_count(labels, j),
        update_model(t, labels, cs)[j].sum.len() == t[0].len(),
        forall|dim: int|
            0 <= dim < t[0].len() ==> update_model(t, labels, cs)[j].sum[dim] == cluster_sum(
                t,
                labels,
                j,
                dim,
            ),
{
}

/// Empty-cluster handling: a cluster that attracted no point in the
/// Assignment step keeps its previous centroid unchanged through the
/// Update step, so no undefined mean can arise.
pub proof fn lemma_update_keeps_empty_cluster(
    t: Seq<Seq<int>>,
    labels: Seq<int>,
    cs: Seq<CentroidModel>,
    j: int,
)
    requires
        0 <= j < cs.len(),
        cluster_count(labels, j) == 0,
    ensures
        update_model(t, labels, cs)[j] == cs[j],
{
}

/// Idempotence of convergence: once two consecutive passes produce the
/// same labeling, a further pass from the then-current centroids
/// reproduces that labeling again — a converged labeling is a fixed
/// point of the iteration.
pub proof fn lemma_convergence_is_fixed_point(t: Seq<Seq<int>>, cs: Seq<CentroidModel>)
    ensures
        ({
            let labels = assign_model(t, cs);
            let next = update_model(t, labels, cs);
            assign_model(t, next) == labels ==> assign_model(t, update_model(t, labels, next))
                == labels
        }),
{
    let labels = assign_model(t, cs);
    lemma_update_idempotent(t, labels, cs);
}

/// Once a pass has reproduced the previous labeling, the loop reports
/// convergence at once and hands that labeling back unchanged, whatever
/// budget is left.
pub proof fn lemma_lloyd_stationary(
    t: Seq<Seq<int>>,
    cs: Seq<CentroidModel>,
    prev: Seq<int>,
    iters: nat,
)
    requires
        assign_model(t, cs) == prev,
        iters >= 1,
    ensures
        lloyd_run(t, cs, prev, true, iters) == (RunModel {
            centroids: cs,
            labels: prev,
            converged: true,
        }),
{
}

/// The `converged` flag is honest: whenever a run reports convergence,
/// assigning labels from its final centroids reproduces its final
/// labeling — the run stopped in a fixed point, not merely out of budget.
pub proof fn lemma_converged_run_is_stable(
    t: Seq<Seq<int>>,
    cs: Seq<CentroidModel>,
    prev: Seq<int>,
    have_prev: bool,
    iters: nat,
)
    ensures
        lloyd_run(t, cs, prev, have_prev, iters).converged ==> assign_model(
            t,
            lloyd_run(t, cs, prev, have_prev, iters).centroids,
        ) == lloyd_run(t, cs, prev, have_prev, iters).labels,
    decreases iters,
{
    if iters > 0 {
        let fresh = assign_model(t, cs);
        if !(have_prev && fresh == prev) {
            lemma_converged_run_is_stable(
                t,
                update_model(t, fresh, cs),
                fresh,
                true,
                (iters - 1) as nat,
            );
        }
    }
}

/// No two rows of the table coincide.
pub open spec fn distinct_rows(t: Seq<Seq<int>>) -> bool {
    forall|i1: int, i2: int| 0 <= i1 < i2 < t.len() ==> t[i1] != t[i2]
}

/// Some entry of `xs` equals `v`.
pub open spec fn hits(xs: Seq<int>, v: int) -> bool {
    exists|i: int| 0 <= i < xs.len() && xs[i] == v
}

/// `n` distinct indices inside `[0, n)` reach every value of the range.
proof fn lemma_distinct_indices_cover(s: Seq<int>, n: int)
    requires
        0 <= n,
        valid_seeds(s, n),
        s.len() == n,
    ensures
        forall|v: int| 0 <= v < n ==> #[trigger] hits(s, v),
{
    broadcast use vstd::set::group_set_axioms;

    assert(s.no_duplicates());
    s.unique_seq_to_set();
    lemma_int_range(0, n);
    assert forall|v: int| 0 <= v < n implies #[trigger] hits(s, v) by {
        if !hits(s, v) {
            assert(!s.to_set().contains(v)) by {
                if s.to_set().contains(v) {
                    let j = choose|j: int| 0 <= j < s.len() && s[j] == v;
                    assert(0 <= j < s.len() && s[j] == v);
                    assert(hits(s, v));
                }
            }
            let range = set_int_range(0, n);
            assert(s.to_set().subset_of(range.remove(v))) by {
                assert forall|x: int| s.to_set().contains(x) implies range.remove(v).contains(
                    x,
                ) by {
                    let j = choose|j: int| 0 <= j < s.len() && s[j] == x;
                    assert(0 <= s[j] < n);
                }
            }
            assert(range.remove(v).len() == n - 1);
            lemma_len_subset(s.to_set(), range.remove(v));
            assert(false);
        }
    }
}

/// Seeding every point as its own centroid makes each point nearest to
/// exactly its own seed, provided no two points coincide.
proof fn lemma_own_seed_is_nearest(t: Seq<Seq<int>>, s: Seq<int>, j: int)
    requires
        t.len() >= 1,
        rectangular(t),
        distinct_rows(t),
        valid_seeds(s, t.len() as int),
        s.len() == t.len(),
        0 <= j < s.len(),
    ensures
        nearest(t[s[j]], init_model(t, s)) == j,
{
    let cs = init_model(t, s);
    let p = t[s[j]];
    assert(positive_counts(cs)) by {
        assert forall|m: int| 0 <= m < cs.len() implies #[trigger] cs[m].count >= 1 by {
            assert(cs[m] == (CentroidModel { sum: t[s[m]], count: 1 }));
        }
    }
    lemma_unit_dist_zero(p, cs[j]);
    assert forall|m: int| 0 <= m < cs.len() && m != j implies dist_lt(p, cs[j], #[trigger] cs[m]) by {
        assert(cs[m] == (CentroidModel { sum: t[s[m]], count: 1 }));
        assert(t[s[m]] != t[s[j]]) by {
            assert(s[m] != s[j]);
            if s[m] < s[j] {
                assert(t[s[m]] != t[s[j]]);
            } else {
                assert(t[s[j]] != t[s[m]]);
            }
        }
        assert(t[s[m]].len() == t[0].len());
        assert(t[s[j]].len() == t[0].len());
        lemma_unit_dist_pos(p, cs[m]);
        assert(sq(1) == 1);
        assert(dist_num(p, cs[j]) * sq(cs[m].count) < dist_num(p, cs[m]) * sq(cs[j].count));
    }
    assert(is_nearest(p, cs, j)) by {
        assert forall|m: int| 0 <= m < cs.len() implies dist_le(p, cs[j], #[trigger] cs[m]) by {
            if m != j {
                assert(dist_lt(p, cs[j], cs[m]));
            }
        }
    }
    lemma_nearest_is_nearest(p, cs);
    lemma_nearest_unique(p, cs, nearest(p, cs), j);
}

/// With as many clusters as points and no two points equal, the first
/// Assignment pass gives each point its own cluster: the labeling is a
/// permutation of `[0, n)`.  Each seed's point takes that seed's index,
/// no label repeats, and every label occurs.
pub proof fn lemma_self_seeded_assignment_is_permutation(t: Seq<Seq<int>>, s: Seq<int>)
    requires
        t.len() >= 1,
        rectangular(t),
        distinct_rows(t),
        valid_seeds(s, t.len() as int),
        s.len() == t.len(),
    ensures
        assign_model(t, init_model(t, s)).len() == t.len(),
        forall|j: int| 0 <= j < s.len() ==> assign_model(t, init_model(t, s))[s[j]] == j,
        forall|i1: int, i2: int|
            0 <= i1 < t.len() && 0 <= i2 < t.len() && i1 != i2 ==> assign_model(
                t,
                init_model(t, s),
            )[i1] != assign_model(t, init_model(t, s))[i2],
        forall|v: int| 0 <= v < t.len() ==> #[trigger] hits(assign_model(t, init_model(t, s)), v),
{
    let n = t.len() as int;
    let cs = init_model(t, s);
    let labels = assign_model(t, cs);
    assert forall|j: int| 0 <= j < s.len() implies labels[s[j]] == j by {
        lemma_own_seed_is_nearest(t, s, j);
    }
    lemma_distinct_indices_cover(s, n);
    assert forall|i1: int, i2: int|
        0 <= i1 < n && 0 <= i2 < n && i1 != i2 implies labels[i1] != labels[i2] by {
        assert(hits(s, i1));
        assert(hits(s, i2));
        let j1 = choose|j: int| 0 <= j < s.len() && s[j] == i1;
        let j2 = choose|j: int| 0 <= j < s.len() && s[j] == i2;
        assert(labels[s[j1]] == j1);
        assert(labels[s[j2]] == j2);
    }
    assert forall|v: int| 0 <= v < n implies #[trigger] hits(labels, v) by {
        assert(labels[s[v]] == v);
        assert(0 <= s[v] < n);
        assert(labels.len() == n);
    }
}

} // verus!
