use cluster_engine::engine::{
    assign_labels, cluster, cluster_seeded, distance_lt, initialize_centroids, labels_equal,
    nearest_centroid, scaled_sq_distance, squared_distance, update_centroids, validate_config,
    Centroid,
};
use cluster_engine::error::ConfigError;

fn four_corner_table() -> Vec<Vec<i64>> {
    vec![vec![0, 0], vec![0, 1], vec![10, 0], vec![10, 1]]
}

#[test]
fn labeling_has_length_n_and_labels_below_k() {
    let table = four_corner_table();
    let labels = cluster(&table, 2, 100).unwrap();
    assert_eq!(labels.len(), 4);
    for &label in labels.iter() {
        assert!(label < 2);
    }
}

#[test]
fn two_separated_pairs_split_for_opposite_side_seeds() {
    // Seeding one centroid in each group always converges to the split
    // between the left pair and the right pair.  (Seeding both centroids
    // inside one group is a classic local optimum of the iteration — it
    // converges to the horizontal split instead — so those seed pairs are
    // not asserted here.)
    let table = four_corner_table();
    for &a in &[0usize, 1] {
        for &b in &[2usize, 3] {
            for seeds in [vec![a, b], vec![b, a]] {
                let outcome = cluster_seeded(&table, 100, &seeds);
                assert!(outcome.converged);
                let labels = outcome.labels;
                assert_eq!(labels.len(), 4);
                assert_eq!(labels[0], labels[1]);
                assert_eq!(labels[2], labels[3]);
                assert_ne!(labels[0], labels[2]);
            }
        }
    }
}

#[test]
fn one_cluster_gets_all_points_and_the_exact_table_mean() {
    let table = four_corner_table();
    let seeds = vec![2];
    let outcome = cluster_seeded(&table, 10, &seeds);
    assert!(outcome.converged);
    assert_eq!(outcome.labels, vec![0, 0, 0, 0]);
    assert_eq!(outcome.centroids.len(), 1);
    // The exact mean of the table is (20/4, 2/4), held as sums over count.
    assert_eq!(outcome.centroids[0].sum, vec![20, 2]);
    assert_eq!(outcome.centroids[0].count, 4);
}

#[test]
fn single_point_single_cluster_converges_at_once() {
    let table = vec![vec![7, 3]];
    let seeds = vec![0];
    let outcome = cluster_seeded(&table, 2, &seeds);
    assert!(outcome.converged);
    assert_eq!(outcome.labels, vec![0]);
    assert_eq!(outcome.centroids[0].sum, vec![7, 3]);
    assert_eq!(outcome.centroids[0].count, 1);
}

#[test]
fn empty_cluster_keeps_its_previous_centroid() {
    let table = vec![vec![0], vec![1]];
    let labels = vec![0, 0];
    let old = vec![
        Centroid { sum: vec![0], count: 1 },
        Centroid { sum: vec![5], count: 1 },
    ];
    let updated = update_centroids(&table, &labels, &old);
    assert_eq!(updated.len(), 2);
    // Cluster 0 took both points: exact mean 1/2.
    assert_eq!(updated[0].sum, vec![1]);
    assert_eq!(updated[0].count, 2);
    // Cluster 1 attracted no point: unchanged.
    assert_eq!(updated[1].sum, vec![5]);
    assert_eq!(updated[1].count, 1);
}

#[test]
fn update_yields_exact_member_means() {
    let table = vec![vec![2, 4], vec![4, 8], vec![9, 9]];
    let labels = vec![0, 0, 1];
    let old = vec![
        Centroid { sum: vec![0, 0], count: 1 },
        Centroid { sum: vec![0, 0], count: 1 },
    ];
    let updated = update_centroids(&table, &labels, &old);
    // Cluster 0 holds (2,4) and (4,8): mean (3,6) held exactly as (6,12)/2.
    assert_eq!(updated[0].sum, vec![6, 12]);
    assert_eq!(updated[0].count, 2);
    // Cluster 1 holds (9,9) alone.
    assert_eq!(updated[1].sum, vec![9, 9]);
    assert_eq!(updated[1].count, 1);
}

#[test]
fn self_seeding_assigns_each_point_its_own_cluster() {
    let table = four_corner_table();
    let seeds = vec![2, 0, 3, 1];
    let centroids = initialize_centroids(&table, &seeds);
    let labels = assign_labels(&table, &centroids);
    assert_eq!(labels[2], 0);
    assert_eq!(labels[0], 1);
    assert_eq!(labels[3], 2);
    assert_eq!(labels[1], 3);
}

#[test]
fn k_equals_n_random_seeding_yields_a_permutation() {
    let table = four_corner_table();
    let mut labels = cluster(&table, 4, 5).unwrap();
    labels.sort();
    assert_eq!(labels, vec![0, 1, 2, 3]);
}

#[test]
fn empty_table_is_rejected() {
    let table: Vec<Vec<i64>> = Vec::new();
    assert_eq!(cluster(&table, 1, 10), Err(ConfigError::EmptyTable));
}

#[test]
fn zero_clusters_is_rejected() {
    let table = four_corner_table();
    assert_eq!(cluster(&table, 0, 10), Err(ConfigError::ZeroClusters));
}

#[test]
fn more_clusters_than_points_is_rejected() {
    let table = four_corner_table();
    assert_eq!(cluster(&table, 5, 10), Err(ConfigError::TooManyClusters));
}

#[test]
fn ragged_rows_are_rejected() {
    let table = vec![vec![1, 2], vec![3]];
    assert_eq!(cluster(&table, 1, 10), Err(ConfigError::DimensionMismatch));
    assert!(validate_config(&table, 1).is_err());
}

#[test]
fn validation_accepts_a_square_request() {
    let table = four_corner_table();
    assert_eq!(validate_config(&table, 2), Ok(()));
}

#[test]
fn error_messages_name_the_failure() {
    assert_eq!(ConfigError::EmptyTable.message(), "the table holds no points");
    assert_eq!(ConfigError::ZeroClusters.message(), "k is zero");
    assert_eq!(
        ConfigError::TooManyClusters.message(),
        "k exceeds the number of points"
    );
    assert_eq!(ConfigError::DimensionMismatch.message(), "rows differ in length");
}

#[test]
fn assignment_and_update_are_deterministic() {
    let table = four_corner_table();
    let seeds = vec![0, 2];
    let centroids1 = initialize_centroids(&table, &seeds);
    let centroids2 = initialize_centroids(&table, &seeds);
    let labels1 = assign_labels(&table, &centroids1);
    let labels2 = assign_labels(&table, &centroids2);
    assert_eq!(labels1, labels2);
    let up1 = update_centroids(&table, &labels1, &centroids1);
    let up2 = update_centroids(&table, &labels2, &centroids2);
    for (a, b) in up1.iter().zip(up2.iter()) {
        assert_eq!(a.sum, b.sum);
        assert_eq!(a.count, b.count);
    }
}

#[test]
fn converged_runs_are_stable_under_a_larger_budget() {
    let table = four_corner_table();
    let seeds = vec![1, 3];
    let short = cluster_seeded(&table, 20, &seeds);
    let long = cluster_seeded(&table, 1000, &seeds);
    assert!(short.converged);
    assert!(long.converged);
    assert_eq!(short.labels, long.labels);
}

#[test]
fn scaled_squared_distance_matches_hand_computation() {
    // Point (3,4) against the single point (0,0): squared distance 25.
    let p = vec![3, 4];
    let c = Centroid { sum: vec![0, 0], count: 1 };
    assert_eq!(scaled_sq_distance(&p, &c), 25);
    // Point (1,) against the mean 4/2 = 2: count² · (1-2)² = 4.
    let q = vec![1];
    let m = Centroid { sum: vec![4], count: 2 };
    assert_eq!(scaled_sq_distance(&q, &m), 4);
}

#[test]
fn squared_distance_between_points_is_exact() {
    assert_eq!(squared_distance(&vec![3, 4], &vec![0, 0]), 25);
    assert_eq!(squared_distance(&vec![-2, 7], &vec![-2, 7]), 0);
    assert_eq!(squared_distance(&vec![1, 1, 1], &vec![0, 2, 3]), 6);
}

#[test]
fn converged_labeling_is_a_fixed_point_of_assignment() {
    // Once a run reports convergence, assigning labels from its final
    // centroids reproduces its final labeling.
    let table = four_corner_table();
    let seeds = vec![0, 3];
    let outcome = cluster_seeded(&table, 100, &seeds);
    assert!(outcome.converged);
    let reassigned = assign_labels(&table, &outcome.centroids);
    assert_eq!(reassigned, outcome.labels);
}

#[test]
fn distance_comparison_is_strict() {
    let p = vec![0, 0];
    let near = Centroid { sum: vec![1, 0], count: 1 };
    let far = Centroid { sum: vec![5, 5], count: 1 };
    assert!(distance_lt(&p, &near, &far));
    assert!(!distance_lt(&p, &far, &near));
    assert!(!distance_lt(&p, &near, &near));
}

#[test]
fn equidistant_centroids_give_the_lower_index() {
    // Point 5 sits exactly between centroids at 0 and 10.
    let table = vec![vec![5]];
    let centroids = vec![
        Centroid { sum: vec![0], count: 1 },
        Centroid { sum: vec![10], count: 1 },
    ];
    assert_eq!(nearest_centroid(&table[0], &centroids), 0);
    // Two identical centroids: again the first wins.
    let twins = vec![
        Centroid { sum: vec![5], count: 1 },
        Centroid { sum: vec![5], count: 1 },
    ];
    assert_eq!(nearest_centroid(&table[0], &twins), 0);
}

#[test]
fn zero_budget_returns_the_initial_labeling() {
    let table = four_corner_table();
    let seeds = vec![0, 2];
    let outcome = cluster_seeded(&table, 0, &seeds);
    assert!(!outcome.converged);
    assert_eq!(outcome.labels, vec![0, 0, 0, 0]);
}

#[test]
fn labelings_compare_element_wise() {
    assert!(labels_equal(&vec![0, 1, 2], &vec![0, 1, 2]));
    assert!(!labels_equal(&vec![0, 1, 2], &vec![0, 1]));
    assert!(!labels_equal(&vec![0, 1, 2], &vec![0, 1, 3]));
}
