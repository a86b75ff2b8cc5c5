use kmeans::Matrix;
use kmeans::{assign_cluster_to_sample, euclidean_distance, kmeans_pp, random_centers,
    update_centers};
use rand::Rng;
use rand::SeedableRng;
use rand::rngs::StdRng;

fn row(values: &[f32]) -> Vec<u32> {
    values.iter().map(|v| v.to_bits()).collect()
}

fn matrix(cols: usize, rows: &[&[f32]]) -> Matrix {
    let elems: Vec<Vec<u32>> = rows.iter().map(|r| row(r)).collect();
    Matrix { cols, elems }
}

#[test]
fn distance_of_equal_vectors_is_zero() {
    let a = row(&[1.5, -2.25, 0.0]);
    assert_eq!(euclidean_distance(&a, &a), 0.0f32.to_bits());
}

#[test]
fn distance_exact_values() {
    assert_eq!(
        euclidean_distance(&row(&[3.0]), &row(&[7.0])),
        4.0f32.to_bits(),
    );
    assert_eq!(
        euclidean_distance(&row(&[0.0, 0.0]), &row(&[3.0, 4.0])),
        5.0f32.to_bits(),
    );
}

#[test]
fn distance_matches_native_arithmetic() {
    let xs = [1.5f32, 2.25, -0.75, 10.125];
    let ys = [0.5f32, 0.75, 2.5, -3.375];
    let mut sum = 0.0f32;
    for i in 0..4 {
        let d = xs[i] - ys[i];
        sum += d * d;
    }
    let expected = sum.sqrt();
    assert_eq!(
        euclidean_distance(&row(&xs), &row(&ys)),
        expected.to_bits(),
    );
}

#[test]
fn assignment_picks_nearest_center_first_on_ties() {
    let data = matrix(1, &[&[0.0], &[9.0], &[5.0]]);
    let centers = matrix(1, &[&[4.0], &[6.0]]);
    let mut labels: Vec<usize> = vec![0; 3];
    assign_cluster_to_sample(&data, &centers, &mut labels);
    // 0.0 is nearest to 4.0; 9.0 to 6.0; 5.0 is equidistant and the first
    // center index wins.
    assert_eq!(labels, vec![0, 1, 0]);
}

#[test]
fn assignment_twice_yields_identical_labels() {
    let data = matrix(2, &[&[0.0, 1.0], &[5.0, 2.0], &[9.0, -1.0]]);
    let centers = matrix(2, &[&[1.0, 1.0], &[8.0, 0.0]]);
    let mut labels_a: Vec<usize> = vec![0; 3];
    assign_cluster_to_sample(&data, &centers, &mut labels_a);
    let mut labels_b: Vec<usize> = vec![0; 3];
    assign_cluster_to_sample(&data, &centers, &mut labels_b);
    assert_eq!(labels_a, labels_b);
}

#[test]
fn update_singleton_cluster_center_becomes_the_sample() {
    let data = matrix(1, &[&[1.5], &[3.0]]);
    let mut centers = matrix(1, &[&[10.0], &[20.0]]);
    let labels: Vec<usize> = vec![0, 1];
    let change = update_centers(&data, &mut centers, &labels, 2);
    assert_eq!(centers.elems[0], row(&[1.5]));
    assert_eq!(centers.elems[1], row(&[3.0]));
    // the reported scalar is the minimum distance moved: min(8.5, 17.0)
    assert_eq!(change, 8.5f32.to_bits());
}

#[test]
fn update_mean_is_coordinate_wise() {
    let data = matrix(2, &[&[1.0, 10.0], &[3.0, 20.0], &[100.0, 200.0]]);
    let mut centers = matrix(2, &[&[0.0, 0.0], &[100.0, 200.0]]);
    let labels: Vec<usize> = vec![0, 0, 1];
    update_centers(&data, &mut centers, &labels, 2);
    assert_eq!(centers.elems[0], row(&[2.0, 15.0]));
    assert_eq!(centers.elems[1], row(&[100.0, 200.0]));
}

#[test]
fn update_mean_rounds_like_native_division() {
    let data = matrix(1, &[&[1.0], &[2.0], &[4.0]]);
    let mut centers = matrix(1, &[&[0.0]]);
    let labels: Vec<usize> = vec![0, 0, 0];
    update_centers(&data, &mut centers, &labels, 1);
    assert_eq!(centers.elems[0], row(&[7.0f32 / 3.0f32]));
}

#[test]
fn update_empty_cluster_center_becomes_nan() {
    let data = matrix(1, &[&[1.0], &[1.0]]);
    let mut centers = matrix(1, &[&[1.0], &[5.0]]);
    let labels: Vec<usize> = vec![0, 0];
    update_centers(&data, &mut centers, &labels, 2);
    assert_eq!(centers.elems[0], row(&[1.0]));
    assert!(f32::from_bits(centers.elems[1][0]).is_nan());
}

#[test]
fn random_centers_draws_distinct_rows() {
    let data = matrix(1, &[&[0.0], &[1.0], &[2.0], &[3.0]]);
    for seed in 0..20u64 {
        let mut rng = StdRng::seed_from_u64(seed);
        let centers = random_centers(&data, 4, &mut rng);
        let mut values: Vec<u32> = centers.elems.iter().map(|r| r[0]).collect();
        values.sort();
        assert_eq!(values, row(&[0.0, 1.0, 2.0, 3.0]));
    }
}

#[test]
fn random_centers_rows_come_from_the_dataset() {
    let data = matrix(1, &[&[0.0], &[1.0], &[2.0], &[3.0]]);
    for seed in 0..20u64 {
        let mut rng = StdRng::seed_from_u64(seed);
        let centers = random_centers(&data, 2, &mut rng);
        assert_eq!(centers.elems.len(), 2);
        assert_ne!(centers.elems[0], centers.elems[1]);
        for r in &centers.elems {
            assert!(data.elems.contains(r));
        }
    }
}

#[test]
fn kmeans_pp_single_cluster_keeps_zero_center() {
    let data = matrix(1, &[&[7.0], &[8.0]]);
    let mut rng = StdRng::seed_from_u64(0);
    let centers = kmeans_pp(&data, 1, &mut rng);
    assert_eq!(centers.elems.len(), 1);
    assert_eq!(centers.elems[0], row(&[0.0]));
}

#[test]
fn kmeans_pp_two_clusters_layout() {
    // Row zero of the seeded centers stays zero; row one holds the row
    // whose distance to the zero row is largest among the not-yet-chosen.
    let data = matrix(1, &[&[0.0], &[5.0], &[100.0]]);
    let seed = 13u64;
    let first = StdRng::seed_from_u64(seed).gen_range(0..3usize);
    let mut rng = StdRng::seed_from_u64(seed);
    let centers = kmeans_pp(&data, 2, &mut rng);
    assert_eq!(centers.elems.len(), 2);
    assert_eq!(centers.elems[0], row(&[0.0]));
    let expected_second = match first {
        0 => 100.0f32,
        1 => 100.0,
        _ => 5.0,
    };
    assert_eq!(centers.elems[1], row(&[expected_second]));
}

#[test]
fn kmeans_pp_selections_stay_distinct_across_seeds() {
    // With finite data every summed distance beats the starting sentinel,
    // so no selection ever revisits a chosen row: the written center rows
    // are pairwise distinct data rows.
    let data = matrix(1, &[&[1.0], &[4.0], &[9.0], &[16.0], &[25.0], &[36.0]]);
    for seed in 0..25u64 {
        let mut rng = StdRng::seed_from_u64(seed);
        let centers = kmeans_pp(&data, 4, &mut rng);
        assert_eq!(centers.elems[0], row(&[0.0]));
        for a in 1..4 {
            assert!(data.elems.contains(&centers.elems[a]));
            for b in (a + 1)..4 {
                assert_ne!(centers.elems[a], centers.elems[b]);
            }
        }
    }
}

#[test]
fn kmeans_pp_three_clusters_never_revisits() {
    // Hand-computed farthest-point selections for each possible first draw;
    // sums of distances tie exactly in several cases and the first row index
    // wins.
    let data = matrix(1, &[&[0.0], &[5.0], &[100.0], &[30.0]]);
    for seed in 0..12u64 {
        let first = StdRng::seed_from_u64(seed).gen_range(0..4usize);
        let mut rng = StdRng::seed_from_u64(seed);
        let centers = kmeans_pp(&data, 3, &mut rng);
        assert_eq!(centers.elems.len(), 3);
        assert_eq!(centers.elems[0], row(&[0.0]));
        let (second, third) = match first {
            0 => (100.0f32, 5.0f32),
            1 => (100.0, 0.0),
            2 => (30.0, 0.0),
            _ => (100.0, 0.0),
        };
        assert_eq!(centers.elems[1], row(&[second]));
        assert_eq!(centers.elems[2], row(&[third]));
    }
}
