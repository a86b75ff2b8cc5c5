use kmeans::{KMeans, KMeansError, Matrix};
use rand::SeedableRng;
use rand::rngs::StdRng;

fn matrix_1d(values: &[f32]) -> Matrix {
    let mut elems: Vec<Vec<u32>> = Vec::new();
    for v in values {
        elems.push(vec![v.to_bits()]);
    }
    Matrix { cols: 1, elems }
}

fn engine(k: usize, kpp: bool, tolerance: f32, max_iter: i32) -> KMeans {
    KMeans {
        num_cluster: k,
        kpp,
        tolerance: tolerance.to_bits(),
        max_iter,
        iter: None,
        max_change: None,
    }
}

/// The smallest seed whose without-replacement sample of `k` indices from
/// `0..n` is exactly the set `want`.
fn seed_picking(n: usize, k: usize, want: &[usize]) -> u64 {
    let mut seed: u64 = 0;
    loop {
        let mut rng = StdRng::seed_from_u64(seed);
        let mut got = rand::seq::index::sample(&mut rng, n, k).into_vec();
        got.sort();
        let mut w = want.to_vec();
        w.sort();
        if got == w {
            return seed;
        }
        seed += 1;
        assert!(seed < 1_000_000, "no seed found");
    }
}

#[test]
fn fit_rejects_zero_clusters() {
    let data = matrix_1d(&[1.0, 2.0]);
    let mut km = engine(0, false, 1e-4, 1000);
    let mut rng = StdRng::seed_from_u64(0);
    assert_eq!(km.fit(&data, &mut rng), Err(KMeansError::InvalidConfig));
}

#[test]
fn fit_rejects_empty_dataset() {
    let data = Matrix { cols: 1, elems: Vec::new() };
    let mut km = engine(1, false, 1e-4, 1000);
    let mut rng = StdRng::seed_from_u64(0);
    assert_eq!(km.fit(&data, &mut rng), Err(KMeansError::InvalidConfig));
    let mut km_pp = engine(1, true, 1e-4, 1000);
    assert_eq!(km_pp.fit(&data, &mut rng), Err(KMeansError::InvalidConfig));
}

#[test]
fn fit_rejects_more_clusters_than_samples_uniform() {
    let data = matrix_1d(&[1.0, 2.0]);
    let mut km = engine(3, false, 1e-4, 1000);
    let mut rng = StdRng::seed_from_u64(0);
    assert_eq!(km.fit(&data, &mut rng), Err(KMeansError::InvalidConfig));
}

#[test]
fn fit_kpp_accepts_more_clusters_than_samples() {
    let data = matrix_1d(&[1.0, 2.0]);
    let mut km = engine(3, true, 1e-4, 1000);
    let mut rng = StdRng::seed_from_u64(7);
    let labels = km.fit(&data, &mut rng).unwrap();
    assert_eq!(labels.len(), 2);
    for &l in &labels {
        assert!(l < 3);
    }
}

#[test]
fn two_far_groups_converge() {
    // Four points in one dimension, two tight pairs far apart; the two
    // initial centers are seeded to be rows 0 and 2.
    let data = matrix_1d(&[0.0, 0.1, 10.0, 10.1]);
    let seed = seed_picking(4, 2, &[0, 2]);
    let mut km = engine(2, false, 1e-6, 50);
    let mut rng = StdRng::seed_from_u64(seed);
    let labels = km.fit(&data, &mut rng).unwrap();
    assert_eq!(labels.len(), 4);
    assert_eq!(labels[0], labels[1]);
    assert_eq!(labels[2], labels[3]);
    assert_ne!(labels[0], labels[2]);
    assert!(km.get_iter() >= 1 && km.get_iter() <= 3);
}

#[test]
fn single_cluster_on_uniform_dataset_converges_in_one_iteration() {
    // With every sample equal, the initial center already is the dataset
    // mean, so the first update moves it nowhere.
    let data = matrix_1d(&[2.0, 2.0, 2.0]);
    let mut km = engine(1, false, 1e-6, 50);
    let mut rng = StdRng::seed_from_u64(3);
    let labels = km.fit(&data, &mut rng).unwrap();
    assert_eq!(labels, vec![0, 0, 0]);
    assert_eq!(km.get_iter(), 1);
    assert_eq!(km.get_max_change(), 0.0f32.to_bits());
}

#[test]
fn single_cluster_on_single_point_converges_in_one_iteration() {
    let data = matrix_1d(&[5.5]);
    let mut km = engine(1, false, 1e-6, 50);
    let mut rng = StdRng::seed_from_u64(0);
    let labels = km.fit(&data, &mut rng).unwrap();
    assert_eq!(labels, vec![0]);
    assert_eq!(km.get_iter(), 1);
    assert_eq!(km.get_max_change(), 0.0f32.to_bits());
}

#[test]
fn one_cluster_per_sample_converges_with_zero_change() {
    // K = N on distinct samples: every sample sits on its own center, so
    // one pass suffices and nothing moves.
    let data = matrix_1d(&[0.0, 4.0, 9.0]);
    let mut km = engine(3, false, 1e-6, 50);
    let mut rng = StdRng::seed_from_u64(11);
    let labels = km.fit(&data, &mut rng).unwrap();
    assert_eq!(labels.len(), 3);
    let mut sorted = labels.clone();
    sorted.sort();
    assert_eq!(sorted, vec![0, 1, 2]);
    assert_eq!(km.get_iter(), 1);
    assert_eq!(km.get_max_change(), 0.0f32.to_bits());
}

#[test]
fn identical_seeds_reproduce_identical_runs() {
    let data = matrix_1d(&[0.0, 1.0, 2.0, 9.0, 10.0, 11.0]);
    let mut first_run = engine(2, false, 1e-6, 100);
    let mut rng_a = StdRng::seed_from_u64(99);
    let labels_a = first_run.fit(&data, &mut rng_a).unwrap();
    let mut second_run = engine(2, false, 1e-6, 100);
    let mut rng_b = StdRng::seed_from_u64(99);
    let labels_b = second_run.fit(&data, &mut rng_b).unwrap();
    assert_eq!(labels_a, labels_b);
    assert_eq!(first_run.get_iter(), second_run.get_iter());
    assert_eq!(first_run.get_max_change(), second_run.get_max_change());
}

#[test]
fn iteration_cap_is_respected() {
    // A negative tolerance keeps the change comparison true for ever, so
    // the run stops exactly at the cap.
    let data = matrix_1d(&[0.0, 1.0, 10.0]);
    let mut km = engine(2, false, -1.0, 2);
    let mut rng = StdRng::seed_from_u64(5);
    let labels = km.fit(&data, &mut rng).unwrap();
    assert_eq!(labels.len(), 3);
    for &l in &labels {
        assert!(l < 2);
    }
    assert_eq!(km.get_iter(), 2);
}

#[test]
fn zero_iteration_cap_returns_initial_labels() {
    let data = matrix_1d(&[0.0, 1.0, 10.0]);
    let mut km = engine(2, false, 1e-6, 0);
    let mut rng = StdRng::seed_from_u64(5);
    let labels = km.fit(&data, &mut rng).unwrap();
    assert_eq!(labels, vec![0, 0, 0]);
    assert_eq!(km.get_iter(), 0);
    assert_eq!(km.get_max_change(), f32::INFINITY.to_bits());
}

#[test]
fn kpp_full_run_converges() {
    let data = matrix_1d(&[0.0, 0.1, 10.0, 10.1]);
    let mut km = engine(2, true, 1e-6, 50);
    let mut rng = StdRng::seed_from_u64(42);
    let labels = km.fit(&data, &mut rng).unwrap();
    assert_eq!(labels[0], labels[1]);
    assert_eq!(labels[2], labels[3]);
    assert_ne!(labels[0], labels[2]);
    assert!(km.get_iter() >= 1 && km.get_iter() <= 3);
}

#[test]
fn two_far_groups_converge_in_two_dimensions() {
    let rows: [[f32; 2]; 4] = [[0.0, 0.0], [0.1, 0.1], [10.0, 10.0], [10.1, 10.1]];
    let elems: Vec<Vec<u32>> = rows
        .iter()
        .map(|r| r.iter().map(|v| v.to_bits()).collect())
        .collect();
    let data = Matrix { cols: 2, elems };
    let seed = seed_picking(4, 2, &[0, 2]);
    let mut km = engine(2, false, 1e-6, 50);
    let mut rng = StdRng::seed_from_u64(seed);
    let labels = km.fit(&data, &mut rng).unwrap();
    assert_eq!(labels[0], labels[1]);
    assert_eq!(labels[2], labels[3]);
    assert_ne!(labels[0], labels[2]);
    assert_eq!(km.get_iter(), 2);
    assert_eq!(km.get_max_change(), 0.0f32.to_bits());
}

#[test]
fn getters_default_before_any_run() {
    let km = KMeans::default();
    assert_eq!(km.get_iter(), 0);
    assert_eq!(km.get_max_change(), f32::INFINITY.to_bits());
}
