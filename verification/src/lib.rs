//! A verified k-means clustering engine.
//!
//! The engine clusters a fixed, rectangular numeric dataset into a
//! caller-chosen number of groups by Lloyd iteration: centers are seeded
//! either by uniform random sampling or by a sum-of-distances farthest-point
//! heuristic, then assignment and update steps alternate until the reported
//! center movement falls to the tolerance or the iteration cap is reached.
//! Coordinates are IEEE-754 single-precision values carried as `u32` bit
//! patterns; see `floats` for how their arithmetic enters the proofs.

pub mod floats;
pub mod matrix;
pub mod rng;
pub mod utils;
pub mod engine;
pub mod laws;

pub use matrix::Matrix;
pub use engine::{KMeans, KMeansError};
pub use utils::{euclidean_distance, random_centers, kmeans_pp, assign_cluster_to_sample, update_centers};
