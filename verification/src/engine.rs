//! The driver: configuration, the convergence loop, and the run state it
//! leaves behind.

use vstd::prelude::*;

use crate::floats::{INF_BITS, gt_bits, gt32};
use crate::matrix::Matrix;
use crate::utils::{
    assign_spec, update_spec, uniform_init_ok, pp_init_ok, lemma_assign_labels_in_range,
    lemma_update_prefix_untouched, assign_cluster_to_sample, update_centers, random_centers,
    kmeans_pp,
};

verus! {

/// A fatal configuration error, surfaced before any iteration begins: no
/// clusters were requested, the dataset is empty, or more clusters than
/// samples were requested from the uniform-random initializer.
#[derive(Clone, Copy, Debug, PartialEq, Eq, Structural)]
pub enum KMeansError {
    InvalidConfig,
}

/// The clustering engine: its configuration, and, after `fit` has run, the
/// iteration count and final change scalar of the run.
#[derive(Default)]
pub struct KMeans {
    /// Number of clusters to form (K).
    pub num_cluster: usize,
    /// Seed centers with the k-means++ heuristic instead of uniform random
    /// sampling.
    pub kpp: bool,
    /// Convergence tolerance, an IEEE single-precision bit pattern.
    pub tolerance: u32,
    /// Iteration cap.
    pub max_iter: i32,
    /// Iterations the last run executed.
    pub iter: Option<i32>,
    /// The change scalar the last run's final update step reported, an IEEE
    /// single-precision bit pattern.
    pub max_change: Option<u32>,
}

/// The configurations `fit` rejects: no clusters, an empty dataset, or
/// more clusters than samples under uniform-random initialization.
pub open spec fn invalid_config(k: usize, kpp: bool, n: nat) -> bool {
    k == 0 || n == 0 || (!kpp && k > n)
}

/// `c0` is a center matrix the configured initializer can have produced
/// from `data`.
pub open spec fn seeded_by(
    kpp: bool,
    c0: Seq<Seq<u32>>,
    data: Seq<Seq<u32>>,
    k: usize,
    cols: nat,
) -> bool {
    if kpp {
        exists|first: usize| pp_init_ok(first, data, k, cols, c0)
    } else {
        exists|idx: Seq<usize>| uniform_init_ok(idx, data, k, c0)
    }
}

/// One full convergence loop, unrolled from iteration `iter` with current
/// `labels`, `centers` and `change`: while the change scalar compares
/// greater (IEEE `>`) than the tolerance and the iteration count is below
/// the cap, an assignment step and an update step run and the count rises
/// by one. Returns the final labels, centers, iteration count and change
/// scalar.
pub open spec fn run_loop(
    data: Seq<Seq<u32>>,
    centers: Seq<Seq<u32>>,
    labels: Seq<usize>,
    k: usize,
    cols: nat,
    tol: u32,
    max_iter: i32,
    iter: i32,
    change: u32,
) -> (Seq<usize>, Seq<Seq<u32>>, i32, u32)
    decreases max_iter - iter,
{
    if gt_bits(change, tol) && iter < max_iter {
        let labels2 = assign_spec(data, centers);
        let u = update_spec(data, labels2, centers, cols, k);
        run_loop(data, u.0, labels2, k, cols, tol, max_iter, (iter + 1) as i32, u.1)
    } else {
        (labels, centers, iter, change)
    }
}

/// What a successful `fit` returns, as a function of the initial centers
/// the initializer produced: the convergence loop run from all-zero labels,
/// iteration zero and an infinite change scalar.
pub open spec fn fit_result(
    data: Seq<Seq<u32>>,
    c0: Seq<Seq<u32>>,
    k: usize,
    cols: nat,
    tol: u32,
    max_iter: i32,
) -> (Seq<usize>, Seq<Seq<u32>>, i32, u32) {
    run_loop(data, c0, Seq::new(data.len(), |i: int| 0usize), k, cols, tol, max_iter, 0, INF_BITS)
}

/// The convergence loop keeps the shape of its state: it returns exactly
/// one label per sample, every label a valid center index, a center matrix
/// of `k` rows, and an iteration count that never drops below its start nor
/// exceeds the cap (unless it already had).
pub proof fn lemma_run_loop_props(
    data: Seq<Seq<u32>>,
    centers: Seq<Seq<u32>>,
    labels: Seq<usize>,
    k: usize,
    cols: nat,
    tol: u32,
    max_iter: i32,
    iter: i32,
    change: u32,
)
    requires
        k >= 1,
        centers.len() == k,
        labels.len() == data.len(),
        forall|i: int| 0 <= i < labels.len() ==> #[trigger] labels[i] < k,
    ensures
        run_loop(data, centers, labels, k, cols, tol, max_iter, iter, change).0.len()
            == data.len(),
        forall|i: int|
            0 <= i < data.len() ==> #[trigger] run_loop(
                data,
                centers,
                labels,
                k,
                cols,
                tol,
                max_iter,
                iter,
                change,
            ).0[i] < k,
        run_loop(data, centers, labels, k, cols, tol, max_iter, iter, change).1.len() == k,
        iter <= run_loop(data, centers, labels, k, cols, tol, max_iter, iter, change).2,
        run_loop(data, centers, labels, k, cols, tol, max_iter, iter, change).2 <= (if iter
            <= max_iter {
            max_iter as int
        } else {
            iter as int
        }),
    decreases max_iter - iter,
{
    if gt_bits(change, tol) && iter < max_iter {
        let labels2 = assign_spec(data, centers);
        let u = update_spec(data, labels2, centers, cols, k);
        lemma_assign_labels_in_range(data, centers);
        lemma_update_prefix_untouched(data, labels2, centers, cols, k as int);
        lemma_run_loop_props(
            data,
            u.0,
            labels2,
            k,
            cols,
            tol,
            max_iter,
            (iter + 1) as i32,
            u.1,
        );
    }
}

impl KMeans {
    /// Runs the full engine on `data`: seeds `num_cluster` centers with the
    /// configured initializer drawing from `rng`, then alternates
    /// assignment and update steps until the reported change scalar stops
    /// comparing greater than the tolerance or `max_iter` passes are done.
    /// Returns one label per sample, each a valid center index, and leaves
    /// the iteration count and final change scalar behind in `iter` and
    /// `max_change`. Rejects invalid configurations before any iteration.
    pub fn fit(&mut self, data: &Matrix, rng: &mut rand::rngs::StdRng) -> (r: Result<
        Vec<usize>,
        KMeansError,
    >)
        requires
            data.wf(),
        ensures
            r is Err <==> invalid_config(old(self).num_cluster, old(self).kpp, data.mat().len()),
            r is Err ==> r == Err::<Vec<usize>, KMeansError>(KMeansError::InvalidConfig)
                && *final(self) == *old(self),
            final(self).num_cluster == old(self).num_cluster,
            final(self).kpp == old(self).kpp,
            final(self).tolerance == old(self).tolerance,
            final(self).max_iter == old(self).max_iter,
            r is Ok ==> r->Ok_0@.len() == data.mat().len(),
            r is Ok ==> forall|i: int|
                0 <= i < data.mat().len() ==> #[trigger] r->Ok_0@[i] < old(self).num_cluster,
            r is Ok ==> final(self).iter is Some && 0 <= final(self).iter->0 && final(self).iter->0
                <= (if old(self).max_iter >= 0 {
                old(self).max_iter as int
            } else {
                0
            }),
            r is Ok ==> exists|c0: Seq<Seq<u32>>|
                #![trigger seeded_by(old(self).kpp, c0, data.mat(), old(self).num_cluster, data.cols as nat)]
                {
                    &&& c0.len() == old(self).num_cluster
                    &&& seeded_by(
                        old(self).kpp,
                        c0,
                        data.mat(),
                        old(self).num_cluster,
                        data.cols as nat,
                    )
                    &&& r->Ok_0@ == fit_result(
                        data.mat(),
                        c0,
                        old(self).num_cluster,
                        data.cols as nat,
                        old(self).tolerance,
                        old(self).max_iter,
                    ).0
                    &&& final(self).iter == Some(
                        fit_result(
                            data.mat(),
                            c0,
                            old(self).num_cluster,
                            data.cols as nat,
                            old(self).tolerance,
                            old(self).max_iter,
                        ).2,
                    )
                    &&& final(self).max_change == Some(
                        fit_result(
                            data.mat(),
                            c0,
                            old(self).num_cluster,
                            data.cols as nat,
                            old(self).tolerance,
                            old(self).max_iter,
                        ).3,
                    )
                },
    {
        let k = self.num_cluster;
        let n = data.nrows();
        if k == 0 || n == 0 || (!self.kpp && k > n) {
            return Err(KMeansError::InvalidConfig);
        }

        // initiate centers randomly or using kmeans++
        let mut centers = if self.kpp {
            kmeans_pp(data, k, rng)
        } else {
            random_centers(data, k, rng)
        };
        let ghost c0 = centers.mat();
        proof {
            assert(seeded_by(self.kpp, c0, data.mat(), k, data.cols as nat));
        }

        // main loop: assign labels, then update centers, until converged
        let mut indices: Vec<usize> = vec![0usize; n];
        let mut iter: i32 = 0;
        let mut max_change: u32 = INF_BITS;
        proof {
            assert(indices@ =~= Seq::new(data.mat().len(), |i: int| 0usize));
        }
        let mut cont = gt32(max_change, self.tolerance) && iter < self.max_iter;
        while cont
            invariant
                *self == *old(self),
                k == self.num_cluster,
                k >= 1,
                data.wf(),
                n == data.mat().len(),
                centers.wf(),
                centers.cols == data.cols,
                centers.mat().len() == k,
                c0.len() == k,
                seeded_by(self.kpp, c0, data.mat(), k, data.cols as nat),
                indices@.len() == n,
                forall|i: int| 0 <= i < indices@.len() ==> #[trigger] indices@[i] < k,
                cont == (gt_bits(max_change, self.tolerance) && iter < self.max_iter),
                0 <= iter,
                iter <= self.max_iter || iter == 0,
                fit_result(
                    data.mat(),
                    c0,
                    k,
                    data.cols as nat,
                    self.tolerance,
                    self.max_iter,
                ) == run_loop(
                    data.mat(),
                    centers.mat(),
                    indices@,
                    k,
                    data.cols as nat,
                    self.tolerance,
                    self.max_iter,
                    iter,
                    max_change,
                ),
            decreases self.max_iter - iter,
        {
            let ghost centers_at_entry = centers.mat();
            let ghost labels_at_entry = indices@;
            let ghost iter_at_entry = iter;
            let ghost change_at_entry = max_change;
            iter = iter + 1;
            assign_cluster_to_sample(data, &centers, &mut indices);
            max_change = update_centers(data, &mut centers, &indices, k);
            cont = gt32(max_change, self.tolerance) && iter < self.max_iter;
            proof {
                lemma_update_prefix_untouched(
                    data.mat(),
                    indices@,
                    centers_at_entry,
                    data.cols as nat,
                    k as int,
                );
                assert(run_loop(
                    data.mat(),
                    centers_at_entry,
                    labels_at_entry,
                    k,
                    data.cols as nat,
                    self.tolerance,
                    self.max_iter,
                    iter_at_entry,
                    change_at_entry,
                ) == run_loop(
                    data.mat(),
                    centers.mat(),
                    indices@,
                    k,
                    data.cols as nat,
                    self.tolerance,
                    self.max_iter,
                    iter,
                    max_change,
                ));
            }
        }
        self.iter = Some(iter);
        self.max_change = Some(max_change);
        proof {
            assert(run_loop(
                data.mat(),
                centers.mat(),
                indices@,
                k,
                data.cols as nat,
                self.tolerance,
                self.max_iter,
                iter,
                max_change,
            ) == (indices@, centers.mat(), iter, max_change));
        }
        Ok(indices)
    }

    /// The iteration count of the last run, or zero when no run finished.
    pub fn get_iter(&self) -> (r: i32)
        ensures
            r == (match self.iter {
                Some(v) => v,
                None => 0i32,
            }),
    {
        if self.iter.is_some() {
            self.iter.unwrap()
        } else {
            0
        }
    }

    /// The change scalar the last run's final update step reported, or the
    /// bit pattern of positive infinity when no run finished.
    pub fn get_max_change(&self) -> (r: u32)
        ensures
            r == (match self.max_change {
                Some(v) => v,
                None => INF_BITS,
            }),
    {
        if self.max_change.is_some() {
            self.max_change.unwrap()
        } else {
            INF_BITS
        }
    }
}

} // verus!
