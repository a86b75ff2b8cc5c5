//! The four building blocks of the engine: the Euclidean distance, the two
//! center initializers, the assignment step and the update step.
//!
//! Each executable function is specified against a spec-level fold that
//! mirrors, operation by operation, the IEEE single-precision arithmetic the
//! function performs (see `floats`): contracts pin down the exact bit
//! patterns produced, not merely their shape.

use vstd::prelude::*;

use crate::floats::{
    INF_BITS, NEG_ONE_BITS, ONE_BITS, add_bits, sub_bits, mul_bits, div_bits, sqrt_bits, lt_bits,
    gt_bits, from_usize_bits, preserved_bits, add32, sub32, mul32, div32, sqrt32, lt32, gt32,
    from_usize32,
};
use crate::matrix::Matrix;
use crate::rng::{sample_indices, gen_index};

verus! {

// ------------------------------------------------------------------------
// Distance
// ------------------------------------------------------------------------

/// The running sum of squared coordinate differences over the first `n`
/// coordinates, folded left in IEEE single-precision arithmetic starting
/// from positive zero, exactly as the executable loop accumulates it.
pub open spec fn sq_dist_prefix(a: Seq<u32>, b: Seq<u32>, n: int) -> u32
    decreases n,
{
    if n <= 0 {
        0u32
    } else {
        add_bits(
            sq_dist_prefix(a, b, n - 1),
            mul_bits(sub_bits(a[n - 1], b[n - 1]), sub_bits(a[n - 1], b[n - 1])),
        )
    }
}

/// The Euclidean distance between two equal-length coordinate vectors: the
/// square root of the summed squared differences.
pub open spec fn dist_bits(a: Seq<u32>, b: Seq<u32>) -> u32 {
    sqrt_bits(sq_dist_prefix(a, b, a.len() as int))
}

/// Euclidean (L2) distance between two vectors of equal length.
pub fn euclidean_distance(a: &Vec<u32>, b: &Vec<u32>) -> (r: u32)
    requires
        a@.len() == b@.len(),
    ensures
        r == dist_bits(a@, b@),
{
    let mut acc: u32 = 0;
    let mut i: usize = 0;
    while i < a.len()
        invariant
            i <= a.len(),
            a@.len() == b@.len(),
            acc == sq_dist_prefix(a@, b@, i as int),
        decreases a.len() - i,
    {
        let d = sub32(a[i], b[i]);
        acc = add32(acc, mul32(d, d));
        i = i + 1;
    }
    sqrt32(acc)
}

// ------------------------------------------------------------------------
// Assignment step
// ------------------------------------------------------------------------

/// The running minimum over the first `n` centers of the distance from
/// `row`, together with the index attaining it: the minimum starts at
/// positive infinity, and only a strict `<` (so the first index wins ties)
/// replaces it.
pub open spec fn nearest_prefix(row: Seq<u32>, centers: Seq<Seq<u32>>, n: int) -> (u32, usize)
    decreases n,
{
    if n <= 0 {
        (INF_BITS, 0usize)
    } else {
        let prev = nearest_prefix(row, centers, n - 1);
        let d = dist_bits(row, centers[n - 1]);
        if lt_bits(d, prev.0) {
            (d, (n - 1) as usize)
        } else {
            prev
        }
    }
}

/// The index of the center nearest to `row`, the first index winning ties.
pub open spec fn nearest_center(row: Seq<u32>, centers: Seq<Seq<u32>>) -> usize {
    nearest_prefix(row, centers, centers.len() as int).1
}

/// The labels the assignment step produces: each sample is labelled with
/// the index of its nearest center.
pub open spec fn assign_spec(data: Seq<Seq<u32>>, centers: Seq<Seq<u32>>) -> Seq<usize> {
    Seq::new(data.len(), |i: int| nearest_center(data[i], centers))
}

/// The index of a running minimum over `n` centers lies below `n` (and is
/// zero when there are no centers at all).
pub proof fn lemma_nearest_prefix_bound(row: Seq<u32>, centers: Seq<Seq<u32>>, n: int)
    ensures
        n >= 1 ==> nearest_prefix(row, centers, n).1 < n,
        n < 1 ==> nearest_prefix(row, centers, n).1 == 0,
    decreases n,
{
    if n >= 1 {
        lemma_nearest_prefix_bound(row, centers, n - 1);
    }
}

/// Every label the assignment step produces is a valid center index.
pub proof fn lemma_assign_labels_in_range(data: Seq<Seq<u32>>, centers: Seq<Seq<u32>>)
    requires
        centers.len() >= 1,
    ensures
        assign_spec(data, centers).len() == data.len(),
        forall|i: int|
            0 <= i < data.len() ==> #[trigger] assign_spec(data, centers)[i] < centers.len(),
{
    assert forall|i: int| 0 <= i < data.len() implies #[trigger] assign_spec(data, centers)[i]
        < centers.len() by {
        lemma_nearest_prefix_bound(data[i], centers, centers.len() as int);
    }
}

/// For every sample row, finds the index of the closest center and writes
/// it into the corresponding entry of `indices`, overwriting all entries.
pub fn assign_cluster_to_sample(data: &Matrix, centers: &Matrix, indices: &mut Vec<usize>)
    requires
        data.wf(),
        centers.wf(),
        centers.cols == data.cols,
        old(indices)@.len() == data.mat().len(),
    ensures
        final(indices)@ == assign_spec(data.mat(), centers.mat()),
        centers.mat().len() >= 1 ==> forall|i: int|
            0 <= i < final(indices)@.len() ==> #[trigger] final(indices)@[i] < centers.mat().len(),
{
    let n = data.nrows();
    let k = centers.nrows();
    let mut s: usize = 0;
    while s < n
        invariant
            s <= n,
            n == data.mat().len(),
            k == centers.mat().len(),
            data.wf(),
            centers.wf(),
            centers.cols == data.cols,
            indices@.len() == n,
            forall|i: int|
                0 <= i < s ==> #[trigger] indices@[i] == nearest_center(
                    data.mat()[i],
                    centers.mat(),
                ),
        decreases n - s,
    {
        let mut min_distance: u32 = INF_BITS;
        let mut min_index: usize = 0;
        let mut c: usize = 0;
        while c < k
            invariant
                c <= k,
                s < n,
                n == data.mat().len(),
                k == centers.mat().len(),
                data.wf(),
                centers.wf(),
                centers.cols == data.cols,
                (min_distance, min_index) == nearest_prefix(
                    data.mat()[s as int],
                    centers.mat(),
                    c as int,
                ),
            decreases k - c,
        {
            let distance = euclidean_distance(&data.elems[s], &centers.elems[c]);
            assert(data.elems@[s as int]@ == data.mat()[s as int]);
            assert(centers.elems@[c as int]@ == centers.mat()[c as int]);
            if lt32(distance, min_distance) {
                min_distance = distance;
                min_index = c;
            }
            c = c + 1;
        }
        indices[s] = min_index;
        s = s + 1;
    }
    proof {
        assert(indices@ =~= assign_spec(data.mat(), centers.mat()));
        if centers.mat().len() >= 1 {
            lemma_assign_labels_in_range(data.mat(), centers.mat());
        }
    }
}

// ------------------------------------------------------------------------
// Update step
// ------------------------------------------------------------------------

/// The sample indices among the first `n` whose label equals `k`, in
/// increasing order.
pub open spec fn members_prefix(labels: Seq<usize>, k: usize, n: int) -> Seq<usize>
    decreases n,
{
    if n <= 0 {
        Seq::empty()
    } else {
        let pre = members_prefix(labels, k, n - 1);
        if labels[n - 1] == k {
            pre.push((n - 1) as usize)
        } else {
            pre
        }
    }
}

/// The sample indices whose label equals `k`, in increasing order.
pub open spec fn members_of(labels: Seq<usize>, k: usize) -> Seq<usize> {
    members_prefix(labels, k, labels.len() as int)
}

/// The running sum, over the first `t` member rows, of column `j`, folded
/// left in IEEE single-precision arithmetic starting from positive zero.
pub open spec fn col_sum_prefix(data: Seq<Seq<u32>>, members: Seq<usize>, j: int, t: int) -> u32
    decreases t,
{
    if t <= 0 {
        0u32
    } else {
        add_bits(col_sum_prefix(data, members, j, t - 1), data[members[t - 1] as int][j])
    }
}

/// The coordinate-wise mean of the member rows: each column's sum divided
/// by the member count converted to single precision. With no members the
/// division is zero by zero, and every coordinate is a NaN bit pattern,
/// which is allowed to propagate.
pub open spec fn mean_row(data: Seq<Seq<u32>>, members: Seq<usize>, cols: nat) -> Seq<u32> {
    Seq::new(
        cols,
        |j: int|
            div_bits(
                col_sum_prefix(data, members, j, members.len() as int),
                from_usize_bits(members.len() as usize),
            ),
    )
}

/// The update step over the first `n` clusters: each processed cluster's
/// center is overwritten with its mean row, and the reported scalar is the
/// running minimum (under IEEE `<`, starting from positive infinity) of the
/// distances from each old center to its new mean.
pub open spec fn update_prefix(
    data: Seq<Seq<u32>>,
    labels: Seq<usize>,
    centers: Seq<Seq<u32>>,
    cols: nat,
    n: int,
) -> (Seq<Seq<u32>>, u32)
    decreases n,
{
    if n <= 0 {
        (centers, INF_BITS)
    } else {
        let prev = update_prefix(data, labels, centers, cols, n - 1);
        let m = mean_row(data, members_of(labels, (n - 1) as usize), cols);
        let d = dist_bits(centers[n - 1], m);
        (prev.0.update(n - 1, m), if lt_bits(d, prev.1) {
            d
        } else {
            prev.1
        })
    }
}

/// What the update step leaves behind: the new center matrix and the
/// reported change scalar.
pub open spec fn update_spec(
    data: Seq<Seq<u32>>,
    labels: Seq<usize>,
    centers: Seq<Seq<u32>>,
    cols: nat,
    k: usize,
) -> (Seq<Seq<u32>>, u32) {
    update_prefix(data, labels, centers, cols, k as int)
}

/// The member list holds exactly one sample row, every coordinate of which
/// an IEEE sum with zero and an IEEE quotient by one leave unchanged (that
/// is, none is a NaN or the negative zero).
pub open spec fn singleton_preserved(data: Seq<Seq<u32>>, members: Seq<usize>, cols: nat) -> bool {
    &&& members.len() == 1
    &&& members[0] < data.len()
    &&& forall|j: int| 0 <= j < cols ==> preserved_bits(#[trigger] data[members[0] as int][j])
}

/// The update fold touches only the clusters it has processed: rows at or
/// beyond `n` still hold their original centers.
pub proof fn lemma_update_prefix_untouched(
    data: Seq<Seq<u32>>,
    labels: Seq<usize>,
    centers: Seq<Seq<u32>>,
    cols: nat,
    n: int,
)
    requires
        n <= centers.len(),
    ensures
        update_prefix(data, labels, centers, cols, n).0.len() == centers.len(),
        forall|j: int|
            n <= j < centers.len() ==> #[trigger] update_prefix(
                data,
                labels,
                centers,
                cols,
                n,
            ).0[j] == centers[j],
    decreases n,
{
    if n > 0 {
        lemma_update_prefix_untouched(data, labels, centers, cols, n - 1);
    }
}

/// Collects, in increasing order, the indices whose label equals `k`.
fn collect_members(indices: &Vec<usize>, k: usize) -> (r: Vec<usize>)
    ensures
        r@ == members_of(indices@, k),
        forall|t: int| 0 <= t < r@.len() ==> #[trigger] r@[t] < indices@.len(),
{
    let mut r: Vec<usize> = Vec::new();
    let mut i: usize = 0;
    while i < indices.len()
        invariant
            i <= indices@.len(),
            r@ == members_prefix(indices@, k, i as int),
            forall|t: int| 0 <= t < r@.len() ==> #[trigger] r@[t] < i,
        decreases indices@.len() - i,
    {
        if indices[i] == k {
            r.push(i);
        }
        i = i + 1;
    }
    r
}

/// The coordinate-wise mean of the member rows of `data`. With exactly one
/// well-behaved member row, the mean is that row itself, bit for bit.
fn cluster_mean(data: &Matrix, members: &Vec<usize>) -> (r: Vec<u32>)
    requires
        data.wf(),
        forall|t: int| 0 <= t < members@.len() ==> #[trigger] members@[t] < data.mat().len(),
    ensures
        r@ == mean_row(data.mat(), members@, data.cols as nat),
        singleton_preserved(data.mat(), members@, data.cols as nat) ==> r@ == data.mat()[members@[0] as int],
{
    let cols = data.ncols();
    let mut c: Vec<u32> = vec![0u32; cols];
    let mut t: usize = 0;
    while t < members.len()
        invariant
            t <= members@.len(),
            cols == data.cols,
            c@.len() == cols,
            data.wf(),
            forall|u: int| 0 <= u < members@.len() ==> #[trigger] members@[u] < data.mat().len(),
            forall|j: int|
                0 <= j < cols ==> #[trigger] c@[j] == col_sum_prefix(
                    data.mat(),
                    members@,
                    j,
                    t as int,
                ),
            singleton_preserved(data.mat(), members@, data.cols as nat) && t == 1 ==> forall|
                q: int,
            |
                0 <= q < cols ==> #[trigger] c@[q] == data.mat()[members@[0] as int][q],
        decreases members@.len() - t,
    {
        let ri = members[t];
        assert(data.elems@[ri as int]@.len() == data.cols);
        let mut j: usize = 0;
        while j < cols
            invariant
                j <= cols,
                cols == data.cols,
                c@.len() == cols,
                data.wf(),
                t < members@.len(),
                ri == members@[t as int],
                ri < data.mat().len(),
                forall|q: int|
                    0 <= q < j ==> #[trigger] c@[q] == col_sum_prefix(
                        data.mat(),
                        members@,
                        q,
                        t as int + 1,
                    ),
                forall|q: int|
                    j <= q < cols ==> #[trigger] c@[q] == col_sum_prefix(
                        data.mat(),
                        members@,
                        q,
                        t as int,
                    ),
                singleton_preserved(data.mat(), members@, data.cols as nat) && t == 0 ==> forall|
                    q: int,
                |
                    0 <= q < j ==> #[trigger] c@[q] == data.mat()[members@[0] as int][q],
            decreases cols - j,
        {
            assert(data.elems@[ri as int]@.len() == data.cols);
            let v = add32(c[j], data.elems[ri][j]);
            c[j] = v;
            assert(data.mat()[ri as int][j as int] == data.elems@[ri as int]@[j as int]);
            j = j + 1;
        }
        t = t + 1;
    }
    let denom = from_usize32(members.len());
    let ghost sums = c@;
    let mut j: usize = 0;
    while j < cols
        invariant
            j <= cols,
            cols == data.cols,
            c@.len() == cols,
            sums.len() == cols,
            data.wf(),
            denom == from_usize_bits(members@.len() as usize),
            members@.len() == 1 ==> denom == ONE_BITS,
            forall|q: int|
                0 <= q < j ==> #[trigger] c@[q] == div_bits(
                    col_sum_prefix(data.mat(), members@, q, members@.len() as int),
                    from_usize_bits(members@.len() as usize),
                ),
            forall|q: int|
                j <= q < cols ==> #[trigger] c@[q] == col_sum_prefix(
                    data.mat(),
                    members@,
                    q,
                    members@.len() as int,
                ),
            forall|q: int| j <= q < cols ==> #[trigger] c@[q] == sums[q],
            singleton_preserved(data.mat(), members@, data.cols as nat) ==> forall|q: int|
                0 <= q < cols ==> #[trigger] sums[q] == data.mat()[members@[0] as int][q],
            singleton_preserved(data.mat(), members@, data.cols as nat) ==> forall|q: int|
                0 <= q < j ==> #[trigger] c@[q] == data.mat()[members@[0] as int][q],
        decreases cols - j,
    {
        let v = div32(c[j], denom);
        c[j] = v;
        j = j + 1;
    }
    proof {
        assert(c@ =~= mean_row(data.mat(), members@, data.cols as nat));
        if singleton_preserved(data.mat(), members@, data.cols as nat) {
            assert(c@ =~= data.mat()[members@[0] as int]);
        }
    }
    c
}

/// For every cluster index in `[0, n_clusters)`: gathers the samples
/// labelled with it, recomputes the center as their coordinate-wise mean,
/// and overwrites it; returns the minimum distance moved by any center (the
/// engine reports this scalar as its "max change").
pub fn update_centers(
    data: &Matrix,
    centers: &mut Matrix,
    indices: &Vec<usize>,
    n_clusters: usize,
) -> (r: u32)
    requires
        data.wf(),
        old(centers).wf(),
        old(centers).cols == data.cols,
        old(centers).mat().len() == n_clusters,
        indices@.len() == data.mat().len(),
    ensures
        final(centers).wf(),
        final(centers).cols == data.cols,
        final(centers).mat() == update_spec(
            data.mat(),
            indices@,
            old(centers).mat(),
            data.cols as nat,
            n_clusters,
        ).0,
        r == update_spec(data.mat(), indices@, old(centers).mat(), data.cols as nat, n_clusters).1,
        forall|k2: usize|
            k2 < n_clusters && singleton_preserved(
                data.mat(),
                #[trigger] members_of(indices@, k2),
                data.cols as nat,
            ) ==> final(centers).mat()[k2 as int] == data.mat()[members_of(
                indices@,
                k2,
            )[0] as int],
{
    let mut max_change: u32 = INF_BITS;
    let mut k: usize = 0;
    while k < n_clusters
        invariant
            k <= n_clusters,
            data.wf(),
            centers.wf(),
            centers.cols == data.cols,
            centers.mat().len() == n_clusters,
            old(centers).mat().len() == n_clusters,
            indices@.len() == data.mat().len(),
            centers.mat() == update_prefix(
                data.mat(),
                indices@,
                old(centers).mat(),
                data.cols as nat,
                k as int,
            ).0,
            max_change == update_prefix(
                data.mat(),
                indices@,
                old(centers).mat(),
                data.cols as nat,
                k as int,
            ).1,
            forall|k2: usize|
                k2 < k && singleton_preserved(
                    data.mat(),
                    #[trigger] members_of(indices@, k2),
                    data.cols as nat,
                ) ==> centers.mat()[k2 as int] == data.mat()[members_of(indices@, k2)[0] as int],
        decreases n_clusters - k,
    {
        let matched = collect_members(indices, k);
        let c = cluster_mean(data, &matched);
        proof {
            lemma_update_prefix_untouched(
                data.mat(),
                indices@,
                old(centers).mat(),
                data.cols as nat,
                k as int,
            );
            assert(centers.mat()[k as int] == old(centers).mat()[k as int]);
            assert(centers.elems@[k as int]@ == centers.mat()[k as int]);
        }
        let distance = euclidean_distance(&centers.elems[k], &c);
        centers.set_row(k, c);
        if lt32(distance, max_change) {
            max_change = distance;
        }
        k = k + 1;
    }
    max_change
}

// ------------------------------------------------------------------------
// Uniform-random initialization
// ------------------------------------------------------------------------

/// `centers` is a uniform-random initialization of `k` centers from `data`
/// drawn through `idx`: `k` distinct row indices, each center a copy of its
/// data row, in the order sampled.
pub open spec fn uniform_init_ok(
    idx: Seq<usize>,
    data: Seq<Seq<u32>>,
    k: usize,
    centers: Seq<Seq<u32>>,
) -> bool {
    &&& idx.len() == k
    &&& forall|i: int| 0 <= i < idx.len() ==> #[trigger] idx[i] < data.len()
    &&& forall|i: int, j: int| 0 <= i < j < idx.len() ==> idx[i] != idx[j]
    &&& centers.len() == k
    &&& forall|i: int| 0 <= i < idx.len() ==> #[trigger] centers[i] == data[idx[i] as int]
}

/// Copies `n_cluster` rows of `data`, drawn without replacement (so no
/// source row is ever selected twice), into a fresh center matrix, in the
/// order sampled.
pub fn random_centers(data: &Matrix, n_cluster: usize, rng: &mut rand::rngs::StdRng) -> (r: Matrix)
    requires
        data.wf(),
        n_cluster <= data.mat().len(),
    ensures
        r.wf(),
        r.cols == data.cols,
        r.mat().len() == n_cluster,
        exists|idx: Seq<usize>| uniform_init_ok(idx, data.mat(), n_cluster, r.mat()),
{
    let n_rows = data.nrows();
    let indices = sample_indices(rng, n_rows, n_cluster);
    let mut selected_rows = Matrix::zeros(n_cluster, data.ncols());
    let mut i: usize = 0;
    while i < indices.len()
        invariant
            i <= indices@.len(),
            indices@.len() == n_cluster,
            data.wf(),
            selected_rows.wf(),
            selected_rows.cols == data.cols,
            selected_rows.mat().len() == n_cluster,
            forall|p: int| 0 <= p < indices@.len() ==> #[trigger] indices@[p] < data.mat().len(),
            forall|p: int|
                0 <= p < i ==> #[trigger] selected_rows.mat()[p] == data.mat()[indices@[p] as int],
        decreases indices@.len() - i,
    {
        let row = data.row(indices[i]);
        selected_rows.set_row(i, row);
        i = i + 1;
    }
    proof {
        assert(uniform_init_ok(indices@, data.mat(), n_cluster, selected_rows.mat()));
    }
    selected_rows
}

// ------------------------------------------------------------------------
// K-means++ initialization (sum-of-distances farthest-point variant)
// ------------------------------------------------------------------------

/// The running sum, over the first `m` center rows, of the distance from
/// `row`, folded left in IEEE single-precision arithmetic starting from
/// positive zero.
pub open spec fn sum_dist_prefix(row: Seq<u32>, centers: Seq<Seq<u32>>, m: int) -> u32
    decreases m,
{
    if m <= 0 {
        0u32
    } else {
        add_bits(sum_dist_prefix(row, centers, m - 1), dist_bits(row, centers[m - 1]))
    }
}

/// The farthest-point scan over the first `n` sample rows, against the
/// first `m` center rows: rows already chosen are skipped; for the rest,
/// the summed distance is compared (IEEE `>`, starting from negative one,
/// so the first row wins ties) and the running best is kept. The third
/// component records whether any comparison ever selected a row; when none
/// did, the scan falls through to index zero.
pub open spec fn pp_scan(
    data: Seq<Seq<u32>>,
    centers: Seq<Seq<u32>>,
    chosen: Seq<usize>,
    m: int,
    n: int,
) -> (u32, usize, bool)
    decreases n,
{
    if n <= 0 {
        (NEG_ONE_BITS, 0usize, false)
    } else {
        let prev = pp_scan(data, centers, chosen, m, n - 1);
        if chosen.contains((n - 1) as usize) {
            prev
        } else {
            let cd = sum_dist_prefix(data[n - 1], centers, m);
            if gt_bits(cd, prev.0) {
                (cd, (n - 1) as usize, true)
            } else {
                prev
            }
        }
    }
}

/// The center matrix as it stands before any farthest-point step: all
/// zeros, except that with at least two clusters the first chosen row is
/// written into center row one — not row zero, which keeps its zeros until
/// the update step first overwrites it; with a single cluster the chosen
/// row is not written at all. This reproduces the engine's historical
/// seeding layout.
pub open spec fn pp_init_centers(data: Seq<Seq<u32>>, k: usize, cols: nat, first: usize) -> Seq<
    Seq<u32>,
> {
    let zeros = Seq::new(k as nat, |i: int| Seq::new(cols, |j: int| 0u32));
    if k >= 2 {
        zeros.update(1, data[first as int])
    } else {
        zeros
    }
}

/// The chosen rows and the center matrix after the first `t` farthest-point
/// steps: step `t` scans against center rows `0..t`, appends the selected
/// row index to the chosen list, and writes that data row into center row
/// `t`.
pub open spec fn pp_state(data: Seq<Seq<u32>>, k: usize, cols: nat, first: usize, t: int) -> (
    Seq<usize>,
    Seq<Seq<u32>>,
)
    decreases t,
{
    if t <= 0 {
        (seq![first], pp_init_centers(data, k, cols, first))
    } else {
        let prev = pp_state(data, k, cols, first, t - 1);
        let sel = pp_scan(data, prev.1, prev.0, t, data.len() as int);
        (prev.0.push(sel.1), prev.1.update(t, data[sel.1 as int]))
    }
}

/// `centers` is a k-means++ initialization of `k` centers from `data`
/// whose first chosen row is `first`.
pub open spec fn pp_init_ok(
    first: usize,
    data: Seq<Seq<u32>>,
    k: usize,
    cols: nat,
    centers: Seq<Seq<u32>>,
) -> bool {
    &&& first < data.len()
    &&& centers == pp_state(data, k, cols, first, k - 1).1
}

/// The index a farthest-point scan selects lies below `n` (and is zero when
/// there are no rows at all).
pub proof fn lemma_pp_scan_bound(
    data: Seq<Seq<u32>>,
    centers: Seq<Seq<u32>>,
    chosen: Seq<usize>,
    m: int,
    n: int,
)
    ensures
        n >= 1 ==> pp_scan(data, centers, chosen, m, n).1 < n,
        n < 1 ==> pp_scan(data, centers, chosen, m, n).1 == 0,
    decreases n,
{
    if n >= 1 {
        lemma_pp_scan_bound(data, centers, chosen, m, n - 1);
    }
}

/// Whenever the farthest-point scan selected a row by a fired comparison,
/// that row is not among the already-chosen ones: the scan never revisits a
/// chosen row. When no comparison ever fired, the scan is left at its
/// starting state, whose fallback index is zero.
pub proof fn lemma_pp_scan_fresh(
    data: Seq<Seq<u32>>,
    centers: Seq<Seq<u32>>,
    chosen: Seq<usize>,
    m: int,
    n: int,
)
    ensures
        pp_scan(data, centers, chosen, m, n).2 ==> !chosen.contains(
            pp_scan(data, centers, chosen, m, n).1,
        ),
        !pp_scan(data, centers, chosen, m, n).2 ==> pp_scan(data, centers, chosen, m, n) == (
            NEG_ONE_BITS,
            0usize,
            false,
        ),
    decreases n,
{
    if n >= 1 {
        lemma_pp_scan_fresh(data, centers, chosen, m, n - 1);
    }
}

/// Returns whether `v` holds `x`.
fn contains_usize(v: &Vec<usize>, x: usize) -> (r: bool)
    ensures
        r == v@.contains(x),
{
    let mut i: usize = 0;
    while i < v.len()
        invariant
            i <= v@.len(),
            forall|t: int| 0 <= t < i ==> v@[t] != x,
        decreases v@.len() - i,
    {
        if v[i] == x {
            return true;
        }
        i = i + 1;
    }
    false
}

/// Selects `n_cluster` centers by the engine's sum-of-distances
/// farthest-point heuristic: the first row is drawn at random, and each
/// subsequent center is the not-yet-chosen row whose summed distance to all
/// centers seeded so far is largest (first row wins ties). The historical
/// seeding layout is kept: the first chosen row goes to center row one (and
/// with `n_cluster == 1` is not written at all), so center row zero stays
/// zero until the first update step.
pub fn kmeans_pp(data: &Matrix, n_cluster: usize, rng: &mut rand::rngs::StdRng) -> (r: Matrix)
    requires
        data.wf(),
        data.mat().len() >= 1,
        n_cluster >= 1,
    ensures
        r.wf(),
        r.cols == data.cols,
        r.mat().len() == n_cluster,
        exists|first: usize|
            #[trigger] pp_init_ok(first, data.mat(), n_cluster, data.cols as nat, r.mat()),
{
    let n_rows = data.nrows();
    let mut chosen_points: Vec<usize> = Vec::new();
    let mut centers = Matrix::zeros(n_cluster, data.ncols());

    let first = gen_index(rng, n_rows);
    chosen_points.push(first);
    if n_cluster >= 2 {
        let row = data.row(first);
        centers.set_row(1, row);
    }
    proof {
        assert(centers.mat() =~~= pp_init_centers(
            data.mat(),
            n_cluster,
            data.cols as nat,
            first,
        ));
        assert(chosen_points@ =~= seq![first]);
    }

    let mut i_center: usize = 1;
    while i_center < n_cluster
        invariant
            1 <= i_center,
            n_cluster >= 1,
            i_center <= n_cluster || (n_cluster == 1 && i_center == 1),
            data.wf(),
            data.mat().len() == n_rows,
            n_rows >= 1,
            first < n_rows,
            centers.wf(),
            centers.cols == data.cols,
            centers.mat().len() == n_cluster,
            chosen_points@ == pp_state(
                data.mat(),
                n_cluster,
                data.cols as nat,
                first,
                i_center - 1,
            ).0,
            centers.mat() == pp_state(
                data.mat(),
                n_cluster,
                data.cols as nat,
                first,
                i_center - 1,
            ).1,
        decreases n_cluster - i_center,
    {
        let mut max_dist: u32 = NEG_ONE_BITS;
        let mut max_index: usize = 0;
        let mut i_sample: usize = 0;
        while i_sample < n_rows
            invariant
                i_sample <= n_rows,
                i_center < n_cluster,
                data.wf(),
                data.mat().len() == n_rows,
                centers.wf(),
                centers.cols == data.cols,
                centers.mat().len() == n_cluster,
                max_dist == pp_scan(
                    data.mat(),
                    centers.mat(),
                    chosen_points@,
                    i_center as int,
                    i_sample as int,
                ).0,
                max_index == pp_scan(
                    data.mat(),
                    centers.mat(),
                    chosen_points@,
                    i_center as int,
                    i_sample as int,
                ).1,
            decreases n_rows - i_sample,
        {
            if !contains_usize(&chosen_points, i_sample) {
                let mut c_dist: u32 = 0;
                let mut p: usize = 0;
                while p < i_center
                    invariant
                        p <= i_center,
                        i_center < n_cluster,
                        i_sample < n_rows,
                        data.wf(),
                        data.mat().len() == n_rows,
                        centers.wf(),
                        centers.cols == data.cols,
                        centers.mat().len() == n_cluster,
                        c_dist == sum_dist_prefix(
                            data.mat()[i_sample as int],
                            centers.mat(),
                            p as int,
                        ),
                    decreases i_center - p,
                {
                    assert(data.elems@[i_sample as int]@ == data.mat()[i_sample as int]);
                    assert(centers.elems@[p as int]@ == centers.mat()[p as int]);
                    let d = euclidean_distance(&data.elems[i_sample], &centers.elems[p]);
                    c_dist = add32(c_dist, d);
                    p = p + 1;
                }
                if gt32(c_dist, max_dist) {
                    max_dist = c_dist;
                    max_index = i_sample;
                }
            }
            i_sample = i_sample + 1;
        }
        proof {
            lemma_pp_scan_bound(
                data.mat(),
                centers.mat(),
                chosen_points@,
                i_center as int,
                n_rows as int,
            );
        }
        chosen_points.push(max_index);
        let row = data.row(max_index);
        centers.set_row(i_center, row);
        i_center = i_center + 1;
    }
    proof {
        assert(pp_init_ok(first, data.mat(), n_cluster, data.cols as nat, centers.mat()));
    }
    centers
}

} // verus!
