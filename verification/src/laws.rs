//! Engine-wide laws, each proved from the contracts the modules state.

use vstd::prelude::*;

use crate::engine::fit_result;
use crate::utils::{
    assign_spec, uniform_init_ok, pp_state, pp_scan, lemma_pp_scan_fresh,
};

verus! {

/// Uniform-random initialization never selects the same source row twice
/// within one initialization call: the drawn index list behind any center
/// matrix it can produce is free of repeats.
pub proof fn lemma_uniform_init_distinct(
    idx: Seq<usize>,
    data: Seq<Seq<u32>>,
    k: usize,
    centers: Seq<Seq<u32>>,
)
    requires
        uniform_init_ok(idx, data, k, centers),
    ensures
        forall|i: int, j: int| 0 <= i < j < idx.len() ==> idx[i] != idx[j],
{
}

/// Whether, at farthest-point step `t`, the scan's comparison fired for at
/// least one candidate row (it always does when every summed distance is an
/// ordinary non-negative number, but a dataset holding NaN coordinates can
/// leave every comparison false).
pub open spec fn pp_fired(data: Seq<Seq<u32>>, k: usize, cols: nat, first: usize, t: int) -> bool {
    pp_scan(
        data,
        pp_state(data, k, cols, first, t - 1).1,
        pp_state(data, k, cols, first, t - 1).0,
        t,
        data.len() as int,
    ).2
}

/// K-means++ initialization never revisits an already-chosen row index
/// when selecting subsequent centers: as long as each step's scan selected
/// its row by a fired comparison (see `pp_fired`), the chosen row indices
/// are pairwise distinct.
pub proof fn lemma_pp_no_revisit(data: Seq<Seq<u32>>, k: usize, cols: nat, first: usize, t: int)
    requires
        t >= 0,
        forall|s: int| 1 <= s <= t ==> #[trigger] pp_fired(data, k, cols, first, s),
    ensures
        pp_state(data, k, cols, first, t).0.len() == t + 1,
        forall|i: int, j: int|
            0 <= i < j < t + 1 ==> pp_state(data, k, cols, first, t).0[i] != pp_state(
                data,
                k,
                cols,
                first,
                t,
            ).0[j],
    decreases t,
{
    if t > 0 {
        lemma_pp_no_revisit(data, k, cols, first, t - 1);
        let prev = pp_state(data, k, cols, first, t - 1);
        let sel = pp_scan(data, prev.1, prev.0, t, data.len() as int);
        lemma_pp_scan_fresh(data, prev.1, prev.0, t, data.len() as int);
        assert(pp_fired(data, k, cols, first, t));
        assert(!prev.0.contains(sel.1));
        assert forall|i: int| 0 <= i < prev.0.len() implies prev.0[i] != sel.1 by {
            if prev.0[i] == sel.1 {
                assert(prev.0.contains(sel.1));
            }
        }
    }
}

/// Assignment is idempotent given fixed centers: two assignment passes over
/// the same dataset and the same centers, with no update in between,
/// produce identical labels.
pub proof fn lemma_assignment_idempotent(
    data: Seq<Seq<u32>>,
    centers: Seq<Seq<u32>>,
    l1: Seq<usize>,
    l2: Seq<usize>,
)
    requires
        l1 == assign_spec(data, centers),
        l2 == assign_spec(data, centers),
    ensures
        l1 == l2,
{
}

/// The engine is deterministic once the randomness source's draws are
/// fixed: two convergence loops run from the same dataset, configuration
/// and initial centers return identical labels, identical iteration counts
/// and identical change scalars.
pub proof fn lemma_fit_deterministic(
    data: Seq<Seq<u32>>,
    c0: Seq<Seq<u32>>,
    k: usize,
    cols: nat,
    tol: u32,
    max_iter: i32,
    r1: (Seq<usize>, Seq<Seq<u32>>, i32, u32),
    r2: (Seq<usize>, Seq<Seq<u32>>, i32, u32),
)
    requires
        r1 == fit_result(data, c0, k, cols, tol, max_iter),
        r2 == fit_result(data, c0, k, cols, tol, max_iter),
    ensures
        r1 == r2,
{
}

} // verus!
