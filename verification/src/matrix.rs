//! A rectangular, row-major matrix of IEEE-754 single-precision bit
//! patterns. It stands in for the dataset handed to the engine and for the
//! center matrix the engine refines.

use vstd::prelude::*;

verus! {

/// A rectangular matrix: every row has exactly `cols` entries, each the
/// bit pattern of an IEEE-754 single-precision number.
pub struct Matrix {
    pub cols: usize,
    pub elems: Vec<Vec<u32>>,
}

impl Matrix {
    /// Rectangularity: every row has exactly `cols` entries.
    pub open spec fn wf(&self) -> bool {
        forall|i: int| 0 <= i < self.elems@.len() ==> (#[trigger] self.elems@[i])@.len() == self.cols
    }

    /// The matrix as a sequence of rows.
    pub open spec fn mat(&self) -> Seq<Seq<u32>> {
        Seq::new(self.elems@.len(), |i: int| self.elems@[i]@)
    }

    pub open spec fn spec_nrows(&self) -> usize {
        self.elems.len()
    }

    #[verifier::when_used_as_spec(spec_nrows)]
    pub fn nrows(&self) -> (r: usize)
        ensures
            r == self.mat().len(),
    {
        self.elems.len()
    }

    pub fn ncols(&self) -> (r: usize)
        ensures
            r == self.cols,
    {
        self.cols
    }

    /// A `rows` by `cols` matrix with every entry zero (the bit pattern of
    /// positive zero is `0`).
    pub fn zeros(rows: usize, cols: usize) -> (r: Matrix)
        ensures
            r.wf(),
            r.cols == cols,
            r.mat().len() == rows,
            forall|i: int, j: int|
                0 <= i < rows && 0 <= j < cols ==> #[trigger] r.mat()[i][j] == 0u32,
    {
        let mut elems: Vec<Vec<u32>> = Vec::new();
        let mut i: usize = 0;
        while i < rows
            invariant
                i <= rows,
                elems@.len() == i,
                forall|p: int| 0 <= p < i ==> (#[trigger] elems@[p])@.len() == cols,
                forall|p: int, q: int|
                    0 <= p < i && 0 <= q < cols ==> #[trigger] elems@[p]@[q] == 0u32,
            decreases rows - i,
        {
            let row: Vec<u32> = vec![0u32; cols];
            elems.push(row);
            i = i + 1;
        }
        Matrix { cols, elems }
    }

    /// A copy of row `i`.
    pub fn row(&self, i: usize) -> (r: Vec<u32>)
        requires
            i < self.mat().len(),
        ensures
            r@ == self.mat()[i as int],
    {
        clone_row(&self.elems[i])
    }

    /// Overwrites row `i` with `row`.
    pub fn set_row(&mut self, i: usize, row: Vec<u32>)
        requires
            i < old(self).mat().len(),
            row@.len() == old(self).cols,
        ensures
            final(self).cols == old(self).cols,
            final(self).mat() == old(self).mat().update(i as int, row@),
            old(self).wf() ==> final(self).wf(),
    {
        let ghost old_mat = self.mat();
        self.elems[i] = row;
        proof {
            assert(self.mat() =~= old_mat.update(i as int, row@));
        }
    }
}

/// An element-wise copy of a row.
pub fn clone_row(v: &Vec<u32>) -> (r: Vec<u32>)
    ensures
        r@ == v@,
{
    let mut r: Vec<u32> = Vec::new();
    let mut i: usize = 0;
    while i < v.len()
        invariant
            i <= v.len(),
            r@ == v@.take(i as int),
        decreases v.len() - i,
    {
        r.push(v[i]);
        proof {
            assert(r@ =~= v@.take(i as int + 1));
        }
        i = i + 1;
    }
    proof {
        assert(v@.take(v@.len() as int) =~= v@);
    }
    r
}

} // verus!
