//! Symmetry and comparison up to the tolerance of the entries.
use vstd::prelude::*;
use crate::element::ApproxEq;
use crate::model::num_cols;
use super::Matrix;

verus! {

impl<T: Copy + ApproxEq<T>> Matrix<T> {
    /// Whether the matrix is square and each entry below the diagonal counts as
    /// equal to its mirror image above it.
    pub fn is_symmetric(&self) -> (r: bool)
        requires
            self.wf(),
            self@.len() > 0,
        ensures
            r == (self@.len() == num_cols(self@) && forall|i: int, j: int|
                0 <= j < i < self@.len() ==> #[trigger] self@[i][j].approx_eq_spec(&self@[j][i])),
    {
        proof {
            self.lemma_wf_len();
        }
        let no_rows = self.no_rows;
        if no_rows != self.cols() {
            return false;
        }
        let mut row: usize = 1;
        while row < no_rows
            invariant
                self.wf(),
                no_rows == self@.len(),
                no_rows == num_cols(self@),
                1 <= row <= no_rows,
                forall|i: int, j: int| 0 <= j < i < row ==> #[trigger] self@[i][j].approx_eq_spec(&self@[j][i]),
            decreases no_rows - row,
        {
            let mut col: usize = 0;
            while col < row
                invariant
                    self.wf(),
                    no_rows == self@.len(),
                    no_rows == num_cols(self@),
                    1 <= row < no_rows,
                    col <= row,
                    forall|i: int, j: int| 0 <= j < i < row ==> #[trigger] self@[i][j].approx_eq_spec(&self@[j][i]),
                    forall|j: int| 0 <= j < col ==> #[trigger] self@[row as int][j].approx_eq_spec(&self@[j][row as int]),
                decreases row - col,
            {
                if !self.get(row, col).approx_eq(self.get_ref(col, row)) {
                    return false;
                }
                col = col + 1;
            }
            row = row + 1;
        }
        true
    }

    /// Whether the matrix is not symmetric.
    pub fn is_non_symmetric(&self) -> (r: bool)
        requires
            self.wf(),
            self@.len() > 0,
        ensures
            r == !(self@.len() == num_cols(self@) && forall|i: int, j: int|
                0 <= j < i < self@.len() ==> #[trigger] self@[i][j].approx_eq_spec(&self@[j][i])),
    {
        !self.is_symmetric()
    }

    /// Whether `m` has the same shape and each of its entries counts as equal to
    /// the entry of this matrix at the same place.
    pub fn approx_eq(&self, m: &Matrix<T>) -> (r: bool)
        requires
            self.wf(),
            m.wf(),
            self@.len() > 0 || m@.len() > 0,
        ensures
            r == (self@.len() == m@.len() && num_cols(self@) == num_cols(m@) && forall|i: int, j: int|
                0 <= i < self@.len() && 0 <= j < num_cols(self@) ==> #[trigger] self@[i][j].approx_eq_spec(&m@[i][j])),
    {
        proof {
            self.lemma_wf_len();
            m.lemma_wf_len();
        }
        if self.rows() != m.rows() || self.cols() != m.cols() {
            return false;
        }
        let elems = self.data.len();
        let mut i: usize = 0;
        while i < elems
            invariant
                self.wf(),
                m.wf(),
                self.nrows() == m.nrows(),
                self.ncols() == m.ncols(),
                self@.len() > 0,
                elems == self.flat().len(),
                elems == m.flat().len(),
                i <= elems,
                forall|k: int| 0 <= k < i ==> #[trigger] self.flat()[k].approx_eq_spec(&m.flat()[k]),
            decreases elems - i,
        {
            if !self.data[i].approx_eq(&m.data[i]) {
                proof {
                    let (a, b) = self.lemma_flat_index(i as int);
                    m.lemma_entry(a, b);
                }
                return false;
            }
            i = i + 1;
        }
        proof {
            assert forall|a: int, b: int| 0 <= a < self@.len() && 0 <= b < num_cols(self@) implies #[trigger] self@[a][b].approx_eq_spec(&m@[a][b]) by {
                self.lemma_entry(a, b);
                m.lemma_entry(a, b);
            }
        }
        true
    }
}

} // verus!
