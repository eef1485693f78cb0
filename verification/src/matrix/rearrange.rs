//! Rearranging rows and columns: joining, cutting out and picking.
use vstd::prelude::*;
use crate::model::{beside, column_of, minor_of, num_cols, pick_cols, pick_rows, skip_index, true_indices, window};
use super::{Matrix, lemma_index, lemma_take_flatten_step, lemma_push_entry, true_positions};

verus! {

impl<T: Copy> Matrix<T> {
    /// The matrix with the columns of `m` appended to the right of these columns.
    #[verifier::loop_isolation(false)]
    pub fn cr(&self, m: &Matrix<T>) -> (r: Matrix<T>)
        requires
            self.wf(),
            m.wf(),
            self@.len() == m@.len(),
            self@.len() * num_cols(self@) + m@.len() * num_cols(m@) <= usize::MAX,
        ensures
            r.wf(),
            r@ == beside(self@, m@),
    {
        proof {
            self.lemma_wf_len();
            m.lemma_wf_len();
        }
        let ghost exp = beside(self@, m@);
        let no_rows = self.no_rows;
        let n1 = self.data.len();
        let n2 = m.data.len();
        let elems = n1 + n2;
        let mut d: Vec<T> = Vec::with_capacity(elems);
        let mut src_idx1: usize = 0;
        let mut src_idx2: usize = 0;
        let mut row: usize = 0;
        while row < no_rows
            invariant
                row <= no_rows,
                src_idx1 == row * self.ncols(),
                src_idx2 == row * m.ncols(),
                d@ == exp.take(row as int).flatten(),
            decreases no_rows - row,
        {
            let cols1 = self.cols();
            let mut k: usize = 0;
            while k < cols1
                invariant
                    k <= cols1,
                    src_idx1 == row * cols1 + k,
                    d@ == exp.take(row as int).flatten() + self@[row as int].take(k as int),
                decreases cols1 - k,
            {
                proof {
                    self.lemma_entry(row as int, k as int);
                    assert(src_idx1 < n1);
                    lemma_push_entry(exp.take(row as int).flatten(), self@[row as int], k as int);
                }
                d.push(self.data[src_idx1]);
                src_idx1 = src_idx1 + 1;
                k = k + 1;
            }
            let cols2 = m.cols();
            let mut k: usize = 0;
            while k < cols2
                invariant
                    k <= cols2,
                    src_idx1 == row * cols1 + cols1,
                    src_idx2 == row * cols2 + k,
                    d@ == (exp.take(row as int).flatten() + self@[row as int]) + m@[row as int].take(k as int),
                decreases cols2 - k,
            {
                proof {
                    m.lemma_entry(row as int, k as int);
                    assert(src_idx2 < n2);
                    lemma_push_entry(exp.take(row as int).flatten() + self@[row as int], m@[row as int], k as int);
                }
                d.push(m.data[src_idx2]);
                src_idx2 = src_idx2 + 1;
                k = k + 1;
            }
            proof {
                assert(self@[row as int].take(cols1 as int) =~= self@[row as int]);
                assert(m@[row as int].take(cols2 as int) =~= m@[row as int]);
                lemma_take_flatten_step(exp, row as int);
                assert(d@ =~= exp.take(row + 1).flatten());
                assert((row + 1) * cols1 == row * cols1 + cols1) by (nonlinear_arith);
                assert((row + 1) * cols2 == row * cols2 + cols2) by (nonlinear_arith);
            }
            row = row + 1;
        }
        let r = Matrix { no_rows: no_rows, data: d };
        proof {
            assert(exp.take(no_rows as int) =~= exp);
            r.lemma_from_rows(exp, num_cols(self@) + num_cols(m@));
        }
        r
    }

    /// The matrix with the rows of `m` appended below these rows.
    #[verifier::loop_isolation(false)]
    pub fn cb(&self, m: &Matrix<T>) -> (r: Matrix<T>)
        requires
            self.wf(),
            m.wf(),
            self@.len() > 0,
            m@.len() > 0,
            num_cols(self@) == num_cols(m@),
            self@.len() + m@.len() <= usize::MAX,
            self@.len() * num_cols(self@) + m@.len() * num_cols(m@) <= usize::MAX,
        ensures
            r.wf(),
            r@ == self@ + m@,
    {
        proof {
            self.lemma_wf_len();
            m.lemma_wf_len();
            self.lemma_flat_rows();
            m.lemma_flat_rows();
        }
        let n1 = self.data.len();
        let n2 = m.data.len();
        let elems = n1 + n2;
        let mut d: Vec<T> = Vec::with_capacity(elems);
        let mut i: usize = 0;
        while i < n1
            invariant
                i <= n1,
                d@ == self.data@.take(i as int),
            decreases n1 - i,
        {
            proof {
                lemma_push_entry(Seq::<T>::empty(), self.data@, i as int);
                assert(Seq::<T>::empty() + self.data@.take(i as int) =~= self.data@.take(i as int));
                assert(Seq::<T>::empty() + self.data@.take(i + 1) =~= self.data@.take(i + 1));
            }
            d.push(self.data[i]);
            i = i + 1;
        }
        let mut i: usize = 0;
        while i < n2
            invariant
                i <= n2,
                d@ == self.data@ + m.data@.take(i as int),
            decreases n2 - i,
        {
            proof {
                lemma_push_entry(self.data@, m.data@, i as int);
            }
            d.push(m.data[i]);
            i = i + 1;
        }
        let r = Matrix { no_rows: self.no_rows + m.no_rows, data: d };
        proof {
            assert(self.data@.take(n1 as int) =~= self.data@);
            assert(m.data@.take(n2 as int) =~= m.data@);
            vstd::seq_lib::lemma_flatten_concat(self@, m@);
            assert forall|x: int| 0 <= x < (self@ + m@).len() implies (#[trigger] (self@ + m@)[x]).len() == num_cols(self@) by {
                if x >= self@.len() {
                    assert((self@ + m@)[x] == m@[x - self@.len()]);
                }
            }
            r.lemma_from_rows(self@ + m@, num_cols(self@));
        }
        r
    }

    /// The matrix without row `row` and column `col`.
    #[verifier::loop_isolation(false)]
    pub fn minor(&self, row: usize, col: usize) -> (r: Matrix<T>)
        requires
            self.wf(),
            row < self@.len(),
            col < num_cols(self@),
            self@.len() > 1,
            num_cols(self@) > 1,
        ensures
            r.wf(),
            r@ == minor_of(self@, row as int, col as int),
    {
        proof {
            self.lemma_wf_len();
        }
        let ghost exp = minor_of(self@, row as int, col as int);
        let len = self.data.len();
        let no_rows = self.no_rows;
        let no_cols = self.cols();
        let mut d: Vec<T> = Vec::new();
        let mut source_row_idx: usize = 0;
        let mut current_row: usize = 0;
        while current_row < no_rows
            invariant
                current_row <= no_rows,
                source_row_idx == current_row * no_cols,
                d@ == exp.take(if current_row <= row { current_row as int } else { current_row - 1 }).flatten(),
            decreases no_rows - current_row,
        {
            let ghost done: int = if current_row <= row { current_row as int } else { current_row - 1 };
            proof {
                lemma_index(current_row as int, 0, no_rows as int, no_cols as int);
            }
            if current_row != row {
                let mut current_col: usize = 0;
                while current_col < no_cols
                    invariant
                        current_col <= no_cols,
                        d@ == exp.take(done).flatten() + exp[done].take(if current_col <= col { current_col as int } else { current_col - 1 }),
                    decreases no_cols - current_col,
                {
                    if current_col != col {
                        proof {
                            let cnt: int = if current_col <= col { current_col as int } else { current_col - 1 };
                            self.lemma_entry(current_row as int, current_col as int);
                            assert(skip_index(done, row as int) == current_row);
                            assert(skip_index(cnt, col as int) == current_col);
                            lemma_push_entry(exp.take(done).flatten(), exp[done], cnt);
                            assert(source_row_idx + current_col < len);
                        }
                        d.push(self.data[source_row_idx + current_col]);
                    }
                    current_col = current_col + 1;
                }
                proof {
                    assert(exp[done].take(no_cols - 1) =~= exp[done]);
                    lemma_take_flatten_step(exp, done);
                }
            }
            assert(source_row_idx + no_cols <= len);
            source_row_idx = source_row_idx + no_cols;
            current_row = current_row + 1;
            proof {
                assert((current_row - 1) * no_cols + no_cols == current_row * no_cols) by (nonlinear_arith);
            }
        }
        let r = Matrix { no_rows: no_rows - 1, data: d };
        proof {
            assert(exp.take((no_rows - 1) as int) =~= exp);
            r.lemma_from_rows(exp, (no_cols - 1) as nat);
        }
        r
    }

    /// The `(end_row - start_row)` x `(end_col - start_col)` matrix copied row by
    /// row from the stored entries, starting at (`start_row`, `start_col`).
    /// Each of its rows is read from consecutive stored entries: where `end_col`
    /// lies past the last column, a row continues into the next row of the matrix
    /// (with `lemma_window_is_block`, inside the columns it is the block).
    #[verifier::loop_isolation(false)]
    pub fn sub_matrix(&self, start_row: usize, start_col: usize, end_row: usize, end_col: usize) -> (r: Matrix<T>)
        requires
            self.wf(),
            start_row < end_row,
            start_col < end_col,
            end_row - start_row < self@.len(),
            end_col - start_col < num_cols(self@),
            (end_row - 1) * num_cols(self@) + end_col <= self@.len() * num_cols(self@),
            end_row * num_cols(self@) + start_col <= usize::MAX,
        ensures
            r.wf(),
            r@ == window(self@, start_row as int, start_col as int, end_row as int, end_col as int),
    {
        proof {
            self.lemma_wf_len();
            self.lemma_flat_rows();
        }
        let ghost exp = window(self@, start_row as int, start_col as int, end_row as int, end_col as int);
        let no_cols = self.cols();
        let rows = end_row - start_row;
        let cols = end_col - start_col;
        proof {
            assert(start_row * no_cols <= end_row * no_cols) by (nonlinear_arith)
                requires
                    start_row < end_row,
            ;
        }
        let mut d: Vec<T> = Vec::new();
        let mut src_idx = start_row * no_cols + start_col;
        let mut i: usize = 0;
        while i < rows
            invariant
                i <= rows,
                src_idx == (start_row + i) * no_cols + start_col,
                d@ == exp.take(i as int).flatten(),
            decreases rows - i,
        {
            proof {
                assert((start_row + i) * no_cols <= (end_row - 1) * no_cols) by (nonlinear_arith)
                    requires
                        start_row + i <= end_row - 1,
                ;
                assert((start_row + i) * no_cols + no_cols == (start_row + i + 1) * no_cols) by (nonlinear_arith);
                assert((start_row + i + 1) * no_cols <= end_row * no_cols) by (nonlinear_arith)
                    requires
                        start_row + i + 1 <= end_row,
                ;
            }
            let mut col_offset: usize = 0;
            while col_offset < cols
                invariant
                    col_offset <= cols,
                    d@ == exp.take(i as int).flatten() + exp[i as int].take(col_offset as int),
                decreases cols - col_offset,
            {
                proof {
                    lemma_push_entry(exp.take(i as int).flatten(), exp[i as int], col_offset as int);
                }
                d.push(self.data[src_idx + col_offset]);
                col_offset = col_offset + 1;
            }
            proof {
                assert(exp[i as int].take(cols as int) =~= exp[i as int]);
                lemma_take_flatten_step(exp, i as int);
            }
            src_idx = src_idx + no_cols;
            i = i + 1;
        }
        let r = Matrix { no_rows: rows, data: d };
        proof {
            assert(exp.take(rows as int) =~= exp);
            r.lemma_from_rows(exp, cols as nat);
        }
        r
    }

    /// Column `column` as a matrix with one column.
    #[verifier::loop_isolation(false)]
    pub fn get_column(&self, column: usize) -> (r: Matrix<T>)
        requires
            self.wf(),
            self@.len() > 0,
            column < num_cols(self@),
            self@.len() * num_cols(self@) + column <= usize::MAX,
        ensures
            r@.len() == self@.len(),
            forall|i: int| 0 <= i < self@.len() ==> (#[trigger] r@[i]).len() == 1 && r@[i][0] == self@[i][column as int],
            r.wf(),
            r@ == column_of(self@, column as int),
    {
        proof {
            self.lemma_wf_len();
        }
        let ghost exp = column_of(self@, column as int);
        let no_rows = self.no_rows;
        let no_cols = self.cols();
        let mut d: Vec<T> = Vec::new();
        let mut src_idx = column;
        let mut i: usize = 0;
        while i < no_rows
            invariant
                i <= no_rows,
                src_idx == i * no_cols + column,
                d@ == exp.take(i as int).flatten(),
            decreases no_rows - i,
        {
            proof {
                self.lemma_entry(i as int, column as int);
                assert(i * no_cols + no_cols == (i + 1) * no_cols) by (nonlinear_arith);
                lemma_index(i as int, 0, no_rows as int, no_cols as int);
                lemma_take_flatten_step(exp, i as int);
                assert(exp.take(i as int).flatten().push(self@[i as int][column as int]) =~= exp.take(i + 1).flatten());
            }
            d.push(self.data[src_idx]);
            src_idx = src_idx + no_cols;
            i = i + 1;
        }
        let r = Matrix { no_rows: no_rows, data: d };
        proof {
            assert(exp.take(no_rows as int) =~= exp);
            r.lemma_from_rows(exp, 1);
        }
        r
    }

    /// The matrix whose row `i` is row `rows[i]` of this matrix.
    #[verifier::loop_isolation(false)]
    pub fn permute_rows(&self, rows: &[usize]) -> (r: Matrix<T>)
        requires
            self.wf(),
            self@.len() > 0,
            forall|i: int| 0 <= i < rows@.len() ==> #[trigger] rows@[i] < self@.len(),
            rows@.len() * num_cols(self@) <= usize::MAX,
        ensures
            r.wf(),
            r@ == pick_rows(self@, rows@),
    {
        proof {
            self.lemma_wf_len();
        }
        let ghost exp = pick_rows(self@, rows@);
        let len = self.data.len();
        let no_rows = rows.len();
        let no_cols = self.cols();
        let elems = no_rows * no_cols;
        let mut d: Vec<T> = Vec::with_capacity(elems);
        let mut row: usize = 0;
        while row < no_rows
            invariant
                row <= no_rows,
                d@ == exp.take(row as int).flatten(),
            decreases no_rows - row,
        {
            proof {
                lemma_index(rows@[row as int] as int, 0, self.nrows() as int, no_cols as int + 1);
                assert(rows@[row as int] * no_cols + no_cols <= self.nrows() * no_cols) by (nonlinear_arith)
                    requires
                        rows@[row as int] < self.nrows(),
                ;
                assert(rows@[row as int] * no_cols + no_cols <= len);
            }
            let row_idx = rows[row] * no_cols;
            let mut col: usize = 0;
            while col < no_cols
                invariant
                    col <= no_cols,
                    d@ == exp.take(row as int).flatten() + exp[row as int].take(col as int),
                decreases no_cols - col,
            {
                proof {
                    self.lemma_entry(rows@[row as int] as int, col as int);
                    assert(row_idx + col < len);
                    lemma_push_entry(exp.take(row as int).flatten(), exp[row as int], col as int);
                }
                d.push(self.data[row_idx + col]);
                col = col + 1;
            }
            proof {
                assert(exp[row as int].take(no_cols as int) =~= exp[row as int]);
                lemma_take_flatten_step(exp, row as int);
            }
            row = row + 1;
        }
        let r = Matrix { no_rows: no_rows, data: d };
        proof {
            assert(exp.take(no_rows as int) =~= exp);
            r.lemma_from_rows(exp, no_cols as nat);
        }
        r
    }

    /// The matrix whose column `j` is column `columns[j]` of this matrix.
    #[verifier::loop_isolation(false)]
    pub fn permute_columns(&self, columns: &[usize]) -> (r: Matrix<T>)
        requires
            self.wf(),
            self@.len() > 0 ==> forall|j: int| 0 <= j < columns@.len() ==> #[trigger] columns@[j] < num_cols(self@),
            self@.len() * columns@.len() <= usize::MAX,
        ensures
            r.wf(),
            r@ == pick_cols(self@, columns@),
    {
        proof {
            self.lemma_wf_len();
        }
        let ghost exp = pick_cols(self@, columns@);
        let len = self.data.len();
        let no_rows = self.no_rows;
        let no_cols = columns.len();
        let elems = no_rows * no_cols;
        let mut d: Vec<T> = Vec::with_capacity(elems);
        let mut row_idx: usize = 0;
        let mut row: usize = 0;
        while row < no_rows
            invariant
                row <= no_rows,
                row_idx == row * self.ncols(),
                d@ == exp.take(row as int).flatten(),
            decreases no_rows - row,
        {
            let self_cols = self.cols();
            proof {
                lemma_index(row as int, 0, no_rows as int, self_cols as int + 1);
                assert(row * self_cols + self_cols <= no_rows * self_cols) by (nonlinear_arith)
                    requires
                        row < no_rows,
                ;
            }
            let mut col: usize = 0;
            while col < no_cols
                invariant
                    col <= no_cols,
                    d@ == exp.take(row as int).flatten() + exp[row as int].take(col as int),
                decreases no_cols - col,
            {
                proof {
                    self.lemma_entry(row as int, columns@[col as int] as int);
                    assert(row_idx + columns@[col as int] < len);
                    lemma_push_entry(exp.take(row as int).flatten(), exp[row as int], col as int);
                }
                d.push(self.data[row_idx + columns[col]]);
                col = col + 1;
            }
            proof {
                assert(exp[row as int].take(no_cols as int) =~= exp[row as int]);
                lemma_take_flatten_step(exp, row as int);
                assert(row * self_cols + self_cols == (row + 1) * self_cols) by (nonlinear_arith);
            }
            assert(row_idx + self_cols <= len);
            row_idx = row_idx + self_cols;
            row = row + 1;
        }
        let r = Matrix { no_rows: no_rows, data: d };
        proof {
            assert(exp.take(no_rows as int) =~= exp);
            r.lemma_from_rows(exp, no_cols as nat);
        }
        r
    }

    /// The rows at which `selector` holds `true`, in order.
    pub fn select_rows(&self, selector: &[bool]) -> (r: Matrix<T>)
        requires
            self.wf(),
            self@.len() > 0,
            selector@.len() == self@.len(),
        ensures
            r.wf(),
            r@ == pick_rows(self@, true_indices(selector@)),
    {
        proof {
            self.lemma_wf_len();
        }
        let rows = true_positions(selector);
        proof {
            assert(rows@.len() * num_cols(self@) <= self@.len() * num_cols(self@)) by (nonlinear_arith)
                requires
                    rows@.len() <= self@.len(),
            ;
        }
        self.permute_rows(rows.as_slice())
    }

    /// The columns at which `selector` holds `true`, in order.
    pub fn select_columns(&self, selector: &[bool]) -> (r: Matrix<T>)
        requires
            self.wf(),
            self@.len() > 0,
            selector@.len() == num_cols(self@),
        ensures
            r.wf(),
            r@ == pick_cols(self@, true_indices(selector@)),
    {
        proof {
            self.lemma_wf_len();
        }
        let cols = true_positions(selector);
        proof {
            assert(self@.len() * cols@.len() <= self@.len() * num_cols(self@)) by (nonlinear_arith)
                requires
                    cols@.len() <= num_cols(self@),
            ;
        }
        self.permute_columns(cols.as_slice())
    }
}

} // verus!
