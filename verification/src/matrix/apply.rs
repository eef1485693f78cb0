//! Applying closures to the entries.
use vstd::prelude::*;
use vstd::arithmetic::div_mod::*;
use crate::model::{answers, column_entries, fold_callable, folds_to, is_fold_trace, num_cols, pick_cols, pick_rows, true_indices};
use super::{Matrix, lemma_split_index, lemma_true_indices_len};

verus! {

impl<T: Copy> Matrix<T> {
    /// The matrix of the results of `f` on each entry.
    pub fn map<S: Copy, F: Fn(&T) -> S>(&self, f: &F) -> (r: Matrix<S>)
        requires
            self.wf(),
            forall|i: int, j: int|
                0 <= i < self@.len() && 0 <= j < self@[i].len() ==> call_requires(*f, (&#[trigger] self@[i][j],)),
        ensures
            r.wf(),
            r@.len() == self@.len(),
            forall|i: int| 0 <= i < r@.len() ==> (#[trigger] r@[i]).len() == self@[i].len(),
            forall|i: int, j: int|
                0 <= i < self@.len() && 0 <= j < self@[i].len() ==> call_ensures(*f, (&self@[i][j],), #[trigger] r@[i][j]),
    {
        proof {
            self.lemma_wf_len();
        }
        let elems = self.data.len();
        let mut d: Vec<S> = Vec::new();
        let mut i: usize = 0;
        while i < elems
            invariant
                self.wf(),
                elems == self.flat().len(),
                i <= elems,
                d@.len() == i,
                forall|i: int, j: int|
                    0 <= i < self@.len() && 0 <= j < self@[i].len() ==> call_requires(*f, (&#[trigger] self@[i][j],)),
                forall|k: int| 0 <= k < i ==> call_ensures(*f, (&self.flat()[k],), #[trigger] d@[k]),
            decreases elems - i,
        {
            proof {
                self.lemma_wf_len();
                if self.ncols() == 0 {
                    assert(self.nrows() * self.ncols() == 0) by (nonlinear_arith)
                        requires
                            self.ncols() == 0,
                    ;
                }
                lemma_split_index(i as int, self.nrows() as int, self.ncols() as int);
                let a = i as int / self.ncols() as int;
                let b = i as int % self.ncols() as int;
                self.lemma_entry(a, b);
                assert(a * self.ncols() + b == i);
            }
            let v = f(&self.data[i]);
            d.push(v);
            i = i + 1;
        }
        let r = Matrix { no_rows: self.no_rows, data: d };
        proof {
            r.lemma_wf_len();
            assert forall|i: int, j: int|
                0 <= i < self@.len() && 0 <= j < self@[i].len() implies call_ensures(*f, (&self@[i][j],), #[trigger] r@[i][j]) by {
                self.lemma_entry(i, j);
                r.lemma_entry(i, j);
            }
        }
        r
    }

    /// Replaces each entry `x` with `f(x)`.
    pub fn mmap<F: Fn(&T) -> T>(&mut self, f: &F)
        requires
            old(self).wf(),
            forall|i: int, j: int|
                0 <= i < old(self)@.len() && 0 <= j < old(self)@[i].len() ==> call_requires(*f, (&#[trigger] old(self)@[i][j],)),
        ensures
            old(self).shaped() ==> final(self).shaped(),
            final(self).wf(),
            final(self)@.len() == old(self)@.len(),
            forall|i: int| 0 <= i < final(self)@.len() ==> (#[trigger] final(self)@[i]).len() == old(self)@[i].len(),
            forall|i: int, j: int|
                0 <= i < old(self)@.len() && 0 <= j < old(self)@[i].len() ==> call_ensures(*f, (&old(self)@[i][j],), #[trigger] final(self)@[i][j]),
    {
        proof {
            self.lemma_wf_len();
        }
        let ghost before = *self;
        let elems = self.data.len();
        let mut i: usize = 0;
        while i < elems
            invariant
                before.wf(),
                elems == before.flat().len(),
                self.nrows() == before.nrows(),
                self.flat().len() == elems,
                i <= elems,
                forall|i: int, j: int|
                    0 <= i < before@.len() && 0 <= j < before@[i].len() ==> call_requires(*f, (&#[trigger] before@[i][j],)),
                forall|k: int| 0 <= k < i ==> call_ensures(*f, (&before.flat()[k],), #[trigger] self.flat()[k]),
                forall|k: int| i <= k < elems ==> #[trigger] self.flat()[k] == before.flat()[k],
            decreases elems - i,
        {
            proof {
                before.lemma_wf_len();
                if before.ncols() == 0 {
                    assert(before.nrows() * before.ncols() == 0) by (nonlinear_arith)
                        requires
                            before.ncols() == 0,
                    ;
                }
                lemma_split_index(i as int, before.nrows() as int, before.ncols() as int);
                let a = i as int / before.ncols() as int;
                let b = i as int % before.ncols() as int;
                before.lemma_entry(a, b);
                assert(a * before.ncols() + b == i);
            }
            let v = f(&self.data[i]);
            self.data.set(i, v);
            i = i + 1;
        }
        proof {
            before.lemma_wf_len();
            assert(self.ncols() == before.ncols());
            self.lemma_wf_len();
            assert forall|i: int, j: int|
                0 <= i < before@.len() && 0 <= j < before@[i].len() implies call_ensures(*f, (&before@[i][j],), #[trigger] self@[i][j]) by {
                before.lemma_entry(i, j);
                self.lemma_entry(i, j);
            }
        }
    }

    /// The row vector whose entry `c` folds `f` over column `c`, starting from `init[c]`.
    #[verifier::loop_isolation(false)]
    pub fn reduce<S: Copy, F: Fn(&S, &T) -> S>(&self, init: &Vec<S>, f: &F) -> (r: Matrix<S>)
        requires
            self.wf(),
            self@.len() > 0,
            init@.len() == num_cols(self@),
            fold_callable(*f, init@, self@),
        ensures
            r.wf(),
            r@.len() == 1,
            r@[0].len() == init@.len(),
            forall|c: int| 0 <= c < init@.len() ==> folds_to(*f, init@[c], column_entries(self@, c), #[trigger] r@[0][c]),
    {
        proof {
            self.lemma_wf_len();
        }
        let no_cols = self.cols();
        let ghost no_rows = self.nrows() as int;
        let elems = self.data.len();
        let mut data: Vec<S> = Vec::new();
        let mut k: usize = 0;
        while k < init.len()
            invariant
                k <= init@.len(),
                data@ == init@.take(k as int),
            decreases init@.len() - k,
        {
            proof {
                assert(init@.take(k + 1) =~= init@.take(k as int).push(init@[k as int]));
            }
            data.push(init[k]);
            k = k + 1;
        }
        proof {
            assert(init@.take(init@.len() as int) =~= init@);
        }
        let ghost mut traces: Seq<Seq<S>> = Seq::new(no_cols as nat, |c: int| seq![init@[c]]);
        let ghost mut row: int = 0;
        let mut data_idx: usize = 0;
        let mut i: usize = 0;
        while i < elems
            invariant
                i <= elems,
                data@.len() == no_cols,
                0 <= row <= no_rows,
                i == row * no_cols + data_idx,
                no_cols > 0 ==> data_idx < no_cols,
                no_cols == 0 ==> data_idx == 0 && i == 0,
                traces.len() == no_cols,
                forall|c: int| 0 <= c < no_cols ==> (#[trigger] traces[c]).len() == row + 1 + (if c < data_idx { 1int } else { 0int }),
                forall|c: int| 0 <= c < no_cols ==> (#[trigger] traces[c])[0] == init@[c],
                forall|c: int| 0 <= c < no_cols ==> (#[trigger] traces[c]).last() == data@[c],
                forall|c: int, j: int|
                    0 <= c < no_cols && 0 <= j < traces[c].len() - 1 ==> call_ensures(*f, (&traces[c][j], &self@[j][c]), #[trigger] traces[c][j + 1]),
            decreases elems - i,
        {
            proof {
                if no_cols == 0 {
                    assert(elems == 0) by (nonlinear_arith)
                        requires
                            elems == no_rows * no_cols,
                            no_cols == 0,
                    ;
                }
                if row >= no_rows {
                    assert(row * no_cols >= no_rows * no_cols) by (nonlinear_arith)
                        requires
                            row >= no_rows,
                            no_cols >= 0,
                    ;
                }
                self.lemma_entry(row, data_idx as int);
                let c = data_idx as int;
                let items = column_entries(self@, c).take(row);
                assert forall|j: int| 0 <= j < items.len() implies call_ensures(*f, (&traces[c][j], &items[j]), #[trigger] traces[c][j + 1]) by {
                    assert(items[j] == self@[j][c]);
                }
                assert(is_fold_trace(*f, traces[c], init@[c], items, data@[c]));
                assert(folds_to(*f, init@[c], items, data@[c]));
            }
            let v = f(&data[data_idx], &self.data[i]);
            let ghost old_traces = traces;
            let ghost c = data_idx as int;
            proof {
                traces = traces.update(c, traces[c].push(v));
            }
            data.set(data_idx, v);
            data_idx = data_idx + 1;
            data_idx = data_idx % no_cols;
            i = i + 1;
            proof {
                if c + 1 < no_cols {
                    lemma_small_mod((c + 1) as nat, no_cols as nat);
                } else {
                    lemma_mod_self_0(no_cols as int);
                    assert(row * no_cols + no_cols == (row + 1) * no_cols) by (nonlinear_arith);
                    row = row + 1;
                }
                assert forall|c2: int, j: int|
                    0 <= c2 < no_cols && 0 <= j < traces[c2].len() - 1 implies call_ensures(*f, (&traces[c2][j], &self@[j][c2]), #[trigger] traces[c2][j + 1]) by {
                    if c2 != c || j < old_traces[c2].len() - 1 {
                        assert(traces[c2][j] == old_traces[c2][j]);
                        assert(traces[c2][j + 1] == old_traces[c2][j + 1]);
                    }
                }
            }
        }
        let r = Matrix { no_rows: 1, data: data };
        proof {
            assert(i == no_rows * no_cols);
            if no_cols > 0 {
                lemma_fundamental_div_mod_converse(i as int, no_cols as int, row, data_idx as int);
                lemma_fundamental_div_mod_converse(i as int, no_cols as int, no_rows, 0);
            }
            assert(seq![data@].flatten() =~= data@) by {
                seq![data@].lemma_flatten_one_element();
            }
            r.lemma_from_rows(seq![data@], no_cols as nat);
            assert forall|c: int| 0 <= c < init@.len() implies folds_to(*f, init@[c], column_entries(self@, c), #[trigger] r@[0][c]) by {
                assert(is_fold_trace(*f, traces[c], init@[c], column_entries(self@, c), r@[0][c]));
            }
        }
        r
    }

    /// The rows `row` for which `f(self, row)` holds, in order.
    pub fn filter_rows<F: Fn(&Matrix<T>, usize) -> bool>(&self, f: &F) -> (r: Matrix<T>)
        requires
            self.wf(),
            self@.len() > 0,
            forall|i: int| 0 <= i < self@.len() ==> call_requires(*f, (self, #[trigger] (i as usize))),
        ensures
            r.wf(),
            exists|keep: Seq<bool>| #[trigger] answers(*f, self, self@.len(), keep) && r@ == pick_rows(self@, true_indices(keep)),
    {
        proof {
            self.lemma_wf_len();
        }
        let n = self.rows();
        let mut rows: Vec<usize> = Vec::new();
        let ghost mut keep: Seq<bool> = Seq::empty();
        let mut row: usize = 0;
        while row < n
            invariant
                n == self@.len(),
                row <= n,
                keep.len() == row,
                rows@ == true_indices(keep),
                forall|i: int| 0 <= i < rows@.len() ==> #[trigger] rows@[i] < row,
                forall|i: int| 0 <= i < row ==> call_ensures(*f, (self, i as usize), #[trigger] keep[i]),
                forall|i: int| 0 <= i < self@.len() ==> call_requires(*f, (self, #[trigger] (i as usize))),
            decreases n - row,
        {
            assert(call_requires(*f, (self, row as int as usize)));
            let b = f(self, row);
            let ghost old_keep = keep;
            proof {
                keep = keep.push(b);
                assert(keep.drop_last() =~= old_keep);
                assert forall|i: int| 0 <= i < row + 1 implies call_ensures(*f, (self, i as usize), #[trigger] keep[i]) by {
                    if i < row {
                        assert(keep[i] == old_keep[i]);
                    }
                }
            }
            if b {
                rows.push(row);
            }
            row = row + 1;
        }
        proof {
            lemma_true_indices_len(keep);
            assert(rows@.len() * num_cols(self@) <= self@.len() * num_cols(self@)) by (nonlinear_arith)
                requires
                    rows@.len() <= self@.len(),
            ;
        }
        let r = self.permute_rows(rows.as_slice());
        proof {
            assert(answers(*f, self, self@.len(), keep));
        }
        r
    }

    /// The columns `col` for which `f(self, col)` holds, in order.
    pub fn filter_columns<F: Fn(&Matrix<T>, usize) -> bool>(&self, f: &F) -> (r: Matrix<T>)
        requires
            self.wf(),
            self@.len() > 0,
            forall|j: int| 0 <= j < num_cols(self@) ==> call_requires(*f, (self, #[trigger] (j as usize))),
        ensures
            r.wf(),
            exists|keep: Seq<bool>| #[trigger] answers(*f, self, num_cols(self@), keep) && r@ == pick_cols(self@, true_indices(keep)),
    {
        proof {
            self.lemma_wf_len();
        }
        let n = self.cols();
        let mut cols: Vec<usize> = Vec::new();
        let ghost mut keep: Seq<bool> = Seq::empty();
        let mut col: usize = 0;
        while col < n
            invariant
                n == num_cols(self@),
                col <= n,
                keep.len() == col,
                cols@ == true_indices(keep),
                forall|i: int| 0 <= i < cols@.len() ==> #[trigger] cols@[i] < col,
                forall|i: int| 0 <= i < col ==> call_ensures(*f, (self, i as usize), #[trigger] keep[i]),
                forall|j: int| 0 <= j < num_cols(self@) ==> call_requires(*f, (self, #[trigger] (j as usize))),
            decreases n - col,
        {
            assert(call_requires(*f, (self, col as int as usize)));
            let b = f(self, col);
            let ghost old_keep = keep;
            proof {
                keep = keep.push(b);
                assert(keep.drop_last() =~= old_keep);
                assert forall|i: int| 0 <= i < col + 1 implies call_ensures(*f, (self, i as usize), #[trigger] keep[i]) by {
                    if i < col {
                        assert(keep[i] == old_keep[i]);
                    }
                }
            }
            if b {
                cols.push(col);
            }
            col = col + 1;
        }
        proof {
            lemma_true_indices_len(keep);
            assert(self@.len() * cols@.len() <= self@.len() * num_cols(self@)) by (nonlinear_arith)
                requires
                    cols@.len() <= num_cols(self@),
            ;
        }
        let r = self.permute_columns(cols.as_slice());
        proof {
            assert(answers(*f, self, num_cols(self@), keep));
        }
        r
    }
}

} // verus!
