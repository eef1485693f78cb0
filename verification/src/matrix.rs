//! The matrix type and its operations.
use vstd::prelude::*;
use vstd::arithmetic::div_mod::*;
use crate::model::{is_rect, lemma_flatten_reshape, lemma_reshape_flatten, num_cols, reshape, true_indices};

mod rearrange;
mod apply;
mod transpose;
mod construct;
mod entrywise;
mod algebra;
mod compare;
mod operators;

verus! {

/// A dense matrix stored row by row.
#[derive(PartialEq, Clone)]
pub struct Matrix<T> {
    no_rows: usize,
    data: Vec<T>,
}

impl<T> Matrix<T> {
    /// The stored entries, row by row.
    pub closed spec fn flat(&self) -> Seq<T> {
        self.data@
    }

    /// Number of rows.
    pub closed spec fn nrows(&self) -> nat {
        self.no_rows as nat
    }

    /// Number of columns implied by the stored entries.
    pub open spec fn ncols(&self) -> nat {
        if self.nrows() == 0 {
            0
        } else {
            self.flat().len() / self.nrows()
        }
    }

    /// The entries fill whole rows; a matrix without rows stores nothing.
    pub open spec fn wf(&self) -> bool {
        &&& self.nrows() == 0 ==> self.flat().len() == 0
        &&& self.nrows() > 0 ==> self.flat().len() % self.nrows() == 0
    }

    /// Well formed, with at least one row and at least one column: the shape of
    /// every matrix that `new`, `vector` and `row_vector` build, which the
    /// operations that change a matrix in place keep.
    pub open spec fn shaped(&self) -> bool {
        &&& self.wf()
        &&& self@.len() >= 1
        &&& num_cols(self@) >= 1
    }
}

impl<T> View for Matrix<T> {
    type V = Seq<Seq<T>>;

    /// The rows of the matrix.
    open spec fn view(&self) -> Seq<Seq<T>> {
        reshape(self.flat(), self.nrows(), self.ncols())
    }
}

/// Position `r * cols + c` of a row-major layout lies inside the layout and
/// gives back the row and the column.
proof fn lemma_index(r: int, c: int, rows: int, cols: int)
    requires
        0 <= r < rows,
        0 <= c < cols,
    ensures
        0 <= r * cols,
        0 <= r * cols + c < rows * cols,
        r * cols + cols <= rows * cols,
        (r * cols + c) / cols == r,
        (r * cols + c) % cols == c,
{
    assert(0 <= r * cols) by (nonlinear_arith)
        requires
            0 <= r,
            0 <= cols,
    ;
    assert(r * cols + cols <= rows * cols) by (nonlinear_arith)
        requires
            r + 1 <= rows,
            0 <= cols,
    ;
    lemma_fundamental_div_mod_converse(r * cols + c, cols, r, c);
}

/// A position of a row-major layout splits into its row and its column.
proof fn lemma_split_index(i: int, rows: int, cols: int)
    requires
        0 <= i < rows * cols,
        0 < cols,
    ensures
        0 <= i / cols < rows,
        0 <= i % cols < cols,
        i == (i / cols) * cols + i % cols,
{
    lemma_fundamental_div_mod(i, cols);
    lemma_mod_bound(i, cols);
    lemma_div_pos_is_pos(i, cols);
    let q = i / cols;
    assert(cols * q == q * cols) by (nonlinear_arith);
    if q >= rows {
        assert(q * cols >= rows * cols) by (nonlinear_arith)
            requires
                q >= rows,
                cols > 0,
        ;
    }
}

/// Moving from position `i` to `i + 1` advances the column, or wraps to the next row.
proof fn lemma_divmod_step(i: int, d: int)
    requires
        0 <= i,
        0 < d,
    ensures
        i % d + 1 < d ==> (i + 1) % d == i % d + 1 && (i + 1) / d == i / d,
        i % d + 1 >= d ==> i % d == d - 1 && (i + 1) % d == 0 && (i + 1) / d == i / d + 1,
{
    lemma_fundamental_div_mod(i, d);
    lemma_mod_bound(i, d);
    let q = i / d;
    let r = i % d;
    assert(d * q == q * d) by (nonlinear_arith);
    if r + 1 < d {
        lemma_fundamental_div_mod_converse(i + 1, d, q, r + 1);
    } else {
        assert(i + 1 == (q + 1) * d + 0) by (nonlinear_arith)
            requires
                i == q * d + r,
                r == d - 1,
        ;
        lemma_fundamental_div_mod_converse(i + 1, d, q + 1, 0);
    }
}

impl<T> Matrix<T> {
    /// A well-formed matrix is rectangular: it has `nrows()` rows of `ncols()`
    /// entries each, and stores exactly `nrows() * ncols()` entries, so that
    /// `cols()` divides the stored length without remainder.
    pub proof fn lemma_wf_len(&self)
        requires
            self.wf(),
        ensures
            self.flat().len() == self.nrows() * self.ncols(),
            self@.len() == self.nrows(),
            is_rect(self@),
            forall|r: int| 0 <= r < self@.len() ==> (#[trigger] self@[r]).len() == self.ncols(),
            self.nrows() > 0 ==> num_cols(self@) == self.ncols(),
            self.nrows() * self.ncols() <= usize::MAX,
    {
        assert(self.data@.len() == self.data.len());
        if self.nrows() > 0 {
            lemma_fundamental_div_mod(self.flat().len() as int, self.nrows() as int);
            assert(self.flat().len() == self.nrows() * self.ncols()) by (nonlinear_arith)
                requires
                    self.flat().len() == self.nrows() * (self.flat().len() / self.nrows()) + self.flat().len() % self.nrows(),
                    self.flat().len() % self.nrows() == 0,
                    self.ncols() == self.flat().len() / self.nrows(),
            ;
        }
        assert forall|r: int| 0 <= r < self@.len() implies (#[trigger] self@[r]).len() == num_cols(self@) by {
            lemma_index(r, 0, self.nrows() as int, self.ncols() as int + 1);
            assert(r * self.ncols() + self.ncols() <= self.flat().len()) by (nonlinear_arith)
                requires
                    0 <= r < self.nrows(),
                    self.flat().len() == self.nrows() * self.ncols(),
            ;
            assert(0 * self.ncols() + self.ncols() <= self.flat().len()) by (nonlinear_arith)
                requires
                    0 < self.nrows(),
                    self.flat().len() == self.nrows() * self.ncols(),
            ;
        }
    }

    /// A matrix of this shape has at least one row and one column, and stores
    /// exactly `rows() * cols()` entries: `cols()` divides the stored length
    /// without remainder.
    pub proof fn lemma_shaped(&self)
        requires
            self.shaped(),
        ensures
            self.nrows() >= 1,
            self.ncols() >= 1,
            self@.len() == self.nrows(),
            num_cols(self@) == self.ncols(),
            self.flat().len() == self.nrows() * self.ncols(),
    {
        self.lemma_wf_len();
    }

    /// Stored entry `k` of a well-formed matrix is an entry of its rows.
    proof fn lemma_flat_index(&self, k: int) -> (rc: (int, int))
        requires
            self.wf(),
            0 <= k < self.flat().len(),
        ensures
            0 <= rc.0 < self.nrows(),
            0 <= rc.1 < self.ncols(),
            rc.1 < self@[rc.0].len(),
            k == rc.0 * self.ncols() + rc.1,
            self@[rc.0][rc.1] == self.flat()[k],
    {
        self.lemma_wf_len();
        if self.ncols() == 0 {
            assert(self.nrows() * self.ncols() == 0) by (nonlinear_arith)
                requires
                    self.ncols() == 0,
            ;
        }
        lemma_split_index(k, self.nrows() as int, self.ncols() as int);
        let i = k / self.ncols() as int;
        let j = k % self.ncols() as int;
        self.lemma_entry(i, j);
        (i, j)
    }

    /// Entry `(r, c)` of a well-formed matrix is stored at `r * cols + c`.
    proof fn lemma_entry(&self, r: int, c: int)
        requires
            self.wf(),
            0 <= r < self.nrows(),
            0 <= c < self.ncols(),
        ensures
            0 <= r * self.ncols() + c < self.flat().len(),
            self@[r][c] == self.flat()[r * self.ncols() + c],
    {
        self.lemma_wf_len();
        lemma_index(r, c, self.nrows() as int, self.ncols() as int);
    }
}

/// Concatenating the first `k + 1` rows adds row `k` to the first `k`.
proof fn lemma_take_flatten_step<T>(m: Seq<Seq<T>>, k: int)
    requires
        0 <= k < m.len(),
    ensures
        m.take(k + 1).flatten() == m.take(k).flatten() + m[k],
{
    broadcast use Seq::lemma_flatten_push;

    assert(m.take(k + 1) =~= m.take(k).push(m[k]));
}

/// Appending entry `k` of `row` to a prefix of `row` extends the prefix by one.
proof fn lemma_push_entry<T>(prefix: Seq<T>, row: Seq<T>, k: int)
    requires
        0 <= k < row.len(),
    ensures
        (prefix + row.take(k)).push(row[k]) == prefix + row.take(k + 1),
{
    assert((prefix + row.take(k)).push(row[k]) =~= prefix + row.take(k + 1));
}

impl<T> Matrix<T> {
    /// A matrix whose stored entry `k` is `f(k / cols, k % cols)` is the matrix of `f`.
    proof fn lemma_from_fn(&self, rows: nat, cols: nat, f: spec_fn(int, int) -> T)
        requires
            self.nrows() == rows,
            self.flat().len() == rows * cols,
            forall|k: int| 0 <= k < rows * cols ==> #[trigger] self.flat()[k] == f(k / cols as int, k % cols as int),
        ensures
            self.wf(),
            self@ == Seq::new(rows, |i: int| Seq::new(cols, |j: int| f(i, j))),
    {
        let exp = Seq::new(rows, |i: int| Seq::new(cols, |j: int| f(i, j)));
        if rows > 0 {
            assert(rows * cols == cols * rows) by (nonlinear_arith);
            lemma_fundamental_div_mod_converse(self.flat().len() as int, rows as int, cols as int, 0);
            self.lemma_wf_len();
            assert forall|i: int| 0 <= i < rows implies #[trigger] self@[i] =~= exp[i] by {
                assert forall|j: int| 0 <= j < cols implies #[trigger] self@[i][j] == f(i, j) by {
                    self.lemma_entry(i, j);
                    lemma_index(i, j, rows as int, cols as int);
                }
            }
        }
        assert(self@ =~= exp);
    }

    /// A matrix storing `rows * cols` entries in `rows` rows is well formed and has that shape.
    proof fn lemma_shape(&self, rows: nat, cols: nat)
        requires
            self.nrows() == rows,
            self.flat().len() == rows * cols,
            rows > 0,
        ensures
            self.wf(),
            self@.len() == rows,
            num_cols(self@) == cols,
    {
        assert(rows * cols == cols * rows) by (nonlinear_arith);
        lemma_fundamental_div_mod_converse(self.flat().len() as int, rows as int, cols as int, 0);
        self.lemma_wf_len();
    }

    /// The stored entries of a well-formed matrix are its rows, concatenated.
    proof fn lemma_flat_rows(&self)
        requires
            self.wf(),
        ensures
            self.flat() == self@.flatten(),
    {
        self.lemma_wf_len();
        lemma_flatten_reshape(self.flat(), self.nrows(), self.ncols());
    }

    /// A matrix whose stored entries are the concatenated rows of `rows`, each of
    /// length `cols`, is well formed and has these rows.
    proof fn lemma_from_rows(&self, rows: Seq<Seq<T>>, cols: nat)
        requires
            self.flat() == rows.flatten(),
            self.nrows() == rows.len(),
            forall|r: int| 0 <= r < rows.len() ==> (#[trigger] rows[r]).len() == cols,
        ensures
            self.wf(),
            self@ == rows,
            rows.len() > 0 ==> self.ncols() == cols,
    {
        lemma_reshape_flatten(rows, cols);
        if rows.len() > 0 {
            assert(rows.len() * cols == cols * rows.len()) by (nonlinear_arith);
            lemma_fundamental_div_mod_converse(self.flat().len() as int, rows.len() as int, cols as int, 0);
        } else {
            assert(self@ =~= rows);
        }
    }
}

/// Writing one stored entry of a well-formed matrix writes the corresponding entry of its rows.
proof fn lemma_update_entry<T>(before: Matrix<T>, after: Matrix<T>, row: int, col: int, v: T)
    requires
        before.wf(),
        0 <= row < before.nrows(),
        0 <= col < before.ncols(),
        after.nrows() == before.nrows(),
        after.flat() == before.flat().update(row * before.ncols() + col, v),
    ensures
        after.wf(),
        after@ == before@.update(row, before@[row].update(col, v)),
{
    before.lemma_wf_len();
    before.lemma_entry(row, col);
    let no_cols = before.ncols();
    let i = row * no_cols + col;
    assert(after.ncols() == no_cols);
    after.lemma_wf_len();
    let expected = before@.update(row, before@[row].update(col, v));
    assert forall|r: int| 0 <= r < after@.len() implies #[trigger] after@[r] =~= expected[r] by {
        assert forall|c: int| 0 <= c < no_cols implies #[trigger] after@[r][c] == expected[r][c] by {
            after.lemma_entry(r, c);
            before.lemma_entry(r, c);
            if r != row || c != col {
                lemma_index(r, c, after.nrows() as int, no_cols as int);
                if r * no_cols + c == i {
                    lemma_index(row, col, after.nrows() as int, no_cols as int);
                }
            }
        }
    }
    assert(after@ =~= expected);
}

/// Every position listed by `true_indices` lies inside the selector.
proof fn lemma_true_indices_bound(sel: Seq<bool>)
    ensures
        forall|i: int| 0 <= i < true_indices(sel).len() ==> #[trigger] true_indices(sel)[i] < sel.len(),
    decreases sel.len(),
{
    if sel.len() > 0 {
        lemma_true_indices_bound(sel.drop_last());
        let init = true_indices(sel.drop_last());
        assert forall|i: int| 0 <= i < true_indices(sel).len() implies #[trigger] true_indices(sel)[i] < sel.len() by {
            if i < init.len() {
                assert(init[i] < sel.drop_last().len());
            }
        }
    }
}

/// No more positions are listed than the selector has.
proof fn lemma_true_indices_len(sel: Seq<bool>)
    ensures
        true_indices(sel).len() <= sel.len(),
    decreases sel.len(),
{
    if sel.len() > 0 {
        lemma_true_indices_len(sel.drop_last());
    }
}

/// The positions at which `selector` holds `true`, in increasing order.
fn true_positions(selector: &[bool]) -> (r: Vec<usize>)
    ensures
        r@ == true_indices(selector@),
        r@.len() <= selector@.len(),
        forall|i: int| 0 <= i < r@.len() ==> #[trigger] r@[i] < selector@.len(),
{
    let mut r: Vec<usize> = Vec::new();
    let mut i: usize = 0;
    while i < selector.len()
        invariant
            i <= selector@.len(),
            r@ == true_indices(selector@.take(i as int)),
        decreases selector@.len() - i,
    {
        proof {
            assert(selector@.take(i + 1).drop_last() =~= selector@.take(i as int));
        }
        if selector[i] {
            r.push(i);
        }
        i = i + 1;
    }
    proof {
        assert(selector@.take(selector@.len() as int) =~= selector@);
        lemma_true_indices_bound(selector@);
        lemma_true_indices_len(selector@);
    }
    r
}

impl<T> Matrix<T> {
    /// Whether the matrix has as many rows as columns.
    pub fn is_square(&self) -> (r: bool)
        requires
            self.wf(),
            self@.len() > 0,
        ensures
            r == (self@.len() == num_cols(self@)),
    {
        proof {
            self.lemma_wf_len();
        }
        self.no_rows == self.cols()
    }

    /// Whether the numbers of rows and columns differ.
    pub fn is_not_square(&self) -> (r: bool)
        requires
            self.wf(),
            self@.len() > 0,
        ensures
            r == (self@.len() != num_cols(self@)),
    {
        !self.is_square()
    }
}

impl<T> Matrix<T> {
    /// The number of rows.
    pub fn rows(&self) -> (r: usize)
        ensures
            r == self.nrows(),
            self.wf() ==> r == self@.len(),
    {
        self.no_rows
    }

    /// The number of columns.
    pub fn cols(&self) -> (r: usize)
        requires
            self.wf(),
            self@.len() > 0,
        ensures
            r == num_cols(self@),
            r == self.ncols(),
    {
        proof {
            self.lemma_wf_len();
        }
        self.data.len() / self.no_rows
    }
}

impl<T: Copy> Matrix<T> {
    /// The `no_rows` x `no_cols` matrix whose entries are read row by row from `data`.
    pub fn new(no_rows: usize, no_cols: usize, data: Vec<T>) -> (r: Matrix<T>)
        requires
            no_rows > 0,
            no_cols > 0,
            no_rows * no_cols == data@.len(),
        ensures
            r.shaped(),
            r.wf(),
            r.flat() == data@,
            r.nrows() == no_rows,
            r@ == reshape(data@, no_rows as nat, no_cols as nat),
            r@.len() == no_rows,
            num_cols(r@) == no_cols,
    {
        let r = Matrix { no_rows: no_rows, data: data };
        proof {
            assert(no_rows * no_cols == no_cols * no_rows) by (nonlinear_arith);
            lemma_fundamental_div_mod_converse(data@.len() as int, no_rows as int, no_cols as int, 0);
            r.lemma_wf_len();
        }
        r
    }

    /// A column vector holding `data`.
    pub fn vector(data: Vec<T>) -> (r: Matrix<T>)
        requires
            data@.len() > 0,
        ensures
            r.shaped(),
            r.wf(),
            r@ == reshape(data@, data@.len(), 1),
            r@.len() == data@.len(),
            num_cols(r@) == 1,
    {
        let n = data.len();
        Matrix::new(n, 1, data)
    }

    /// A row vector holding `data`.
    pub fn row_vector(data: Vec<T>) -> (r: Matrix<T>)
        requires
            data@.len() > 0,
        ensures
            r.shaped(),
            r.wf(),
            r@ == reshape(data@, 1, data@.len()),
            r@.len() == 1,
            num_cols(r@) == data@.len(),
    {
        let n = data.len();
        Matrix::new(1, n, data)
    }

    /// The stored entries, row by row.
    pub fn get_data(&self) -> (r: &Vec<T>)
        requires
            self.wf(),
        ensures
            r@ == self@.flatten(),
            r@ == self.flat(),
    {
        proof {
            self.lemma_flat_rows();
        }
        &self.data
    }

    /// Mutable access to the stored entries; the number of rows stays as it is.
    pub fn get_mut_data(&mut self) -> (r: &mut Vec<T>)
        requires
            old(self).wf(),
        ensures
            r@ == old(self)@.flatten(),
            r@ == old(self).flat(),
            final(self).flat() == final(r)@,
            final(self).nrows() == old(self).nrows(),
    {
        proof {
            self.lemma_flat_rows();
        }
        &mut self.data
    }

    /// A reference to the entry at (`row`, `col`).
    pub fn get_ref(&self, row: usize, col: usize) -> (r: &T)
        requires
            self.wf(),
            row < self@.len(),
            col < num_cols(self@),
        ensures
            *r == self@[row as int][col as int],
    {
        proof {
            self.lemma_wf_len();
            self.lemma_entry(row as int, col as int);
        }
        let no_cols = self.cols();
        let len = self.data.len();
        assert(row * no_cols + col < len);
        &self.data[row * no_cols + col]
    }

    /// A mutable reference to the entry at (`row`, `col`).
    pub fn get_mref(&mut self, row: usize, col: usize) -> (r: &mut T)
        requires
            old(self).wf(),
            row < old(self)@.len(),
            col < num_cols(old(self)@),
        ensures
            old(self).shaped() ==> final(self).shaped(),
            *r == old(self)@[row as int][col as int],
            final(self).wf(),
            final(self)@ == old(self)@.update(row as int, old(self)@[row as int].update(col as int, *final(r))),
    {
        proof {
            self.lemma_wf_len();
            self.lemma_entry(row as int, col as int);
        }
        let no_cols = self.cols();
        let ghost before = *self;
        let len = self.data.len();
        assert(row * no_cols + col < len);
        proof {
            let i = row * before.ncols() + col;
            assert forall|after: Matrix<T>|
                after.nrows() == before.nrows() && #[trigger] after.flat() == before.flat().update(i, after.flat()[i])
                implies after.wf() && after@ == before@.update(row as int, before@[row as int].update(col as int, after.flat()[i])) by {
                assert(0 <= i < before.flat().len());
                lemma_update_entry(before, after, row as int, col as int, after.flat()[i]);
            }
        }
        &mut self.data[row * no_cols + col]
    }

    /// The entry at (`row`, `col`).
    pub fn get(&self, row: usize, col: usize) -> (r: T)
        requires
            self.wf(),
            row < self@.len(),
            col < num_cols(self@),
        ensures
            r == self@[row as int][col as int],
    {
        proof {
            self.lemma_wf_len();
            self.lemma_entry(row as int, col as int);
        }
        let no_cols = self.cols();
        let len = self.data.len();
        assert(row * no_cols + col < len);
        self.data[row * no_cols + col]
    }

    /// Replaces the entry at (`row`, `col`) with `val`.
    pub fn set(&mut self, row: usize, col: usize, val: T)
        requires
            old(self).wf(),
            row < old(self)@.len(),
            col < num_cols(old(self)@),
        ensures
            old(self).shaped() ==> final(self).shaped(),
            final(self).wf(),
            final(self)@ == old(self)@.update(row as int, old(self)@[row as int].update(col as int, val)),
    {
        proof {
            self.lemma_wf_len();
            self.lemma_entry(row as int, col as int);
        }
        let no_cols = self.cols();
        let ghost before = *self;
        let len = self.data.len();
        assert(row * no_cols + col < len);
        self.data.set(row * no_cols + col, val);
        proof {
            lemma_update_entry(before, *self, row as int, col as int, val);
        }
    }
}

impl<T: Copy> std::ops::Index<(usize, usize)> for Matrix<T> {
    type Output = T;

    /// The entry at row `idx.0`, column `idx.1`.
    fn index(&self, idx: (usize, usize)) -> (r: &T)
        ensures
            *r == self@[idx.0 as int][idx.1 as int],
    {
        self.get_ref(idx.0, idx.1)
    }
}

impl<T: Copy> vstd::std_specs::core::IndexSpecImpl<(usize, usize)> for Matrix<T> {
    open spec fn index_req(&self, idx: &(usize, usize)) -> bool {
        &&& self.wf()
        &&& idx.0 < self@.len()
        &&& idx.1 < num_cols(self@)
    }
}

} // verus!
