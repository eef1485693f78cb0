//! Matrices built from scratch: zeros, ones, diagonals and random entries.
use vstd::prelude::*;
use vstd::arithmetic::div_mod::*;
use crate::random::RandomEntry;
use crate::element::{One, Zero};
use crate::model::{constant, diagonal};
use super::{Matrix, lemma_index, lemma_split_index};

verus! {

/// Position `k` of a layout with `cols` columns lies on the diagonal, in one of its first `count` rows.
spec fn diag_pos(k: int, cols: int, count: int) -> bool {
    k / cols == k % cols && k / cols < count
}

/// `n` copies of `v`.
fn filled<T: Copy>(n: usize, v: T) -> (r: Vec<T>)
    ensures
        r@ == Seq::new(n as nat, |k: int| v),
{
    let mut d: Vec<T> = Vec::new();
    let mut i: usize = 0;
    while i < n
        invariant
            i <= n,
            d@ == Seq::new(i as nat, |k: int| v),
        decreases n - i,
    {
        d.push(v);
        i = i + 1;
        proof {
            assert(d@ =~= Seq::new(i as nat, |k: int| v));
        }
    }
    d
}

/// Writes `vals(i)` at position `i * cols + i` of `d` for each `i < count`, where
/// `d` holds `z` everywhere.
fn write_diagonal<T: Copy>(d: &mut Vec<T>, rows: usize, cols: usize, count: usize, vals: &Vec<T>, z: Ghost<T>)
    requires
        old(d)@ == Seq::new((rows * cols) as nat, |k: int| z@),
        count <= rows,
        count <= cols,
        vals@.len() == count,
        rows * cols <= usize::MAX,
    ensures
        final(d)@.len() == rows * cols,
        forall|k: int|
            0 <= k < rows * cols ==> #[trigger] final(d)@[k] == if diag_pos(k, cols as int, count as int) {
                vals@[k / cols as int]
            } else {
                z@
            },
{
    proof {
        assert forall|k: int| 0 <= k < rows * cols implies !diag_pos(k, cols as int, 0) by {
            if cols == 0 {
                assert(rows * cols == 0) by (nonlinear_arith)
                    requires
                        cols == 0,
                ;
            }
            lemma_div_pos_is_pos(k, cols as int);
        }
    }
    let mut i: usize = 0;
    while i < count
        invariant
            rows * cols <= usize::MAX,
            i <= count,
            count <= rows,
            count <= cols,
            vals@.len() == count,
            d@.len() == rows * cols,
            forall|k: int|
                0 <= k < rows * cols ==> #[trigger] d@[k] == if diag_pos(k, cols as int, i as int) {
                    vals@[k / cols as int]
                } else {
                    z@
                },
        decreases count - i,
    {
        proof {
            lemma_index(i as int, i as int, rows as int, cols as int);
        }
        let pos = i * cols + i;
        d.set(pos, vals[i]);
        proof {
            assert forall|k: int|
                0 <= k < rows * cols implies #[trigger] d@[k] == if diag_pos(k, cols as int, i + 1) {
                vals@[k / cols as int]
            } else {
                z@
            } by {
                lemma_split_index(k, rows as int, cols as int);
                if diag_pos(k, cols as int, i + 1) && k / cols as int == i {
                    assert(k == pos);
                }
            }
        }
        i = i + 1;
    }
}

impl<T: Copy + Zero> Matrix<T> {
    /// The `no_rows` x `no_cols` matrix of zeros.
    pub fn zero(no_rows: usize, no_cols: usize) -> (r: Matrix<T>)
        requires
            no_rows * no_cols <= usize::MAX,
        ensures
            r.wf(),
            r@ == constant(no_rows as nat, no_cols as nat, T::zero_value()),
    {
        let elems = no_rows * no_cols;
        let d = filled(elems, T::zero());
        let r = Matrix { no_rows: no_rows, data: d };
        proof {
            r.lemma_from_fn(no_rows as nat, no_cols as nat, |i: int, j: int| T::zero_value());
            assert(r@ =~~= constant(no_rows as nat, no_cols as nat, T::zero_value()));
        }
        r
    }

    /// The column vector of `no_rows` zeros.
    pub fn zero_vector(no_rows: usize) -> (r: Matrix<T>)
        ensures
            r.wf(),
            r@ == constant(no_rows as nat, 1, T::zero_value()),
    {
        let d = filled(no_rows, T::zero());
        let r = Matrix { no_rows: no_rows, data: d };
        proof {
            r.lemma_from_fn(no_rows as nat, 1, |i: int, j: int| T::zero_value());
            assert(r@ =~~= constant(no_rows as nat, 1, T::zero_value()));
        }
        r
    }

    /// The square matrix with `data` on its diagonal and zeros elsewhere.
    pub fn diag(data: Vec<T>) -> (r: Matrix<T>)
        requires
            data@.len() > 0,
            data@.len() * data@.len() <= usize::MAX,
        ensures
            r@.len() == data@.len(),
            forall|i: int| 0 <= i < data@.len() ==> (#[trigger] r@[i]).len() == data@.len(),
            forall|i: int| 0 <= i < data@.len() && i < data@.len() ==> #[trigger] r@[i][i] == data@[i],
            forall|i: int, j: int| 0 <= i < data@.len() && 0 <= j < data@.len() && i != j ==> #[trigger] r@[i][j] == T::zero_value(),
            r.wf(),
            r@ == diagonal(data@.len(), data@.len(), |i: int| data@[i], T::zero_value()),
    {
        let size = data.len();
        let elems = size * size;
        let mut d = filled(elems, T::zero());
        write_diagonal(&mut d, size, size, size, &data, Ghost(T::zero_value()));
        let r = Matrix::new(size, size, d);
        proof {
            r.lemma_from_fn(size as nat, size as nat, |i: int, j: int| if i == j { data@[i] } else { T::zero_value() });
            assert(r@ =~~= diagonal(data@.len(), data@.len(), |i: int| data@[i], T::zero_value()));
        }
        r
    }

    /// The `m` x `n` matrix with `data` on its diagonal and zeros elsewhere.
    pub fn block_diag(m: usize, n: usize, data: Vec<T>) -> (r: Matrix<T>)
        requires
            m > 0,
            n > 0,
            data@.len() == if m < n { m } else { n },
            m * n <= usize::MAX,
        ensures
            r@.len() == m,
            forall|i: int| 0 <= i < m ==> (#[trigger] r@[i]).len() == n,
            forall|i: int| 0 <= i < m && i < n ==> #[trigger] r@[i][i] == data@[i],
            forall|i: int, j: int| 0 <= i < m && 0 <= j < n && i != j ==> #[trigger] r@[i][j] == T::zero_value(),
            r.wf(),
            r@ == diagonal(m as nat, n as nat, |i: int| data@[i], T::zero_value()),
    {
        let min_dim = if m < n { m } else { n };
        let elems = m * n;
        let mut d = filled(elems, T::zero());
        write_diagonal(&mut d, m, n, min_dim, &data, Ghost(T::zero_value()));
        let r = Matrix::new(m, n, d);
        proof {
            assert forall|k: int| 0 <= k < m * n implies diag_pos(k, n as int, min_dim as int) == (k / n as int == k % n as int) by {
                lemma_split_index(k, m as int, n as int);
            }
            r.lemma_from_fn(m as nat, n as nat, |i: int, j: int| if i == j { data@[i] } else { T::zero_value() });
            assert(r@ =~~= diagonal(m as nat, n as nat, |i: int| data@[i], T::zero_value()));
        }
        r
    }
}

impl<T: Copy + Zero + One> Matrix<T> {
    /// The `m` x `n` matrix with ones on its diagonal and zeros elsewhere.
    pub fn id(m: usize, n: usize) -> (r: Matrix<T>)
        requires
            m * n <= usize::MAX,
        ensures
            r@.len() == m,
            forall|i: int| 0 <= i < m ==> (#[trigger] r@[i]).len() == n,
            forall|i: int| 0 <= i < m && i < n ==> #[trigger] r@[i][i] == T::one_value(),
            forall|i: int, j: int| 0 <= i < m && 0 <= j < n && i != j ==> #[trigger] r@[i][j] == T::zero_value(),
            r.wf(),
            r@ == diagonal(m as nat, n as nat, |i: int| T::one_value(), T::zero_value()),
    {
        let elems = m * n;
        let min_dim = if m < n { m } else { n };
        let mut d = filled(elems, T::zero());
        let ones = filled(min_dim, T::one());
        write_diagonal(&mut d, m, n, min_dim, &ones, Ghost(T::zero_value()));
        let r = Matrix { no_rows: m, data: d };
        proof {
            assert forall|k: int| 0 <= k < m * n implies diag_pos(k, n as int, min_dim as int) == (k / n as int == k % n as int) by {
                lemma_split_index(k, m as int, n as int);
            }
            assert forall|k: int| 0 <= k < m * n implies #[trigger] r.flat()[k] == (if k / n as int == k % n as int { T::one_value() } else { T::zero_value() }) by {
                if diag_pos(k, n as int, min_dim as int) {
                    assert(ones@[k / n as int] == T::one_value());
                }
            }
            r.lemma_from_fn(m as nat, n as nat, |i: int, j: int| if i == j { T::one_value() } else { T::zero_value() });
            assert(r@ =~~= diagonal(m as nat, n as nat, |i: int| T::one_value(), T::zero_value()));
        }
        r
    }
}

impl<T: Copy + One> Matrix<T> {
    /// The column vector of `no_rows` ones.
    pub fn one_vector(no_rows: usize) -> (r: Matrix<T>)
        ensures
            r.wf(),
            r@ == constant(no_rows as nat, 1, T::one_value()),
    {
        let d = filled(no_rows, T::one());
        let r = Matrix { no_rows: no_rows, data: d };
        proof {
            r.lemma_from_fn(no_rows as nat, 1, |i: int, j: int| T::one_value());
            assert(r@ =~~= constant(no_rows as nat, 1, T::one_value()));
        }
        r
    }
}

impl<T: Copy + RandomEntry> Matrix<T> {
    /// A `no_rows` x `no_cols` matrix of entries drawn at random.
    pub fn random(no_rows: usize, no_cols: usize) -> (r: Matrix<T>)
        requires
            no_rows * no_cols <= usize::MAX,
        ensures
            r.wf(),
            r@.len() == no_rows,
            forall|i: int| 0 <= i < no_rows ==> (#[trigger] r@[i]).len() == no_cols,
    {
        let elems = no_rows * no_cols;
        let mut d: Vec<T> = Vec::new();
        let mut i: usize = 0;
        while i < elems
            invariant
                i <= elems,
                d@.len() == i,
            decreases elems - i,
        {
            d.push(T::random_entry());
            i = i + 1;
        }
        let r = Matrix { no_rows: no_rows, data: d };
        proof {
            assert forall|k: int| 0 <= k < no_rows * no_cols implies #[trigger] r.flat()[k] == r.flat()[(k / no_cols as int) * no_cols + k % no_cols as int] by {
                if no_cols == 0 {
                    assert(no_rows * no_cols == 0) by (nonlinear_arith)
                        requires
                            no_cols == 0,
                    ;
                }
                lemma_split_index(k, no_rows as int, no_cols as int);
            }
            r.lemma_from_fn(no_rows as nat, no_cols as nat, |a: int, b: int| r.flat()[a * no_cols + b]);
        }
        r
    }
}

} // verus!
