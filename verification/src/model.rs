//! Mathematical model of a matrix: a sequence of rows, each a sequence of entries.
use vstd::prelude::*;
use vstd::std_specs::ops::{AddSpec, MulSpec, SubSpec};
use std::ops::{Add, Mul, Sub};

verus! {

/// Number of columns of a matrix given as a sequence of rows (0 when it has no rows).
pub open spec fn num_cols<T>(m: Seq<Seq<T>>) -> nat {
    if m.len() == 0 {
        0
    } else {
        m[0].len()
    }
}

/// Every row has the same length.
pub open spec fn is_rect<T>(m: Seq<Seq<T>>) -> bool {
    forall|r: int| 0 <= r < m.len() ==> (#[trigger] m[r]).len() == num_cols(m)
}

/// The `rows` x `cols` matrix whose entries are read row by row from `s`.
pub open spec fn reshape<T>(s: Seq<T>, rows: nat, cols: nat) -> Seq<Seq<T>> {
    Seq::new(rows, |r: int| s.subrange(r * cols, r * cols + cols))
}

/// The transpose: entry `(c, r)` of the result is entry `(r, c)` of `m`.
pub open spec fn transpose<T>(m: Seq<Seq<T>>) -> Seq<Seq<T>> {
    Seq::new(num_cols(m), |c: int| Seq::new(m.len(), |r: int| m[r][c]))
}

/// The rows of `a` extended by the rows of `b` (`a` and `b` side by side).
pub open spec fn beside<T>(a: Seq<Seq<T>>, b: Seq<Seq<T>>) -> Seq<Seq<T>> {
    Seq::new(a.len(), |r: int| a[r] + b[r])
}

/// Index `i` of a sequence from which the entry at `k` was removed.
pub open spec fn skip_index(i: int, k: int) -> int {
    if i < k {
        i
    } else {
        i + 1
    }
}

/// The matrix without row `row` and column `col`.
pub open spec fn minor_of<T>(m: Seq<Seq<T>>, row: int, col: int) -> Seq<Seq<T>> {
    Seq::new(
        (m.len() - 1) as nat,
        |r: int| Seq::new((num_cols(m) - 1) as nat, |c: int| m[skip_index(r, row)][skip_index(c, col)]),
    )
}

/// The `(end_row - start_row)` x `(end_col - start_col)` matrix whose entry `(i, j)`
/// is the entry stored at `(start_row + i) * cols + start_col + j` in the
/// row-by-row layout of `m`. When `end_col <= cols` it is the block of rows
/// `start_row..end_row` and columns `start_col..end_col` (see `lemma_window_is_block`).
pub open spec fn window<T>(m: Seq<Seq<T>>, start_row: int, start_col: int, end_row: int, end_col: int) -> Seq<Seq<T>> {
    Seq::new(
        (end_row - start_row) as nat,
        |i: int|
            Seq::new(
                (end_col - start_col) as nat,
                |j: int| m.flatten()[(start_row + i) * num_cols(m) + start_col + j],
            ),
    )
}

/// Rows `start_row..end_row`, columns `start_col..end_col`.
pub open spec fn block<T>(m: Seq<Seq<T>>, start_row: int, start_col: int, end_row: int, end_col: int) -> Seq<Seq<T>> {
    Seq::new((end_row - start_row) as nat, |i: int| m[start_row + i].subrange(start_col, end_col))
}

/// Column `col` as a matrix with one column.
pub open spec fn column_of<T>(m: Seq<Seq<T>>, col: int) -> Seq<Seq<T>> {
    Seq::new(m.len(), |r: int| seq![m[r][col]])
}

/// Row `i` of the result is row `idx[i]` of `m`.
pub open spec fn pick_rows<T>(m: Seq<Seq<T>>, idx: Seq<usize>) -> Seq<Seq<T>> {
    Seq::new(idx.len(), |i: int| m[idx[i] as int])
}

/// Column `j` of the result is column `idx[j]` of `m`.
pub open spec fn pick_cols<T>(m: Seq<Seq<T>>, idx: Seq<usize>) -> Seq<Seq<T>> {
    Seq::new(m.len(), |r: int| Seq::new(idx.len(), |j: int| m[r][idx[j] as int]))
}

/// The positions at which `sel` holds `true`, in increasing order.
pub open spec fn true_indices(sel: Seq<bool>) -> Seq<usize>
    decreases sel.len(),
{
    if sel.len() == 0 {
        Seq::empty()
    } else {
        let init = true_indices(sel.drop_last());
        if sel.last() {
            init.push((sel.len() - 1) as usize)
        } else {
            init
        }
    }
}

/// Column `col` as a sequence of entries.
pub open spec fn column_entries<T>(m: Seq<Seq<T>>, col: int) -> Seq<T> {
    Seq::new(m.len(), |r: int| m[r][col])
}

/// `trace` records a run of `f` over `items` from `start` to `end`: each
/// element of `trace` is a possible result of `f` on the previous one and the
/// next item.
pub open spec fn is_fold_trace<S, T, F: Fn(&S, &T) -> S>(f: F, trace: Seq<S>, start: S, items: Seq<T>, end: S) -> bool {
    &&& trace.len() == items.len() + 1
    &&& trace[0] == start
    &&& trace[items.len() as int] == end
    &&& forall|k: int| 0 <= k < items.len() ==> call_ensures(f, (&trace[k], &items[k]), #[trigger] trace[k + 1])
}

/// Some run of `f` over `items` from `start` ends in `end`.
pub open spec fn folds_to<S, T, F: Fn(&S, &T) -> S>(f: F, start: S, items: Seq<T>, end: S) -> bool {
    exists|trace: Seq<S>| #[trigger] is_fold_trace(f, trace, start, items, end)
}

/// Down each column `c` of `m`, `f` accepts every value that a run of `f` from
/// `init[c]` over the entries above row `k` can reach, together with the entry at
/// row `k`: a fold of each column from `init` can be carried out.
pub open spec fn fold_callable<S, T, F: Fn(&S, &T) -> S>(f: F, init: Seq<S>, m: Seq<Seq<T>>) -> bool {
    forall|c: int, k: int, s: S|
        0 <= c < init.len() && 0 <= k < m.len() && #[trigger] folds_to(f, init[c], column_entries(m, c).take(k), s)
            ==> call_requires(f, (&s, &m[k][c]))
}

/// `keep[i]` is a possible answer of `f` on `(m, i)` for each of the `n` positions.
pub open spec fn answers<M, F: Fn(&M, usize) -> bool>(f: F, m: &M, n: nat, keep: Seq<bool>) -> bool {
    &&& keep.len() == n
    &&& forall|i: int| 0 <= i < n ==> call_ensures(f, (m, i as usize), #[trigger] keep[i])
}

/// Entry `(i, j)` of the result is `f` of entry `(i, j)` of `m`.
pub open spec fn map_entries<T, S>(m: Seq<Seq<T>>, f: spec_fn(T) -> S) -> Seq<Seq<S>> {
    Seq::new(m.len(), |i: int| Seq::new(m[i].len(), |j: int| f(m[i][j])))
}

/// Entry `(i, j)` of the result is `f` of entries `(i, j)` of `a` and of `b`.
pub open spec fn zip_entries<T>(a: Seq<Seq<T>>, b: Seq<Seq<T>>, f: spec_fn(T, T) -> T) -> Seq<Seq<T>> {
    Seq::new(a.len(), |i: int| Seq::new(a[i].len(), |j: int| f(a[i][j], b[i][j])))
}

/// `f` can be applied to each pair of entries of `a` and `b` at the same place.
pub open spec fn all_pairs<T>(a: Seq<Seq<T>>, b: Seq<Seq<T>>, f: spec_fn(T, T) -> bool) -> bool {
    forall|i: int, j: int| 0 <= i < a.len() && 0 <= j < a[i].len() ==> #[trigger] f(a[i][j], b[i][j])
}

/// `f` holds of each entry of `m`.
pub open spec fn all_entries<T>(m: Seq<Seq<T>>, f: spec_fn(T) -> bool) -> bool {
    forall|i: int, j: int| 0 <= i < m.len() && 0 <= j < m[i].len() ==> #[trigger] f(m[i][j])
}

/// The `rows` x `cols` matrix with `d(i)` at `(i, i)` and `z` everywhere else.
pub open spec fn diagonal<T>(rows: nat, cols: nat, d: spec_fn(int) -> T, z: T) -> Seq<Seq<T>> {
    Seq::new(rows, |i: int| Seq::new(cols, |j: int| if i == j { d(i) } else { z }))
}

/// The `rows` x `cols` matrix with `v` everywhere.
pub open spec fn constant<T>(rows: nat, cols: nat, v: T) -> Seq<Seq<T>> {
    Seq::new(rows, |i: int| Seq::new(cols, |j: int| v))
}

/// The sum, starting from `zero`, of the first `k` products `a[row][i] * b[i][col]`,
/// added one after the other.
pub open spec fn dot<T: Add<Output = T> + Mul<Output = T>>(a: Seq<Seq<T>>, b: Seq<Seq<T>>, row: int, col: int, k: int, zero: T) -> T
    decreases k,
{
    if k <= 0 {
        zero
    } else {
        dot(a, b, row, col, k - 1, zero).add_spec(a[row][k - 1].mul_spec(b[k - 1][col]))
    }
}

/// The matrix product of `a` and `b`, each entry summed from `zero`.
pub open spec fn product<T: Add<Output = T> + Mul<Output = T>>(a: Seq<Seq<T>>, b: Seq<Seq<T>>, zero: T) -> Seq<Seq<T>> {
    Seq::new(a.len(), |row: int| Seq::new(num_cols(b), |col: int| dot(a, b, row, col, num_cols(a) as int, zero)))
}

/// Step `k` of the partial sums of entry `(row, col)` of the product of `a` and `b`
/// can be computed: the product `a[row][k] * b[k][col]`, and its sum with the
/// previous partial sum.
pub open spec fn step_defined<T: Add<Output = T> + Mul<Output = T>>(a: Seq<Seq<T>>, b: Seq<Seq<T>>, row: int, col: int, k: int, zero: T) -> bool {
    &&& a[row][k].mul_req(b[k][col])
    &&& dot(a, b, row, col, k, zero).add_req(a[row][k].mul_spec(b[k][col]))
}

/// Each product and each partial sum of the matrix product of `a` and `b` can be computed.
pub open spec fn product_defined<T: Add<Output = T> + Mul<Output = T>>(a: Seq<Seq<T>>, b: Seq<Seq<T>>, zero: T) -> bool {
    forall|row: int, col: int, k: int|
        0 <= row < a.len() && 0 <= col < num_cols(b) && 0 <= k < num_cols(a) ==> #[trigger] step_defined(a, b, row, col, k, zero)
}

/// `+` and `*` of `T` accept any operands.
pub open spec fn add_mul_total<T: Add<Output = T> + Mul<Output = T>>() -> bool {
    &&& forall|x: T, y: T| #[trigger] x.add_req(y)
    &&& forall|x: T, y: T| #[trigger] x.mul_req(y)
}

/// The product of `a` and `b` can be computed: when `+` and `*` of `T` follow
/// their specifications, each product and partial sum is in their domain;
/// otherwise they accept any operands.
pub open spec fn product_computable<T: Add<Output = T> + Mul<Output = T>>(a: Seq<Seq<T>>, b: Seq<Seq<T>>, zero: T) -> bool {
    if T::obeys_add_spec() && T::obeys_mul_spec() {
        product_defined(a, b, zero)
    } else {
        add_mul_total::<T>()
    }
}

/// The sum, starting from `zero`, of the first `k` diagonal entries, added one after the other.
pub open spec fn diagonal_sum<T: Add<Output = T>>(m: Seq<Seq<T>>, k: int, zero: T) -> T
    decreases k,
{
    if k <= 0 {
        zero
    } else {
        diagonal_sum(m, k - 1, zero).add_spec(m[k - 1][k - 1])
    }
}

/// The determinant of a square matrix with at least one row, expanded along the
/// first row.
pub open spec fn determinant<T: Add<Output = T> + Sub<Output = T> + Mul<Output = T>>(m: Seq<Seq<T>>, zero: T) -> T
    decreases m.len(), 1int, 0int,
{
    if m.len() <= 1 {
        m[0][0]
    } else {
        cofactor_sum(m, m.len() as int, zero)
    }
}

/// The first `k` terms of the expansion of the determinant along the first row,
/// added and subtracted in turn, starting from `zero`.
pub open spec fn cofactor_sum<T: Add<Output = T> + Sub<Output = T> + Mul<Output = T>>(m: Seq<Seq<T>>, k: int, zero: T) -> T
    decreases m.len(), 0int, k,
{
    if k <= 0 || m.len() <= 1 {
        zero
    } else {
        let prev = cofactor_sum(m, k - 1, zero);
        let term = m[0][k - 1].mul_spec(determinant(minor_of(m, 0, k - 1), zero));
        if (k - 1) % 2 == 0 {
            prev.add_spec(term)
        } else {
            prev.sub_spec(term)
        }
    }
}

/// Each product, sum and difference in the expansion of the determinant can be computed.
pub open spec fn determinant_defined<T: Add<Output = T> + Sub<Output = T> + Mul<Output = T>>(m: Seq<Seq<T>>, zero: T) -> bool
    decreases m.len(), 1int, 0int,
{
    m.len() > 1 ==> cofactors_defined(m, m.len() as int, zero)
}

/// The first `k` terms of the expansion of the determinant, and their sum, can be computed.
pub open spec fn cofactors_defined<T: Add<Output = T> + Sub<Output = T> + Mul<Output = T>>(m: Seq<Seq<T>>, k: int, zero: T) -> bool
    decreases m.len(), 0int, k,
{
    if k <= 0 || m.len() <= 1 {
        true
    } else {
        let minor = minor_of(m, 0, k - 1);
        let d = determinant(minor, zero);
        let term = m[0][k - 1].mul_spec(d);
        &&& cofactors_defined(m, k - 1, zero)
        &&& determinant_defined(minor, zero)
        &&& m[0][k - 1].mul_req(d)
        &&& if (k - 1) % 2 == 0 {
            cofactor_sum(m, k - 1, zero).add_req(term)
        } else {
            cofactor_sum(m, k - 1, zero).sub_req(term)
        }
    }
}

/// The first `k` diagonal entries can be summed: when `+` of `T` follows its
/// specification, each partial sum is in its domain; otherwise `+` accepts any operands.
pub open spec fn trace_computable<T: Add<Output = T>>(m: Seq<Seq<T>>, k: int, zero: T) -> bool {
    if T::obeys_add_spec() {
        forall|i: int| 0 <= i < k ==> #[trigger] diagonal_sum(m, i, zero).add_req(m[i][i])
    } else {
        forall|x: T, y: T| #[trigger] x.add_req(y)
    }
}

/// The determinant can be computed: when `+`, `-` and `*` of `T` follow their
/// specifications, each step of the expansion is in their domain; otherwise they
/// accept any operands.
pub open spec fn determinant_computable<T: Add<Output = T> + Sub<Output = T> + Mul<Output = T>>(m: Seq<Seq<T>>, zero: T) -> bool {
    if T::obeys_add_spec() && T::obeys_sub_spec() && T::obeys_mul_spec() {
        determinant_defined(m, zero)
    } else {
        &&& add_mul_total::<T>()
        &&& forall|x: T, y: T| #[trigger] x.sub_req(y)
    }
}

/// Reading the rows of a rectangular matrix back from its concatenated rows gives the matrix.
pub proof fn lemma_reshape_flatten<T>(m: Seq<Seq<T>>, cols: nat)
    requires
        forall|r: int| 0 <= r < m.len() ==> (#[trigger] m[r]).len() == cols,
    ensures
        m.flatten().len() == m.len() * cols,
        reshape(m.flatten(), m.len(), cols) == m,
    decreases m.len(),
{
    broadcast use Seq::lemma_flatten_push;

    if m.len() == 0 {
        assert(reshape(m.flatten(), m.len(), cols) =~= m);
    } else {
        let init = m.drop_last();
        let last = m.last();
        lemma_reshape_flatten(init, cols);
        assert(init.push(last) =~= m);
        assert(m.flatten() =~= init.flatten() + last);
        let n = init.len();
        assert((n + 1) * cols == n * cols + cols) by (nonlinear_arith);
        assert forall|r: int| 0 <= r < m.len() implies #[trigger] reshape(m.flatten(), m.len(), cols)[r] =~= m[r] by {
            if r < n {
                assert(r * cols + cols <= n * cols) by (nonlinear_arith)
                    requires
                        0 <= r < n,
                ;
                assert(0 <= r * cols) by (nonlinear_arith)
                    requires
                        0 <= r,
                ;
                assert(reshape(init.flatten(), n, cols)[r] == init[r]);
            }
        }
        assert(reshape(m.flatten(), m.len(), cols) =~= m);
    }
}

/// Concatenating the rows of a reshaped sequence gives the sequence back.
pub proof fn lemma_flatten_reshape<T>(s: Seq<T>, rows: nat, cols: nat)
    requires
        s.len() == rows * cols,
    ensures
        reshape(s, rows, cols).flatten() == s,
{
    let m = reshape(s, rows, cols);
    assert forall|r: int| 0 <= r < m.len() implies (#[trigger] m[r]).len() == cols by {
        assert(r * cols + cols <= rows * cols) by (nonlinear_arith)
            requires
                0 <= r < rows,
        ;
        assert(0 <= r * cols) by (nonlinear_arith)
            requires
                0 <= r,
        ;
    }
    lemma_reshape_flatten(m, cols);
    let f = m.flatten();
    assert forall|i: int| 0 <= i < s.len() implies f[i] == s[i] by {
        if cols == 0 {
            assert(rows * cols == 0) by (nonlinear_arith)
                requires
                    cols == 0,
            ;
        }
        let r = i / (cols as int);
        let c = i % (cols as int);
        vstd::arithmetic::div_mod::lemma_fundamental_div_mod(i, cols as int);
        vstd::arithmetic::div_mod::lemma_mod_bound(i, cols as int);
        vstd::arithmetic::div_mod::lemma_div_pos_is_pos(i, cols as int);
        assert(cols * r == r * cols) by (nonlinear_arith);
        if r >= rows {
            assert(r * cols >= rows * cols) by (nonlinear_arith)
                requires
                    r >= rows,
                    cols >= 0,
            ;
        }
        assert(r * cols + cols <= rows * cols) by (nonlinear_arith)
            requires
                0 <= r < rows,
        ;
        assert(reshape(f, rows, cols)[r][c] == m[r][c]);
    }
    assert(f =~= s);
}

} // verus!
