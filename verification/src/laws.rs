//! Properties that relate the operations of the library to each other.
use vstd::prelude::*;
use std::ops::{Add, Neg, Sub};
use vstd::std_specs::ops::{AddSpec, MulSpec, NegSpec, SubSpec};
use crate::element::{One, Zero};
use crate::model::{minor_of, skip_index, constant, reshape, cofactor_sum, cofactors_defined, column_of, determinant, determinant_defined,
    all_entries, all_pairs, beside, block, diagonal, diagonal_sum, dot, is_rect, map_entries,
    num_cols, pick_cols, pick_rows, product, product_defined, step_defined, transpose, true_indices, window,
    zip_entries,
};

verus! {

/// Transposing twice gives the matrix back (so `t` and `mt` undo themselves).
pub proof fn lemma_transpose_transpose<T>(m: Seq<Seq<T>>)
    requires
        is_rect(m),
        m.len() > 0,
        num_cols(m) > 0,
    ensures
        is_rect(transpose(m)),
        transpose(transpose(m)) == m,
{
    let t = transpose(m);
    assert(num_cols(t) == m.len());
    assert forall|r: int| 0 <= r < m.len() implies #[trigger] transpose(t)[r] =~= m[r] by {
        assert(m[r].len() == num_cols(m));
    }
    assert(transpose(t) =~= m);
}

/// Transposing two matrices placed side by side stacks their transposes:
/// `cr` and `cb` are mirror images of each other under `t`.
pub proof fn lemma_transpose_beside<T>(a: Seq<Seq<T>>, b: Seq<Seq<T>>)
    requires
        is_rect(a),
        is_rect(b),
        a.len() == b.len(),
        a.len() > 0,
    ensures
        transpose(beside(a, b)) == transpose(a) + transpose(b),
{
    let ab = beside(a, b);
    let ca = num_cols(a) as int;
    assert(num_cols(ab) == num_cols(a) + num_cols(b)) by {
        assert(ab[0] == a[0] + b[0]);
    }
    assert forall|c: int| 0 <= c < num_cols(ab) implies #[trigger] transpose(ab)[c] =~= (transpose(a) + transpose(b))[c] by {
        assert forall|r: int| 0 <= r < a.len() implies #[trigger] transpose(ab)[c][r] == (transpose(a) + transpose(b))[c][r] by {
            assert(a[r].len() == ca);
            assert(ab[r] == a[r] + b[r]);
            if c >= ca {
                assert((transpose(a) + transpose(b))[c] == transpose(b)[c - ca]);
            }
        }
    }
    assert(transpose(ab) =~= transpose(a) + transpose(b));
}

/// The positions listed for a selector are increasing, lie inside it, and are
/// exactly those at which it holds `true` (what `select_rows` and
/// `select_columns` keep).
pub proof fn lemma_true_indices(sel: Seq<bool>)
    requires
        sel.len() <= usize::MAX,
    ensures
        forall|i: int, j: int|
            0 <= i < j < true_indices(sel).len() ==> true_indices(sel)[i] < true_indices(sel)[j],
        forall|i: int| 0 <= i < true_indices(sel).len() ==> #[trigger] true_indices(sel)[i] < sel.len(),
        forall|k: int| 0 <= k < sel.len() ==> (sel[k] <==> true_indices(sel).contains(k as usize)),
    decreases sel.len(),
{
    if sel.len() > 0 {
        let init = sel.drop_last();
        lemma_true_indices(init);
        let ti = true_indices(init);
        let n = sel.len() - 1;
        let all = true_indices(sel);
        assert(all == if sel.last() { ti.push(n as usize) } else { ti });
        assert forall|k: int| 0 <= k < sel.len() implies (sel[k] <==> all.contains(k as usize)) by {
            if k < n {
                assert(init[k] == sel[k]);
                if all.contains(k as usize) {
                    let i = all.index_of(k as usize);
                    if i < ti.len() {
                        assert(ti[i] == k as usize);
                    } else {
                        assert(all[i] == n as usize);
                    }
                }
                if ti.contains(k as usize) {
                    let i = ti.index_of(k as usize);
                    assert(all[i] == k as usize);
                }
            } else {
                if sel[k] {
                    assert(all[ti.len() as int] == k as usize);
                } else {
                    if all.contains(k as usize) {
                        let i = all.index_of(k as usize);
                        assert(ti[i] < n);
                    }
                }
            }
        }
        assert forall|i: int, j: int| 0 <= i < j < all.len() implies all[i] < all[j] by {
            if j < ti.len() {
                assert(ti[i] < ti[j]);
            } else {
                assert(ti[i] < init.len());
            }
        }
        assert forall|i: int| 0 <= i < all.len() implies #[trigger] all[i] < sel.len() by {
            if i < ti.len() {
                assert(ti[i] < init.len());
            }
        }
    }
}

/// Selecting every row, or every column, gives the matrix back.
pub proof fn lemma_select_all<T>(m: Seq<Seq<T>>, rows: Seq<bool>, cols: Seq<bool>)
    requires
        rows.len() <= usize::MAX,
        cols.len() <= usize::MAX,
        is_rect(m),
        rows.len() == m.len(),
        cols.len() == num_cols(m),
        forall|i: int| 0 <= i < rows.len() ==> rows[i],
        forall|j: int| 0 <= j < cols.len() ==> cols[j],
    ensures
        pick_rows(m, true_indices(rows)) == m,
        pick_cols(m, true_indices(cols)) == m,
{
    lemma_all_true_indices(rows);
    lemma_all_true_indices(cols);
    assert(pick_rows(m, true_indices(rows)) =~= m);
    assert forall|r: int| 0 <= r < m.len() implies #[trigger] pick_cols(m, true_indices(cols))[r] =~= m[r] by {
        assert(m[r].len() == num_cols(m));
    }
    assert(pick_cols(m, true_indices(cols)) =~= m);
}

/// When every position is selected, the selected positions are `0, 1, ...`.
proof fn lemma_all_true_indices(sel: Seq<bool>)
    requires
        sel.len() <= usize::MAX,
        forall|i: int| 0 <= i < sel.len() ==> sel[i],
    ensures
        true_indices(sel).len() == sel.len(),
        forall|i: int| 0 <= i < sel.len() ==> #[trigger] true_indices(sel)[i] == i,
    decreases sel.len(),
{
    if sel.len() > 0 {
        let init = sel.drop_last();
        lemma_all_true_indices(init);
        assert(sel[sel.len() - 1]);
        assert(true_indices(sel) == true_indices(init).push((sel.len() - 1) as usize));
    }
}

/// Inside the bounds of the matrix, `sub_matrix` copies the block of rows
/// `start_row..end_row` and columns `start_col..end_col`.
pub proof fn lemma_window_is_block<T>(m: Seq<Seq<T>>, start_row: int, start_col: int, end_row: int, end_col: int)
    requires
        is_rect(m),
        0 <= start_row <= end_row <= m.len(),
        0 <= start_col <= end_col <= num_cols(m),
    ensures
        window(m, start_row, start_col, end_row, end_col) == block(m, start_row, start_col, end_row, end_col),
{
    let cols = num_cols(m);
    crate::model::lemma_reshape_flatten(m, cols);
    let w = window(m, start_row, start_col, end_row, end_col);
    let b = block(m, start_row, start_col, end_row, end_col);
    assert forall|i: int| 0 <= i < end_row - start_row implies #[trigger] w[i] =~= b[i] by {
        assert forall|j: int| 0 <= j < end_col - start_col implies #[trigger] w[i][j] == b[i][j] by {
            let r = start_row + i;
            let c = start_col + j;
            assert(0 <= r * cols) by (nonlinear_arith)
                requires
                    0 <= r,
            ;
            assert(r * cols + cols <= m.len() * cols) by (nonlinear_arith)
                requires
                    r < m.len(),
            ;
            assert(crate::model::reshape(m.flatten(), m.len(), cols)[r] == m[r]);
        }
    }
    assert(w =~= b);
}

/// The diagonal of a matrix and of its transpose have the same sums.
pub proof fn lemma_trace_transpose<T: std::ops::Add<Output = T>>(m: Seq<Seq<T>>, k: int, zero: T)
    requires
        is_rect(m),
        0 <= k <= m.len(),
        k <= num_cols(m),
    ensures
        diagonal_sum(transpose(m), k, zero) == diagonal_sum(m, k, zero),
    decreases k,
{
    if k > 0 {
        lemma_trace_transpose(m, k - 1, zero);
        assert(m[k - 1].len() == num_cols(m));
    }
}

/// Sums of entries of `T` do not depend on the order of the operands.
pub open spec fn add_commutes<T: Add<Output = T>>() -> bool {
    forall|x: T, y: T| #[trigger] x.add_req(y) ==> y.add_req(x) && x.add_spec(y) == y.add_spec(x)
}

/// Subtracting from an entry of `T` what was added to it gives it back.
pub open spec fn sub_undoes_add<T: Add<Output = T> + Sub<Output = T>>() -> bool {
    forall|x: T, y: T| #[trigger] x.add_req(y) ==> x.add_spec(y).sub_req(y) && x.add_spec(y).sub_spec(y) == x
}

/// Negating an entry of `T` twice gives it back.
pub open spec fn neg_involutive<T: Neg<Output = T>>() -> bool {
    forall|x: T| #[trigger] x.neg_req() ==> x.neg_spec().neg_req() && x.neg_spec().neg_spec() == x
}

/// The entries of every integer type have these three properties.
pub proof fn lemma_integer_entries()
    ensures
        add_commutes::<i8>(),
        add_commutes::<i16>(),
        add_commutes::<i32>(),
        add_commutes::<i64>(),
        add_commutes::<isize>(),
        add_commutes::<u8>(),
        add_commutes::<u16>(),
        add_commutes::<u32>(),
        add_commutes::<u64>(),
        add_commutes::<usize>(),
        sub_undoes_add::<i8>(),
        sub_undoes_add::<i16>(),
        sub_undoes_add::<i32>(),
        sub_undoes_add::<i64>(),
        sub_undoes_add::<isize>(),
        sub_undoes_add::<u8>(),
        sub_undoes_add::<u16>(),
        sub_undoes_add::<u32>(),
        sub_undoes_add::<u64>(),
        sub_undoes_add::<usize>(),
        neg_involutive::<i8>(),
        neg_involutive::<i16>(),
        neg_involutive::<i32>(),
        neg_involutive::<i64>(),
        neg_involutive::<isize>(),
{
}

/// Entrywise sums of matrices do not depend on the order of the operands, for
/// entries whose sums do not.
pub proof fn lemma_sum_commutes<T: Add<Output = T>>(a: Seq<Seq<T>>, b: Seq<Seq<T>>)
    requires
        add_commutes::<T>(),
        a.len() == b.len(),
        forall|i: int| 0 <= i < a.len() ==> (#[trigger] a[i]).len() == b[i].len(),
        all_pairs(a, b, |x: T, y: T| x.add_req(y)),
    ensures
        all_pairs(b, a, |x: T, y: T| x.add_req(y)),
        zip_entries(a, b, |x: T, y: T| x.add_spec(y)) == zip_entries(b, a, |x: T, y: T| x.add_spec(y)),
{
    assert forall|i: int, j: int| 0 <= i < b.len() && 0 <= j < b[i].len() implies (|x: T, y: T| x.add_req(y))(b[i][j], a[i][j]) by {
        assert((|x: T, y: T| x.add_req(y))(a[i][j], b[i][j]));
    }
    let l = zip_entries(a, b, |x: T, y: T| x.add_spec(y));
    let r = zip_entries(b, a, |x: T, y: T| x.add_spec(y));
    assert forall|i: int| 0 <= i < a.len() implies #[trigger] l[i] =~= r[i] by {
        assert forall|j: int| 0 <= j < a[i].len() implies #[trigger] l[i][j] == r[i][j] by {
            assert((|x: T, y: T| x.add_req(y))(a[i][j], b[i][j]));
        }
    }
    assert(l =~= r);
}

/// Subtracting what was added gives the matrix back (so `msub` undoes `madd`),
/// for entries on which subtraction undoes addition.
pub proof fn lemma_add_then_sub<T: Add<Output = T> + Sub<Output = T>>(a: Seq<Seq<T>>, b: Seq<Seq<T>>)
    requires
        sub_undoes_add::<T>(),
        a.len() == b.len(),
        forall|i: int| 0 <= i < a.len() ==> (#[trigger] a[i]).len() == b[i].len(),
        all_pairs(a, b, |x: T, y: T| x.add_req(y)),
    ensures
        all_pairs(zip_entries(a, b, |x: T, y: T| x.add_spec(y)), b, |x: T, y: T| x.sub_req(y)),
        zip_entries(zip_entries(a, b, |x: T, y: T| x.add_spec(y)), b, |x: T, y: T| x.sub_spec(y)) == a,
{
    let s = zip_entries(a, b, |x: T, y: T| x.add_spec(y));
    assert forall|i: int, j: int| 0 <= i < s.len() && 0 <= j < s[i].len() implies (|x: T, y: T| x.sub_req(y))(s[i][j], b[i][j]) by {
        assert((|x: T, y: T| x.add_req(y))(a[i][j], b[i][j]));
    }
    let d = zip_entries(s, b, |x: T, y: T| x.sub_spec(y));
    assert forall|i: int| 0 <= i < a.len() implies #[trigger] d[i] =~= a[i] by {
        assert forall|j: int| 0 <= j < a[i].len() implies #[trigger] d[i][j] == a[i][j] by {
            assert((|x: T, y: T| x.add_req(y))(a[i][j], b[i][j]));
        }
    }
    assert(d =~= a);
}

/// Negating a matrix twice gives it back, for entries that negating twice gives back.
pub proof fn lemma_neg_neg<T: Neg<Output = T>>(a: Seq<Seq<T>>)
    requires
        neg_involutive::<T>(),
        all_entries(a, |x: T| x.neg_req()),
    ensures
        all_entries(map_entries(a, |x: T| x.neg_spec()), |x: T| x.neg_req()),
        map_entries(map_entries(a, |x: T| x.neg_spec()), |x: T| x.neg_spec()) == a,
{
    let n = map_entries(a, |x: T| x.neg_spec());
    assert forall|i: int, j: int| 0 <= i < n.len() && 0 <= j < n[i].len() implies (|x: T| x.neg_req())(n[i][j]) by {
        assert((|x: T| x.neg_req())(a[i][j]));
    }
    let nn = map_entries(n, |x: T| x.neg_spec());
    assert forall|i: int| 0 <= i < a.len() implies #[trigger] nn[i] =~= a[i] by {
        assert forall|j: int| 0 <= j < a[i].len() implies #[trigger] nn[i][j] == a[i][j] by {
            assert((|x: T| x.neg_req())(a[i][j]));
        }
    }
    assert(nn =~= a);
}

/// The `n` x `n` integer identity matrix.
pub open spec fn identity(n: nat) -> Seq<Seq<i64>> {
    diagonal(n, n, |i: int| 1i64, 0i64)
}

/// Partial sums of a row of the identity times a column pick out one entry.
proof fn lemma_dot_identity_left(a: Seq<Seq<i64>>, row: int, col: int, k: int)
    requires
        is_rect(a),
        0 <= row < a.len(),
        0 <= col < num_cols(a),
        0 <= k <= a.len(),
    ensures
        dot(identity(a.len()), a, row, col, k, 0i64) == if k > row { a[row][col] } else { 0i64 },
        forall|i: int|
            0 <= i < k ==> {
                &&& (#[trigger] identity(a.len())[row][i]).mul_req(a[i][col])
                &&& dot(identity(a.len()), a, row, col, i, 0i64).add_req(identity(a.len())[row][i].mul_spec(a[i][col]))
            },
    decreases k,
{
    if k > 0 {
        lemma_dot_identity_left(a, row, col, k - 1);
        let id = identity(a.len());
        let x = a[k - 1][col];
        let prev = dot(id, a, row, col, k - 1, 0i64);
        assert(id[row][k - 1] == if row == k - 1 { 1i64 } else { 0i64 });
        assert(id[row][k - 1].mul_req(x));
        let p = id[row][k - 1].mul_spec(x);
        assert(p == if row == k - 1 { x } else { 0i64 });
        assert(prev.add_req(p));
        assert(dot(id, a, row, col, k, 0i64) == prev.add_spec(p));
    }
}

/// Partial sums of a row times a column of the identity pick out one entry.
proof fn lemma_dot_identity_right(a: Seq<Seq<i64>>, row: int, col: int, k: int)
    requires
        is_rect(a),
        0 <= row < a.len(),
        0 <= col < num_cols(a),
        0 <= k <= num_cols(a),
    ensures
        dot(a, identity(num_cols(a)), row, col, k, 0i64) == if k > col { a[row][col] } else { 0i64 },
        forall|i: int|
            0 <= i < k ==> {
                &&& (#[trigger] a[row][i]).mul_req(identity(num_cols(a))[i][col])
                &&& dot(a, identity(num_cols(a)), row, col, i, 0i64).add_req(a[row][i].mul_spec(identity(num_cols(a))[i][col]))
            },
    decreases k,
{
    if k > 0 {
        lemma_dot_identity_right(a, row, col, k - 1);
        assert(a[row].len() == num_cols(a));
        let id = identity(num_cols(a));
        let x = a[row][k - 1];
        let prev = dot(a, id, row, col, k - 1, 0i64);
        assert(id[k - 1][col] == if col == k - 1 { 1i64 } else { 0i64 });
        assert(x.mul_req(id[k - 1][col]));
        let p = x.mul_spec(id[k - 1][col]);
        assert(p == if col == k - 1 { x } else { 0i64 });
        assert(prev.add_req(p));
        assert(dot(a, id, row, col, k, 0i64) == prev.add_spec(p));
    }
}

/// Multiplying an integer matrix by the identity, on either side, can always be
/// computed and gives the matrix back.
pub proof fn lemma_identity_product(a: Seq<Seq<i64>>)
    requires
        is_rect(a),
        a.len() > 0,
        num_cols(a) > 0,
    ensures
        product_defined(identity(a.len()), a, 0i64),
        product(identity(a.len()), a, 0i64) == a,
        product_defined(a, identity(num_cols(a)), 0i64),
        product(a, identity(num_cols(a)), 0i64) == a,
{
    let id_l = identity(a.len());
    let id_r = identity(num_cols(a));
    assert(num_cols(id_l) == a.len());
    assert(num_cols(id_r) == num_cols(a));
    assert forall|row: int, col: int, k: int|
        0 <= row < id_l.len() && 0 <= col < num_cols(a) && 0 <= k < num_cols(id_l) implies #[trigger] step_defined(id_l, a, row, col, k, 0i64) by {
        lemma_dot_identity_left(a, row, col, k + 1);
    }
    let pl = product(id_l, a, 0i64);
    assert forall|row: int| 0 <= row < a.len() implies #[trigger] pl[row] =~= a[row] by {
        assert forall|col: int| 0 <= col < num_cols(a) implies #[trigger] pl[row][col] == a[row][col] by {
            lemma_dot_identity_left(a, row, col, a.len() as int);
        }
    }
    assert(pl =~= a);
    assert forall|row: int, col: int, k: int|
        0 <= row < a.len() && 0 <= col < num_cols(id_r) && 0 <= k < num_cols(a) implies #[trigger] step_defined(a, id_r, row, col, k, 0i64) by {
        lemma_dot_identity_right(a, row, col, k + 1);
        let x = a[row][k];
        let y = id_r[k][col];
        assert(y == if k == col { 1i64 } else { 0i64 });
        assert(x * y == if k == col { x as int } else { 0 }) by (nonlinear_arith)
            requires
                y == if k == col { 1i64 } else { 0i64 },
        ;
        assert(x.mul_req(y));
        assert(dot(a, id_r, row, col, k, 0i64).add_req(a[row][k].mul_spec(id_r[k][col])));
    }
    let pr = product(a, id_r, 0i64);
    assert forall|row: int| 0 <= row < a.len() implies #[trigger] pr[row] =~= a[row] by {
        assert forall|col: int| 0 <= col < num_cols(a) implies #[trigger] pr[row][col] == a[row][col] by {
            lemma_dot_identity_right(a, row, col, num_cols(a) as int);
        }
    }
    assert(pr =~= a);
}

/// The partial sums of a product of integer matrices equal those of the
/// product of the transposes, taken in the other order.
proof fn lemma_dot_transpose(a: Seq<Seq<i64>>, b: Seq<Seq<i64>>, row: int, col: int, k: int)
    requires
        is_rect(a),
        is_rect(b),
        a.len() > 0,
        num_cols(a) == b.len(),
        b.len() > 0,
        num_cols(b) > 0,
        product_defined(a, b, 0i64),
        0 <= row < a.len(),
        0 <= col < num_cols(b),
        0 <= k <= num_cols(a),
    ensures
        dot(transpose(b), transpose(a), col, row, k, 0i64) == dot(a, b, row, col, k, 0i64),
        forall|i: int|
            0 <= i < k ==> {
                &&& (#[trigger] transpose(b)[col][i]).mul_req(transpose(a)[i][row])
                &&& dot(transpose(b), transpose(a), col, row, i, 0i64).add_req(transpose(b)[col][i].mul_spec(transpose(a)[i][row]))
            },
    decreases k,
{
    if k > 0 {
        lemma_dot_transpose(a, b, row, col, k - 1);
        assert(a[row].len() == num_cols(a));
        assert(b[k - 1].len() == num_cols(b));
        assert(step_defined(a, b, row, col, k - 1, 0i64));
        let tb = transpose(b);
        let ta = transpose(a);
        let x = a[row][k - 1];
        let y = b[k - 1][col];
        assert(tb[col][k - 1] == y);
        assert(ta[k - 1][row] == x);
        assert(x * y == y * x);
        assert(y.mul_req(x));
        assert(y.mul_spec(x) == x.mul_spec(y));
        assert(dot(tb, ta, col, row, k, 0i64) == dot(tb, ta, col, row, k - 1, 0i64).add_spec(y.mul_spec(x)));
    }
}

/// The transpose of a product of integer matrices is the product of the
/// transposes in the other order, and that product can be computed whenever
/// the first one can.
pub proof fn lemma_product_transpose(a: Seq<Seq<i64>>, b: Seq<Seq<i64>>)
    requires
        is_rect(a),
        is_rect(b),
        a.len() > 0,
        num_cols(a) == b.len(),
        b.len() > 0,
        num_cols(b) > 0,
        product_defined(a, b, 0i64),
    ensures
        product_defined(transpose(b), transpose(a), 0i64),
        transpose(product(a, b, 0i64)) == product(transpose(b), transpose(a), 0i64),
{
    let tb = transpose(b);
    let ta = transpose(a);
    assert(num_cols(ta) == a.len());
    assert(num_cols(tb) == b.len());
    assert forall|c: int, r: int, k: int|
        0 <= c < tb.len() && 0 <= r < num_cols(ta) && 0 <= k < num_cols(tb) implies #[trigger] step_defined(tb, ta, c, r, k, 0i64) by {
        lemma_dot_transpose(a, b, r, c, k + 1);
        let y = tb[c][k];
        let x = ta[k][r];
        assert(y * x == x * y) by (nonlinear_arith);
        assert(y.mul_req(x));
    }
    let p = product(a, b, 0i64);
    assert(num_cols(p) == num_cols(b));
    let q = product(tb, ta, 0i64);
    assert forall|c: int| 0 <= c < num_cols(b) implies #[trigger] transpose(p)[c] =~= q[c] by {
        assert forall|r: int| 0 <= r < a.len() implies #[trigger] transpose(p)[c][r] == q[c][r] by {
            lemma_dot_transpose(a, b, r, c, num_cols(a) as int);
        }
    }
    assert(transpose(p) =~= q);
}

/// `Matrix::<i64>::id(n, n)` is the integer identity matrix.
pub proof fn lemma_id_is_identity(n: nat)
    ensures
        diagonal(n, n, |i: int| <i64 as One>::one_value(), <i64 as Zero>::zero_value()) == identity(n),
{
    let d = diagonal(n, n, |i: int| <i64 as One>::one_value(), <i64 as Zero>::zero_value());
    assert forall|i: int| 0 <= i < n implies #[trigger] d[i] =~= identity(n)[i] by {}
    assert(d =~= identity(n));
}

/// Removing a row and a column commutes with transposing.
pub proof fn lemma_minor_transpose<T>(m: Seq<Seq<T>>, row: int, col: int)
    requires
        is_rect(m),
        m.len() > 1,
        num_cols(m) > 1,
        0 <= row < m.len(),
        0 <= col < num_cols(m),
    ensures
        transpose(minor_of(m, row, col)) == minor_of(transpose(m), col, row),
{
    let mm = minor_of(m, row, col);
    let t = transpose(m);
    assert(num_cols(t) == m.len());
    assert(num_cols(mm) == num_cols(m) - 1);
    assert forall|c: int| 0 <= c < num_cols(m) - 1 implies #[trigger] transpose(mm)[c] =~= minor_of(t, col, row)[c] by {
        assert forall|r: int| 0 <= r < m.len() - 1 implies #[trigger] transpose(mm)[c][r] == minor_of(t, col, row)[c][r] by {
            assert(m[skip_index(r, row)].len() == num_cols(m));
        }
    }
    assert(transpose(mm) =~= minor_of(t, col, row));
}

/// Picking rows and then transposing picks the same columns of the transpose:
/// `permute_rows` and `permute_columns` are mirror images of each other under `t`.
pub proof fn lemma_pick_rows_transpose<T>(m: Seq<Seq<T>>, idx: Seq<usize>)
    requires
        is_rect(m),
        idx.len() > 0,
        forall|i: int| 0 <= i < idx.len() ==> #[trigger] idx[i] < m.len(),
    ensures
        transpose(pick_rows(m, idx)) == pick_cols(transpose(m), idx),
{
    let p = pick_rows(m, idx);
    assert(num_cols(p) == num_cols(m)) by {
        assert(p[0] == m[idx[0] as int]);
    }
    assert forall|c: int| 0 <= c < num_cols(m) implies #[trigger] transpose(p)[c] =~= pick_cols(transpose(m), idx)[c] by {}
    assert(transpose(p) =~= pick_cols(transpose(m), idx));
}

/// Scaling an integer matrix by one gives it back.
pub proof fn lemma_scale_by_one(a: Seq<Seq<i64>>)
    ensures
        all_entries(a, |x: i64| 1i64.mul_req(x)),
        map_entries(a, |x: i64| 1i64.mul_spec(x)) == a,
{
    let s = map_entries(a, |x: i64| 1i64.mul_spec(x));
    assert forall|i: int| 0 <= i < a.len() implies #[trigger] s[i] =~= a[i] by {}
    assert(s =~= a);
}

/// After `set(row, col, v)`, `get(row, col)` gives `v` and every other entry is unchanged.
pub proof fn lemma_set_then_get<T>(m: Seq<Seq<T>>, row: int, col: int, v: T)
    requires
        is_rect(m),
        0 <= row < m.len(),
        0 <= col < num_cols(m),
    ensures
        m.update(row, m[row].update(col, v))[row][col] == v,
        forall|i: int, j: int|
            0 <= i < m.len() && 0 <= j < num_cols(m) && (i != row || j != col) ==> #[trigger] m.update(row, m[row].update(col, v))[i][j] == m[i][j],
        is_rect(m.update(row, m[row].update(col, v))),
{
    assert(m[row].len() == num_cols(m));
    let u = m.update(row, m[row].update(col, v));
    assert(num_cols(u) == num_cols(m)) by {
        if row != 0 {
            assert(u[0] == m[0]);
        }
    }
    assert forall|r: int| 0 <= r < u.len() implies (#[trigger] u[r]).len() == num_cols(u) by {
        if r != row {
            assert(u[r] == m[r]);
        }
    }
}


/// The trace of an integer matrix that is zero on the diagonal except at
/// `(i, i)` is the entry at `(i, i)`: every diagonal entry below `k`, the last
/// one included, counts once.
pub proof fn lemma_trace_single_entry(m: Seq<Seq<i64>>, k: int, i: int)
    requires
        is_rect(m),
        0 <= i < k,
        k <= m.len(),
        k <= num_cols(m),
        forall|p: int| 0 <= p < k && p != i ==> #[trigger] m[p][p] == 0,
    ensures
        diagonal_sum(m, k, 0i64) == m[i][i],
{
    lemma_trace_single_entry_prefix(m, k, i, k);
}

/// The partial sums of a diagonal that is zero except at `(i, i)`.
proof fn lemma_trace_single_entry_prefix(m: Seq<Seq<i64>>, k: int, i: int, q: int)
    requires
        is_rect(m),
        0 <= i < k,
        0 <= q <= k,
        k <= m.len(),
        k <= num_cols(m),
        forall|p: int| 0 <= p < k && p != i ==> #[trigger] m[p][p] == 0,
    ensures
        diagonal_sum(m, q, 0i64) == if q <= i { 0i64 } else { m[i][i] },
    decreases q,
{
    if q > 0 {
        lemma_trace_single_entry_prefix(m, k, i, q - 1);
        if q - 1 != i {
            assert(m[q - 1][q - 1] == 0);
        }
    }
}

/// The trace is additive: when the diagonal of `c` is the sum of those of `a`
/// and `b`, and no partial sum overflows, the trace of `c` is the sum of the
/// traces of `a` and `b`.
pub proof fn lemma_trace_additive(a: Seq<Seq<i64>>, b: Seq<Seq<i64>>, c: Seq<Seq<i64>>, k: int)
    requires
        0 <= k,
        forall|p: int| 0 <= p < k ==> #[trigger] c[p][p] == a[p][p] + b[p][p],
        forall|p: int| 0 <= p < k ==> (#[trigger] diagonal_sum(a, p, 0i64)).add_req(a[p][p]),
        forall|p: int| 0 <= p < k ==> (#[trigger] diagonal_sum(b, p, 0i64)).add_req(b[p][p]),
        forall|p: int| 0 <= p < k ==> (#[trigger] diagonal_sum(c, p, 0i64)).add_req(c[p][p]),
    ensures
        diagonal_sum(c, k, 0i64) == diagonal_sum(a, k, 0i64) + diagonal_sum(b, k, 0i64),
    decreases k,
{
    if k > 0 {
        lemma_trace_additive(a, b, c, k - 1);
        assert(c[k - 1][k - 1] == a[k - 1][k - 1] + b[k - 1][k - 1]);
        assert(diagonal_sum(a, k - 1, 0i64).add_req(a[k - 1][k - 1]));
        assert(diagonal_sum(b, k - 1, 0i64).add_req(b[k - 1][k - 1]));
        assert(diagonal_sum(c, k - 1, 0i64).add_req(c[k - 1][k - 1]));
    }
}

/// `diagonal(rows, cols, d, z)` has `rows` rows of `cols` entries, `d(i)` at
/// `(i, i)` for every `i` below both, and `z` everywhere else: what `id`,
/// `diag` and `block_diag` build, whatever the shape.
pub proof fn lemma_diagonal_entries<T>(rows: nat, cols: nat, d: spec_fn(int) -> T, z: T)
    ensures
        diagonal(rows, cols, d, z).len() == rows,
        forall|i: int| 0 <= i < rows ==> (#[trigger] diagonal(rows, cols, d, z)[i]).len() == cols,
        forall|i: int| 0 <= i < rows && i < cols ==> #[trigger] diagonal(rows, cols, d, z)[i][i] == d(i),
        forall|i: int, j: int|
            0 <= i < rows && 0 <= j < cols && i != j ==> #[trigger] diagonal(rows, cols, d, z)[i][j] == z,
{
}

/// Column `c` taken as a matrix has a row for every row of `m`, holding the
/// entry of column `c` there; it is row `c` of the transpose, stood upright.
pub proof fn lemma_column_entries<T>(m: Seq<Seq<T>>, c: int)
    requires
        is_rect(m),
        0 <= c < num_cols(m),
    ensures
        column_of(m, c).len() == m.len(),
        forall|i: int| 0 <= i < m.len() ==> (#[trigger] column_of(m, c)[i]).len() == 1,
        forall|i: int| 0 <= i < m.len() ==> #[trigger] column_of(m, c)[i][0] == m[i][c],
        forall|i: int| 0 <= i < m.len() ==> #[trigger] column_of(m, c)[i][0] == transpose(m)[c][i],
{
}

/// The determinant of a 1 x 1 matrix is its entry.
pub proof fn lemma_det_single<T: Add<Output = T> + Sub<Output = T> + std::ops::Mul<Output = T>>(m: Seq<Seq<T>>, zero: T)
    requires
        m.len() == 1,
    ensures
        determinant(m, zero) == m[0][0],
{
}

/// When the first row of a square integer matrix of size at least 2 is zero
/// except in column `k`, the determinant is that entry times the determinant of
/// the minor without row 0 and column `k`, with the sign `(-1)^k`: every column
/// counts, in its place.
pub proof fn lemma_det_single_entry_row(m: Seq<Seq<i64>>, k: int)
    requires
        m.len() >= 2,
        0 <= k < m.len(),
        forall|j: int| 0 <= j < m.len() && j != k ==> #[trigger] m[0][j] == 0,
        determinant_defined(m, 0i64),
    ensures
        determinant(m, 0i64) == if k % 2 == 0 {
            m[0][k] * determinant(minor_of(m, 0, k), 0i64)
        } else {
            -(m[0][k] * determinant(minor_of(m, 0, k), 0i64))
        },
{
    lemma_det_single_entry_prefix(m, k, m.len() as int);
}

/// The partial expansions of a determinant whose first row is zero except in column `k`.
proof fn lemma_det_single_entry_prefix(m: Seq<Seq<i64>>, k: int, q: int)
    requires
        m.len() >= 2,
        0 <= k < m.len(),
        0 <= q <= m.len(),
        forall|j: int| 0 <= j < m.len() && j != k ==> #[trigger] m[0][j] == 0,
        cofactors_defined(m, q, 0i64),
    ensures
        cofactor_sum(m, q, 0i64) == if q <= k {
            0int
        } else if k % 2 == 0 {
            m[0][k] * determinant(minor_of(m, 0, k), 0i64)
        } else {
            -(m[0][k] * determinant(minor_of(m, 0, k), 0i64))
        },
    decreases q,
{
    if q > 0 {
        lemma_det_single_entry_prefix(m, k, q - 1);
        let d = determinant(minor_of(m, 0, q - 1), 0i64);
        if q - 1 != k {
            assert(m[0][q - 1] == 0);
            assert(0i64 * d == 0) by (nonlinear_arith);
        }
    }
}

/// The determinant is additive in the first row: when the first row of `c` is
/// the sum of those of `a` and `b`, the other rows of all three agree, and no
/// step of the three expansions overflows, the determinant of `c` is the sum of
/// those of `a` and `b`.
pub proof fn lemma_det_additive_first_row(a: Seq<Seq<i64>>, b: Seq<Seq<i64>>, c: Seq<Seq<i64>>)
    requires
        c.len() >= 2,
        a.len() == c.len(),
        b.len() == c.len(),
        num_cols(a) == num_cols(c),
        num_cols(b) == num_cols(c),
        forall|i: int| 1 <= i < c.len() ==> #[trigger] a[i] == c[i] && b[i] == c[i],
        forall|j: int| 0 <= j < c.len() ==> #[trigger] c[0][j] == a[0][j] + b[0][j],
        determinant_defined(a, 0i64),
        determinant_defined(b, 0i64),
        determinant_defined(c, 0i64),
    ensures
        determinant(c, 0i64) == determinant(a, 0i64) + determinant(b, 0i64),
{
    lemma_det_additive_prefix(a, b, c, c.len() as int);
}

/// The partial expansions along a first row that is a sum.
proof fn lemma_det_additive_prefix(a: Seq<Seq<i64>>, b: Seq<Seq<i64>>, c: Seq<Seq<i64>>, q: int)
    requires
        c.len() >= 2,
        a.len() == c.len(),
        b.len() == c.len(),
        num_cols(a) == num_cols(c),
        num_cols(b) == num_cols(c),
        forall|i: int| 1 <= i < c.len() ==> #[trigger] a[i] == c[i] && b[i] == c[i],
        forall|j: int| 0 <= j < c.len() ==> #[trigger] c[0][j] == a[0][j] + b[0][j],
        0 <= q <= c.len(),
        cofactors_defined(a, q, 0i64),
        cofactors_defined(b, q, 0i64),
        cofactors_defined(c, q, 0i64),
    ensures
        cofactor_sum(c, q, 0i64) == cofactor_sum(a, q, 0i64) + cofactor_sum(b, q, 0i64),
    decreases q,
{
    if q > 0 {
        lemma_det_additive_prefix(a, b, c, q - 1);
        let j = q - 1;
        assert(minor_of(a, 0, j) =~~= minor_of(c, 0, j)) by {
            assert forall|r: int| 0 <= r < minor_of(c, 0, j).len() implies #[trigger] minor_of(a, 0, j)[r] =~= minor_of(c, 0, j)[r] by {
                assert(a[skip_index(r, 0)] == c[skip_index(r, 0)]);
            }
        }
        assert(minor_of(b, 0, j) =~~= minor_of(c, 0, j)) by {
            assert forall|r: int| 0 <= r < minor_of(c, 0, j).len() implies #[trigger] minor_of(b, 0, j)[r] =~= minor_of(c, 0, j)[r] by {
                assert(a[skip_index(r, 0)] == c[skip_index(r, 0)] && b[skip_index(r, 0)] == c[skip_index(r, 0)]);
            }
        }
        let d = determinant(minor_of(c, 0, j), 0i64);
        assert(c[0][j] == a[0][j] + b[0][j]);
        assert(c[0][j] * d == a[0][j] * d + b[0][j] * d) by (nonlinear_arith)
            requires
                c[0][j] == a[0][j] + b[0][j],
        ;
    }
}


/// Entry `(c, r)` of the transpose is entry `(r, c)`; the transpose has a row
/// for each column and a column for each row.
pub proof fn lemma_transpose_entries<T>(m: Seq<Seq<T>>)
    requires
        is_rect(m),
        m.len() > 0,
    ensures
        transpose(m).len() == num_cols(m),
        forall|c: int| 0 <= c < num_cols(m) ==> (#[trigger] transpose(m)[c]).len() == m.len(),
        forall|r: int, c: int| 0 <= r < m.len() && 0 <= c < num_cols(m) ==> #[trigger] transpose(m)[c][r] == m[r][c],
{
}

/// Side by side (`cr`): each row holds the row of `a`, then the row of `b`.
pub proof fn lemma_beside_entries<T>(a: Seq<Seq<T>>, b: Seq<Seq<T>>)
    requires
        a.len() == b.len(),
        is_rect(a),
        is_rect(b),
    ensures
        beside(a, b).len() == a.len(),
        forall|r: int| 0 <= r < a.len() ==> (#[trigger] beside(a, b)[r]).len() == num_cols(a) + num_cols(b),
        forall|r: int, c: int| 0 <= r < a.len() && 0 <= c < num_cols(a) ==> #[trigger] beside(a, b)[r][c] == a[r][c],
        forall|r: int, c: int|
            0 <= r < a.len() && 0 <= c < num_cols(b) ==> #[trigger] beside(a, b)[r][num_cols(a) + c] == b[r][c],
{
    assert forall|r: int| 0 <= r < a.len() implies (#[trigger] beside(a, b)[r]).len() == num_cols(a) + num_cols(b) by {
        assert(a[r].len() == num_cols(a));
        assert(b[r].len() == num_cols(b));
    }
    assert forall|r: int, c: int| 0 <= r < a.len() && 0 <= c < num_cols(b) implies #[trigger] beside(a, b)[r][num_cols(a) + c] == b[r][c] by {
        assert(a[r].len() == num_cols(a));
    }
}

/// The minor without row `row` and column `col` has one row and one column
/// fewer; the rows above `row` and the columns left of `col` stay in place, the
/// others move up or left by one.
pub proof fn lemma_minor_entries<T>(m: Seq<Seq<T>>, row: int, col: int)
    requires
        is_rect(m),
        0 <= row < m.len(),
        0 <= col < num_cols(m),
    ensures
        minor_of(m, row, col).len() == m.len() - 1,
        forall|r: int| 0 <= r < m.len() - 1 ==> (#[trigger] minor_of(m, row, col)[r]).len() == num_cols(m) - 1,
        forall|r: int, c: int|
            0 <= r < m.len() - 1 && 0 <= c < num_cols(m) - 1 ==> #[trigger] minor_of(m, row, col)[r][c] == m[
                if r < row { r } else { r + 1 }][if c < col { c } else { c + 1 }],
{
}

/// `permute_rows`: row `i` of the result is row `idx[i]`.
pub proof fn lemma_pick_rows_entries<T>(m: Seq<Seq<T>>, idx: Seq<usize>)
    ensures
        pick_rows(m, idx).len() == idx.len(),
        forall|i: int| 0 <= i < idx.len() ==> #[trigger] pick_rows(m, idx)[i] == m[idx[i] as int],
{
}

/// `permute_columns`: entry `(r, j)` of the result is entry `(r, idx[j])`.
pub proof fn lemma_pick_cols_entries<T>(m: Seq<Seq<T>>, idx: Seq<usize>)
    ensures
        pick_cols(m, idx).len() == m.len(),
        forall|r: int| 0 <= r < m.len() ==> (#[trigger] pick_cols(m, idx)[r]).len() == idx.len(),
        forall|r: int, j: int| 0 <= r < m.len() && 0 <= j < idx.len() ==> #[trigger] pick_cols(m, idx)[r][j] == m[r][idx[j] as int],
{
}

/// `zero`, `zero_vector` and `one_vector`: every entry is `v`.
pub proof fn lemma_constant_entries<T>(rows: nat, cols: nat, v: T)
    ensures
        constant(rows, cols, v).len() == rows,
        forall|i: int| 0 <= i < rows ==> (#[trigger] constant(rows, cols, v)[i]).len() == cols,
        forall|i: int, j: int| 0 <= i < rows && 0 <= j < cols ==> #[trigger] constant(rows, cols, v)[i][j] == v,
{
}

/// `new`: entry `(r, c)` of the matrix read row by row from `s` is `s[r * cols + c]`.
pub proof fn lemma_reshape_entries<T>(s: Seq<T>, rows: nat, cols: nat)
    requires
        s.len() == rows * cols,
    ensures
        reshape(s, rows, cols).len() == rows,
        forall|r: int| 0 <= r < rows ==> (#[trigger] reshape(s, rows, cols)[r]).len() == cols,
        forall|r: int, c: int| 0 <= r < rows && 0 <= c < cols ==> #[trigger] reshape(s, rows, cols)[r][c] == s[r * cols + c],
{
    assert forall|r: int| 0 <= r < rows implies (#[trigger] reshape(s, rows, cols)[r]).len() == cols by {
        assert(r * cols + cols <= rows * cols) by (nonlinear_arith)
            requires
                0 <= r < rows,
        ;
        assert(0 <= r * cols) by (nonlinear_arith)
            requires
                0 <= r,
        ;
    }
    assert forall|r: int, c: int| 0 <= r < rows && 0 <= c < cols implies #[trigger] reshape(s, rows, cols)[r][c] == s[r * cols + c] by {
        assert(r * cols + cols <= rows * cols) by (nonlinear_arith)
            requires
                0 <= r < rows,
        ;
        assert(0 <= r * cols) by (nonlinear_arith)
            requires
                0 <= r,
        ;
    }
}

/// Entrywise maps and combinations keep the shape and act at each place.
pub proof fn lemma_entrywise_entries<T, S>(a: Seq<Seq<T>>, b: Seq<Seq<T>>, f: spec_fn(T) -> S, g: spec_fn(T, T) -> T)
    ensures
        map_entries(a, f).len() == a.len(),
        zip_entries(a, b, g).len() == a.len(),
        forall|i: int| 0 <= i < a.len() ==> (#[trigger] map_entries(a, f)[i]).len() == a[i].len(),
        forall|i: int| 0 <= i < a.len() ==> (#[trigger] zip_entries(a, b, g)[i]).len() == a[i].len(),
        forall|i: int, j: int| 0 <= i < a.len() && 0 <= j < a[i].len() ==> #[trigger] map_entries(a, f)[i][j] == f(a[i][j]),
        forall|i: int, j: int| 0 <= i < a.len() && 0 <= j < a[i].len() ==> #[trigger] zip_entries(a, b, g)[i][j] == g(a[i][j], b[i][j]),
{
}

} // verus!
