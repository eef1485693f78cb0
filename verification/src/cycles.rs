//! Arithmetic behind transposing a row-major layout in place.
//!
//! For a layout of `rows * cols` entries, let `m = rows * cols - 1`. Entry `i`
//! (other than the last one) moves to `step(rows, m, i) = rows * i % m`, and the
//! entry that lands at `j` came from `back(cols, m, j) = cols * j % m`.
use vstd::prelude::*;
use vstd::arithmetic::div_mod::*;
use vstd::arithmetic::mul::*;
use vstd::set_lib::{lemma_int_range, lemma_len_subset, set_int_range};

verus! {

/// Where entry `i` moves when the layout is transposed.
pub open spec fn step(rows: int, m: int, i: int) -> int {
    (rows * i) % m
}

/// Which entry moves to position `j` when the layout is transposed.
pub open spec fn back(cols: int, m: int, j: int) -> int {
    (cols * j) % m
}

/// `step` and `back` are inverse bijections of `[0, m)`.
pub proof fn lemma_step_back(rows: int, cols: int, m: int, i: int)
    requires
        rows > 0,
        cols > 0,
        m == rows * cols - 1,
        m > 0,
        0 <= i < m,
    ensures
        0 <= step(rows, m, i) < m,
        0 <= back(cols, m, i) < m,
        back(cols, m, step(rows, m, i)) == i,
        step(rows, m, back(cols, m, i)) == i,
{
    lemma_mod_bound(rows * i, m);
    lemma_mod_bound(cols * i, m);
    // cols * (rows * i % m) % m == (cols * rows * i) % m == ((m + 1) * i) % m == i
    lemma_mul_mod_noop_right(cols, rows * i, m);
    lemma_mul_mod_noop_right(rows, cols * i, m);
    assert(cols * (rows * i) == m * i + i) by (nonlinear_arith)
        requires
            m == rows * cols - 1,
    ;
    assert(rows * (cols * i) == m * i + i) by (nonlinear_arith)
        requires
            m == rows * cols - 1,
    ;
    lemma_mod_multiples_vanish(i, i, m);
    lemma_small_mod(i as nat, m as nat);
}

/// Positions other than `0` never move to `0`.
pub proof fn lemma_step_nonzero(rows: int, cols: int, m: int, i: int)
    requires
        rows > 0,
        cols > 0,
        m == rows * cols - 1,
        m > 0,
        0 < i < m,
    ensures
        0 < step(rows, m, i) < m,
{
    lemma_step_back(rows, cols, m, i);
    if step(rows, m, i) == 0 {
        lemma_small_mod(0, m as nat);
        assert(cols * 0 == 0);
    }
}

/// The entry at row `c`, column `r` of the transposed layout came from row `r`,
/// column `c` of the layout before transposing (the last entry stays where it is).
pub proof fn lemma_back_transposes(rows: int, cols: int, m: int, r: int, c: int)
    requires
        rows > 0,
        cols > 0,
        m == rows * cols - 1,
        m > 0,
        0 <= r < rows,
        0 <= c < cols,
        c * rows + r < m,
    ensures
        back(cols, m, c * rows + r) == r * cols + c,
        r * cols + c < m,
{
    assert(cols * (c * rows + r) == m * c + (r * cols + c)) by (nonlinear_arith)
        requires
            m == rows * cols - 1,
    ;
    // r * cols + c < rows * cols - 1 unless it is the last entry
    assert(r * cols + c < m) by (nonlinear_arith)
        requires
            m == rows * cols - 1,
            c * rows + r < m,
            0 <= r < rows,
            0 <= c < cols,
    ;
    assert(0 <= r * cols) by (nonlinear_arith)
        requires
            0 <= r,
            0 <= cols,
    ;
    lemma_mod_multiples_vanish(c, r * cols + c, m);
    lemma_small_mod((r * cols + c) as nat, m as nat);
}

/// The last position of a layout is the only one whose transposed position is last.
pub proof fn lemma_last_entry(rows: int, cols: int, r: int, c: int)
    requires
        0 <= r < rows,
        0 <= c < cols,
        c * rows + r == rows * cols - 1,
    ensures
        r == rows - 1,
        c == cols - 1,
        r * cols + c == rows * cols - 1,
{
    if c < cols - 1 {
        assert(c * rows + r < rows * cols - 1) by (nonlinear_arith)
            requires
                0 <= c < cols - 1,
                0 <= r < rows,
        ;
    }
    if r < rows - 1 {
        assert(c * rows + r < rows * cols - 1) by (nonlinear_arith)
            requires
                c == cols - 1,
                0 <= r < rows - 1,
        ;
    }
    assert((rows - 1) * cols + (cols - 1) == rows * cols - 1) by (nonlinear_arith);
}

/// A sequence of distinct integers drawn from `[lo, hi)` has at most `hi - lo` elements.
pub proof fn lemma_distinct_in_range(s: Seq<int>, lo: int, hi: int)
    requires
        lo <= hi,
        s.no_duplicates(),
        forall|i: int| 0 <= i < s.len() ==> lo <= #[trigger] s[i] < hi,
    ensures
        s.len() <= hi - lo,
{
    broadcast use vstd::seq_lib::group_seq_properties;
    s.unique_seq_to_set();
    lemma_int_range(lo, hi);
    assert forall|x: int| s.to_set().contains(x) implies set_int_range(lo, hi).contains(x) by {
        let i = s.index_of(x);
        assert(s[i] == x);
    }
    lemma_len_subset(s.to_set(), set_int_range(lo, hi));
}

} // verus!
