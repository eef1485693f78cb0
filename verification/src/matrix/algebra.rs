//! Products, traces and determinants.
use vstd::prelude::*;
use vstd::std_specs::ops::{AddSpec, SubSpec, MulSpec};
use std::ops::{Add, Mul, Sub};
use crate::element::{ApproxEq, Zero};
use crate::model::{cofactor_sum, cofactors_defined, determinant, determinant_computable, diagonal_sum, dot, num_cols, product, product_computable, step_defined, trace_computable};
use super::{Matrix, lemma_take_flatten_step, lemma_push_entry};

verus! {

impl<T: Copy + std::ops::Add<Output = T> + std::ops::Mul<Output = T> + Zero> Matrix<T> {
    /// Entry `(row, col)` of the product with `m`.
    fn dot_entry(&self, m: &Matrix<T>, row: usize, col: usize) -> (res: T)
        requires
            self.wf(),
            m.wf(),
            self@.len() > 0,
            m@.len() > 0,
            num_cols(self@) == m@.len(),
            row < self@.len(),
            col < num_cols(m@),
            product_computable(self@, m@, T::zero_value()),
        ensures
            T::obeys_add_spec() && T::obeys_mul_spec() ==> res == dot(self@, m@, row as int, col as int, num_cols(self@) as int, T::zero_value()),
    {
        proof {
            self.lemma_wf_len();
            m.lemma_wf_len();
        }
        let mut res: T = T::zero();
        let n = self.cols();
        let mut idx: usize = 0;
        while idx < n
            invariant
                self.wf(),
                m.wf(),
                self@.len() > 0,
                n == num_cols(self@),
                n == m@.len(),
                row < self@.len(),
                col < num_cols(m@),
                product_computable(self@, m@, T::zero_value()),
                idx <= n,
                T::obeys_add_spec() && T::obeys_mul_spec() ==> res == dot(self@, m@, row as int, col as int, idx as int, T::zero_value()),
            decreases n - idx,
        {
            proof {
                if T::obeys_add_spec() && T::obeys_mul_spec() {
                    assert(step_defined(self@, m@, row as int, col as int, idx as int, T::zero_value()));
                }
            }
            let p = self.get(row, idx) * m.get(idx, col);
            res = res + p;
            idx = idx + 1;
        }
        res
    }

    /// The entries of the product with `m`, row by row.
    pub(crate) fn product_entries(&self, m: &Matrix<T>) -> (d: Vec<T>)
        requires
            self.wf(),
            m.wf(),
            self@.len() > 0,
            m@.len() > 0,
            num_cols(self@) == m@.len(),
            product_computable(self@, m@, T::zero_value()),
            self@.len() * num_cols(m@) <= usize::MAX,
        ensures
            d@.len() == self@.len() * num_cols(m@),
            T::obeys_add_spec() && T::obeys_mul_spec() ==> d@ == product(self@, m@, T::zero_value()).flatten(),
    {
        proof {
            self.lemma_wf_len();
            m.lemma_wf_len();
        }
        let ghost exp = product(self@, m@, T::zero_value());
        let no_rows = self.no_rows;
        let no_cols = m.cols();
        let elems = no_rows * no_cols;
        let mut d: Vec<T> = Vec::with_capacity(elems);
        let mut row: usize = 0;
        while row < no_rows
            invariant
                self.wf(),
                m.wf(),
                self@.len() > 0,
                m@.len() > 0,
                num_cols(self@) == m@.len(),
                product_computable(self@, m@, T::zero_value()),
                no_rows == self@.len(),
                no_cols == num_cols(m@),
                exp == product(self@, m@, T::zero_value()),
                row <= no_rows,
                d@.len() == row * no_cols,
                T::obeys_add_spec() && T::obeys_mul_spec() ==> d@ == exp.take(row as int).flatten(),
            decreases no_rows - row,
        {
            let mut col: usize = 0;
            while col < no_cols
                invariant
                    self.wf(),
                    m.wf(),
                    self@.len() > 0,
                    m@.len() > 0,
                    num_cols(self@) == m@.len(),
                    product_computable(self@, m@, T::zero_value()),
                    no_rows == self@.len(),
                    no_cols == num_cols(m@),
                    exp == product(self@, m@, T::zero_value()),
                    row < no_rows,
                    col <= no_cols,
                    d@.len() == row * no_cols + col,
                    T::obeys_add_spec() && T::obeys_mul_spec() ==> d@ == exp.take(row as int).flatten() + exp[row as int].take(col as int),
                decreases no_cols - col,
            {
                let res = self.dot_entry(m, row, col);
                proof {
                    if T::obeys_add_spec() && T::obeys_mul_spec() {
                        lemma_push_entry(exp.take(row as int).flatten(), exp[row as int], col as int);
                    }
                }
                d.push(res);
                col = col + 1;
            }
            proof {
                if T::obeys_add_spec() && T::obeys_mul_spec() {
                    assert(exp[row as int].take(no_cols as int) =~= exp[row as int]);
                    lemma_take_flatten_step(exp, row as int);
                }
                assert(row * no_cols + no_cols == (row + 1) * no_cols) by (nonlinear_arith);
            }
            row = row + 1;
        }
        proof {
            assert(exp.take(no_rows as int) =~= exp);
        }
        d
    }

    /// Replaces this matrix by its product with `m`.
    pub fn mmul(&mut self, m: &Matrix<T>)
        requires
            old(self).wf(),
            m.wf(),
            old(self)@.len() > 0,
            m@.len() > 0,
            num_cols(old(self)@) == m@.len(),
            product_computable(old(self)@, m@, T::zero_value()),
            old(self)@.len() * num_cols(m@) <= usize::MAX,
        ensures
            m.shaped() ==> final(self).shaped(),
            final(self).wf(),
            final(self)@.len() == old(self)@.len(),
            num_cols(final(self)@) == num_cols(m@),
            T::obeys_add_spec() && T::obeys_mul_spec() ==> final(self)@ == product(old(self)@, m@, T::zero_value()),
    {
        proof {
            self.lemma_wf_len();
            m.lemma_wf_len();
        }
        let ghost before = *self;
        let d = self.product_entries(m);
        self.data = d;
        proof {
            self.lemma_shape(before@.len(), num_cols(m@));
            if T::obeys_add_spec() && T::obeys_mul_spec() {
                self.lemma_from_rows(product(before@, m@, T::zero_value()), num_cols(m@));
            }
        }
    }
}

impl<T: Copy + std::ops::Add<Output = T> + Zero> Matrix<T> {
    /// The sum of the diagonal entries.
    pub fn trace(&self) -> (r: T)
        requires
            self.wf(),
            self@.len() > 0,
            trace_computable(self@, if self@.len() < num_cols(self@) { self@.len() as int } else { num_cols(self@) as int }, T::zero_value()),
            (if self@.len() < num_cols(self@) { self@.len() } else { num_cols(self@) }) * (num_cols(self@) + 1) <= usize::MAX,
        ensures
            T::obeys_add_spec() ==> r == diagonal_sum(self@, if self@.len() < num_cols(self@) { self@.len() as int } else { num_cols(self@) as int }, T::zero_value()),
    {
        proof {
            self.lemma_wf_len();
        }
        let no_cols = self.cols();
        let n = if self.no_rows < no_cols { self.no_rows } else { no_cols };
        let mut sum: T = T::zero();
        let mut idx: usize = 0;
        let mut k: usize = 0;
        while k < n
            invariant
                self.wf(),
                no_cols == num_cols(self@),
                n <= self@.len(),
                n <= no_cols,
                n * (no_cols + 1) <= usize::MAX,
                trace_computable(self@, n as int, T::zero_value()),
                k <= n,
                idx == k * (no_cols + 1),
                T::obeys_add_spec() ==> sum == diagonal_sum(self@, k as int, T::zero_value()),
            decreases n - k,
        {
            proof {
                self.lemma_entry(k as int, k as int);
                assert(k * (no_cols + 1) == k * no_cols + k) by (nonlinear_arith);
                assert((k + 1) * (no_cols + 1) == k * (no_cols + 1) + no_cols + 1) by (nonlinear_arith);
                assert((k + 1) * (no_cols + 1) <= n * (no_cols + 1)) by (nonlinear_arith)
                    requires
                        k + 1 <= n,
                ;
            }
            proof {
                if T::obeys_add_spec() {
                    assert(diagonal_sum(self@, k as int, T::zero_value()).add_req(self@[k as int][k as int]));
                }
            }
            sum = sum + self.data[idx];
            idx = idx + no_cols + 1;
            k = k + 1;
        }
        sum
    }
}

/// If the first `n` terms of the expansion can be computed, so can the first `k`.
proof fn lemma_cofactors_defined_prefix<T: Add<Output = T> + Sub<Output = T> + Mul<Output = T>>(m: Seq<Seq<T>>, n: int, k: int, zero: T)
    requires
        0 <= k <= n,
        cofactors_defined(m, n, zero),
    ensures
        cofactors_defined(m, k, zero),
    decreases n - k,
{
    if k < n {
        if n > 0 && m.len() > 1 {
            assert(cofactors_defined(m, n - 1, zero));
        }
        lemma_cofactors_defined_prefix(m, n - 1, k, zero);
    }
}

impl<T: Copy + Add<Output = T> + Sub<Output = T> + Mul<Output = T> + Zero> Matrix<T> {
    /// The determinant, expanded along the first row.
    pub fn det(&self) -> (r: T)
        requires
            self.wf(),
            self@.len() > 0,
            self@.len() == num_cols(self@),
            determinant_computable(self@, T::zero_value()),
        ensures
            T::obeys_add_spec() && T::obeys_sub_spec() && T::obeys_mul_spec() ==> r == determinant(self@, T::zero_value()),
        decreases self@.len(),
    {
        proof {
            self.lemma_wf_len();
        }
        let n = self.no_rows;
        if n == 1 {
            return self.get(0, 0);
        }
        let ghost zero = T::zero_value();
        let mut acc: T = T::zero();
        let mut k: usize = 0;
        while k < n
            invariant
                self.wf(),
                n == self@.len(),
                n == num_cols(self@),
                n > 1,
                zero == T::zero_value(),
                determinant_computable(self@, zero),
                k <= n,
                T::obeys_add_spec() && T::obeys_sub_spec() && T::obeys_mul_spec() ==> acc == cofactor_sum(self@, k as int, zero),
            decreases n - k,
        {
            let ghost obeys = T::obeys_add_spec() && T::obeys_sub_spec() && T::obeys_mul_spec();
            proof {
                if obeys {
                    lemma_cofactors_defined_prefix(self@, n as int, k + 1, zero);
                }
            }
            let minor = self.minor(0, k);
            proof {
                minor.lemma_wf_len();
                assert(minor@[0].len() == n - 1);
            }
            let d = minor.det();
            let term = self.get(0, k) * d;
            if k % 2 == 0 {
                acc = acc + term;
            } else {
                acc = acc - term;
            }
            k = k + 1;
        }
        acc
    }
}

impl<T: Copy + Add<Output = T> + Sub<Output = T> + Mul<Output = T> + Zero + ApproxEq<T>> Matrix<T> {
    /// Whether the determinant does not count as zero.
    pub fn is_non_singular(&self) -> (r: bool)
        requires
            self.wf(),
            self@.len() > 0,
            self@.len() == num_cols(self@),
            determinant_computable(self@, T::zero_value()),
        ensures
            T::obeys_add_spec() && T::obeys_sub_spec() && T::obeys_mul_spec() ==> r == !determinant(self@, T::zero_value()).approx_eq_spec(&T::zero_value()),
    {
        let d = self.det();
        let z = T::zero();
        !d.approx_eq(&z)
    }

    /// Whether the determinant counts as zero.
    pub fn is_singular(&self) -> (r: bool)
        requires
            self.wf(),
            self@.len() > 0,
            self@.len() == num_cols(self@),
            determinant_computable(self@, T::zero_value()),
        ensures
            T::obeys_add_spec() && T::obeys_sub_spec() && T::obeys_mul_spec() ==> r == determinant(self@, T::zero_value()).approx_eq_spec(&T::zero_value()),
    {
        !self.is_non_singular()
    }
}

} // verus!
