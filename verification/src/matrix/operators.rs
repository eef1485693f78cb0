//! The operator traits: `-m`, `a + b`, `a - b`, `a * b` (the matrix product) and
//! `a | b` (`cr`).
use vstd::prelude::*;
use vstd::std_specs::ops::{AddSpec, AddSpecImpl, BitOrSpecImpl, MulSpec, MulSpecImpl, NegSpec, NegSpecImpl, SubSpec, SubSpecImpl};
use std::ops::{Add, Mul, Neg, Sub};
use crate::element::Zero;
use crate::model::{all_entries, all_pairs, beside, map_entries, num_cols, product, product_computable, zip_entries};
use super::Matrix;

verus! {

impl<'a, 'b, T: Copy + std::ops::Add<Output = T>> std::ops::Add<&'a Matrix<T>> for &'b Matrix<T> {
    type Output = Matrix<T>;

    /// The entrywise sum.
    fn add(self, m: &'a Matrix<T>) -> (r: Matrix<T>)
        ensures
            r.wf(),
            r@.len() == self@.len(),
            num_cols(r@) == num_cols(self@),
            T::obeys_add_spec() ==> r@ == zip_entries(self@, m@, |x: T, y: T| x.add_spec(y)),
    {
        proof {
            self.lemma_wf_len();
            m.lemma_wf_len();
        }
        let elems = self.data.len();
        let mut d: Vec<T> = Vec::new();
        let mut i: usize = 0;
        while i < elems
            invariant
                self.wf(),
                m.wf(),
                self.nrows() == m.nrows(),
                self.ncols() == m.ncols(),
                elems == self.flat().len(),
                elems == m.flat().len(),
                i <= elems,
                d@.len() == i,
                all_pairs(self@, m@, |x: T, y: T| x.add_req(y)),
                T::obeys_add_spec() ==> forall|k: int| 0 <= k < i ==> #[trigger] d@[k] == self.flat()[k].add_spec(m.flat()[k]),
            decreases elems - i,
        {
            proof {
                let (a, b) = self.lemma_flat_index(i as int);
                m.lemma_entry(a, b);
                assert((|x: T, y: T| x.add_req(y))(self@[a][b], m@[a][b]));
            }
            let v = self.data[i] + m.data[i];
            d.push(v);
            i = i + 1;
        }
        let r = Matrix { no_rows: self.no_rows, data: d };
        proof {
            r.lemma_wf_len();
            if T::obeys_add_spec() {
                assert forall|a: int| 0 <= a < r@.len() implies #[trigger] r@[a] =~= zip_entries(self@, m@, |x: T, y: T| x.add_spec(y))[a] by {
                    assert forall|b: int| 0 <= b < r@[a].len() implies #[trigger] r@[a][b] == self@[a][b].add_spec(m@[a][b]) by {
                        self.lemma_entry(a, b);
                        m.lemma_entry(a, b);
                        r.lemma_entry(a, b);
                    }
                }
                assert(r@ =~= zip_entries(self@, m@, |x: T, y: T| x.add_spec(y)));
            }
        }
        r
    }
}

/// The result is a new matrix, described by the `ensures` of `add` above; it is
/// not promised as a value of the operator's specification.
impl<'a, 'b, T: Copy + std::ops::Add<Output = T>> AddSpecImpl<&'a Matrix<T>> for &'b Matrix<T> {
    open spec fn obeys_add_spec() -> bool {
        false
    }

    open spec fn add_req(self, m: &'a Matrix<T>) -> bool {
        &&& self.wf()
        &&& m.wf()
        &&& self@.len() > 0
        &&& self@.len() == m@.len()
        &&& num_cols(self@) == num_cols(m@)
        &&& all_pairs(self@, m@, |x: T, y: T| x.add_req(y))
    }

    open spec fn add_spec(self, m: &'a Matrix<T>) -> Matrix<T> {
        arbitrary()
    }
}

impl<'a, T: Copy + std::ops::Add<Output = T>> std::ops::Add<Matrix<T>> for &'a Matrix<T> {
    type Output = Matrix<T>;

    /// The entrywise sum.
    fn add(self, m: Matrix<T>) -> (r: Matrix<T>)
        ensures
            r.wf(),
            r@.len() == self@.len(),
            num_cols(r@) == num_cols(self@),
            T::obeys_add_spec() ==> r@ == zip_entries(self@, m@, |x: T, y: T| x.add_spec(y)),
    {
        self.add(&m)
    }
}

/// The result is a new matrix, described by the `ensures` of `add` above; it is
/// not promised as a value of the operator's specification.
impl<'a, T: Copy + std::ops::Add<Output = T>> AddSpecImpl<Matrix<T>> for &'a Matrix<T> {
    open spec fn obeys_add_spec() -> bool {
        false
    }

    open spec fn add_req(self, m: Matrix<T>) -> bool {
        &&& self.wf()
        &&& m.wf()
        &&& self@.len() > 0
        &&& self@.len() == m@.len()
        &&& num_cols(self@) == num_cols(m@)
        &&& all_pairs(self@, m@, |x: T, y: T| x.add_req(y))
    }

    open spec fn add_spec(self, m: Matrix<T>) -> Matrix<T> {
        arbitrary()
    }
}

impl<'a, T: Copy + std::ops::Add<Output = T>> std::ops::Add<&'a Matrix<T>> for Matrix<T> {
    type Output = Matrix<T>;

    /// The entrywise sum.
    fn add(self, m: &'a Matrix<T>) -> (r: Matrix<T>)
        ensures
            r.wf(),
            r@.len() == self@.len(),
            num_cols(r@) == num_cols(self@),
            T::obeys_add_spec() ==> r@ == zip_entries(self@, m@, |x: T, y: T| x.add_spec(y)),
    {
        (&self).add(m)
    }
}

/// The result is a new matrix, described by the `ensures` of `add` above; it is
/// not promised as a value of the operator's specification.
impl<'a, T: Copy + std::ops::Add<Output = T>> AddSpecImpl<&'a Matrix<T>> for Matrix<T> {
    open spec fn obeys_add_spec() -> bool {
        false
    }

    open spec fn add_req(self, m: &'a Matrix<T>) -> bool {
        &&& self.wf()
        &&& m.wf()
        &&& self@.len() > 0
        &&& self@.len() == m@.len()
        &&& num_cols(self@) == num_cols(m@)
        &&& all_pairs(self@, m@, |x: T, y: T| x.add_req(y))
    }

    open spec fn add_spec(self, m: &'a Matrix<T>) -> Matrix<T> {
        arbitrary()
    }
}

impl<T: Copy + std::ops::Add<Output = T>> std::ops::Add<Matrix<T>> for Matrix<T> {
    type Output = Matrix<T>;

    /// The entrywise sum.
    fn add(self, m: Matrix<T>) -> (r: Matrix<T>)
        ensures
            r.wf(),
            r@.len() == self@.len(),
            num_cols(r@) == num_cols(self@),
            T::obeys_add_spec() ==> r@ == zip_entries(self@, m@, |x: T, y: T| x.add_spec(y)),
    {
        (&self).add(&m)
    }
}

/// The result is a new matrix, described by the `ensures` of `add` above; it is
/// not promised as a value of the operator's specification.
impl<T: Copy + std::ops::Add<Output = T>> AddSpecImpl<Matrix<T>> for Matrix<T> {
    open spec fn obeys_add_spec() -> bool {
        false
    }

    open spec fn add_req(self, m: Matrix<T>) -> bool {
        &&& self.wf()
        &&& m.wf()
        &&& self@.len() > 0
        &&& self@.len() == m@.len()
        &&& num_cols(self@) == num_cols(m@)
        &&& all_pairs(self@, m@, |x: T, y: T| x.add_req(y))
    }

    open spec fn add_spec(self, m: Matrix<T>) -> Matrix<T> {
        arbitrary()
    }
}

impl<'a, 'b, T: Copy + std::ops::Sub<Output = T>> std::ops::Sub<&'a Matrix<T>> for &'b Matrix<T> {
    type Output = Matrix<T>;

    /// The entrywise difference.
    fn sub(self, m: &'a Matrix<T>) -> (r: Matrix<T>)
        ensures
            r.wf(),
            r@.len() == self@.len(),
            num_cols(r@) == num_cols(self@),
            T::obeys_sub_spec() ==> r@ == zip_entries(self@, m@, |x: T, y: T| x.sub_spec(y)),
    {
        proof {
            self.lemma_wf_len();
            m.lemma_wf_len();
        }
        let elems = self.data.len();
        let mut d: Vec<T> = Vec::new();
        let mut i: usize = 0;
        while i < elems
            invariant
                self.wf(),
                m.wf(),
                self.nrows() == m.nrows(),
                self.ncols() == m.ncols(),
                elems == self.flat().len(),
                elems == m.flat().len(),
                i <= elems,
                d@.len() == i,
                all_pairs(self@, m@, |x: T, y: T| x.sub_req(y)),
                T::obeys_sub_spec() ==> forall|k: int| 0 <= k < i ==> #[trigger] d@[k] == self.flat()[k].sub_spec(m.flat()[k]),
            decreases elems - i,
        {
            proof {
                let (a, b) = self.lemma_flat_index(i as int);
                m.lemma_entry(a, b);
                assert((|x: T, y: T| x.sub_req(y))(self@[a][b], m@[a][b]));
            }
            let v = self.data[i] - m.data[i];
            d.push(v);
            i = i + 1;
        }
        let r = Matrix { no_rows: self.no_rows, data: d };
        proof {
            r.lemma_wf_len();
            if T::obeys_sub_spec() {
                assert forall|a: int| 0 <= a < r@.len() implies #[trigger] r@[a] =~= zip_entries(self@, m@, |x: T, y: T| x.sub_spec(y))[a] by {
                    assert forall|b: int| 0 <= b < r@[a].len() implies #[trigger] r@[a][b] == self@[a][b].sub_spec(m@[a][b]) by {
                        self.lemma_entry(a, b);
                        m.lemma_entry(a, b);
                        r.lemma_entry(a, b);
                    }
                }
                assert(r@ =~= zip_entries(self@, m@, |x: T, y: T| x.sub_spec(y)));
            }
        }
        r
    }
}

/// The result is a new matrix, described by the `ensures` of `sub` above; it is
/// not promised as a value of the operator's specification.
impl<'a, 'b, T: Copy + std::ops::Sub<Output = T>> SubSpecImpl<&'a Matrix<T>> for &'b Matrix<T> {
    open spec fn obeys_sub_spec() -> bool {
        false
    }

    open spec fn sub_req(self, m: &'a Matrix<T>) -> bool {
        &&& self.wf()
        &&& m.wf()
        &&& self@.len() > 0
        &&& self@.len() == m@.len()
        &&& num_cols(self@) == num_cols(m@)
        &&& all_pairs(self@, m@, |x: T, y: T| x.sub_req(y))
    }

    open spec fn sub_spec(self, m: &'a Matrix<T>) -> Matrix<T> {
        arbitrary()
    }
}

impl<'a, T: Copy + std::ops::Sub<Output = T>> std::ops::Sub<Matrix<T>> for &'a Matrix<T> {
    type Output = Matrix<T>;

    /// The entrywise difference.
    fn sub(self, m: Matrix<T>) -> (r: Matrix<T>)
        ensures
            r.wf(),
            r@.len() == self@.len(),
            num_cols(r@) == num_cols(self@),
            T::obeys_sub_spec() ==> r@ == zip_entries(self@, m@, |x: T, y: T| x.sub_spec(y)),
    {
        self.sub(&m)
    }
}

/// The result is a new matrix, described by the `ensures` of `sub` above; it is
/// not promised as a value of the operator's specification.
impl<'a, T: Copy + std::ops::Sub<Output = T>> SubSpecImpl<Matrix<T>> for &'a Matrix<T> {
    open spec fn obeys_sub_spec() -> bool {
        false
    }

    open spec fn sub_req(self, m: Matrix<T>) -> bool {
        &&& self.wf()
        &&& m.wf()
        &&& self@.len() > 0
        &&& self@.len() == m@.len()
        &&& num_cols(self@) == num_cols(m@)
        &&& all_pairs(self@, m@, |x: T, y: T| x.sub_req(y))
    }

    open spec fn sub_spec(self, m: Matrix<T>) -> Matrix<T> {
        arbitrary()
    }
}

impl<'a, T: Copy + std::ops::Sub<Output = T>> std::ops::Sub<&'a Matrix<T>> for Matrix<T> {
    type Output = Matrix<T>;

    /// The entrywise difference.
    fn sub(self, m: &'a Matrix<T>) -> (r: Matrix<T>)
        ensures
            r.wf(),
            r@.len() == self@.len(),
            num_cols(r@) == num_cols(self@),
            T::obeys_sub_spec() ==> r@ == zip_entries(self@, m@, |x: T, y: T| x.sub_spec(y)),
    {
        (&self).sub(m)
    }
}

/// The result is a new matrix, described by the `ensures` of `sub` above; it is
/// not promised as a value of the operator's specification.
impl<'a, T: Copy + std::ops::Sub<Output = T>> SubSpecImpl<&'a Matrix<T>> for Matrix<T> {
    open spec fn obeys_sub_spec() -> bool {
        false
    }

    open spec fn sub_req(self, m: &'a Matrix<T>) -> bool {
        &&& self.wf()
        &&& m.wf()
        &&& self@.len() > 0
        &&& self@.len() == m@.len()
        &&& num_cols(self@) == num_cols(m@)
        &&& all_pairs(self@, m@, |x: T, y: T| x.sub_req(y))
    }

    open spec fn sub_spec(self, m: &'a Matrix<T>) -> Matrix<T> {
        arbitrary()
    }
}

impl<T: Copy + std::ops::Sub<Output = T>> std::ops::Sub<Matrix<T>> for Matrix<T> {
    type Output = Matrix<T>;

    /// The entrywise difference.
    fn sub(self, m: Matrix<T>) -> (r: Matrix<T>)
        ensures
            r.wf(),
            r@.len() == self@.len(),
            num_cols(r@) == num_cols(self@),
            T::obeys_sub_spec() ==> r@ == zip_entries(self@, m@, |x: T, y: T| x.sub_spec(y)),
    {
        (&self).sub(&m)
    }
}

/// The result is a new matrix, described by the `ensures` of `sub` above; it is
/// not promised as a value of the operator's specification.
impl<T: Copy + std::ops::Sub<Output = T>> SubSpecImpl<Matrix<T>> for Matrix<T> {
    open spec fn obeys_sub_spec() -> bool {
        false
    }

    open spec fn sub_req(self, m: Matrix<T>) -> bool {
        &&& self.wf()
        &&& m.wf()
        &&& self@.len() > 0
        &&& self@.len() == m@.len()
        &&& num_cols(self@) == num_cols(m@)
        &&& all_pairs(self@, m@, |x: T, y: T| x.sub_req(y))
    }

    open spec fn sub_spec(self, m: Matrix<T>) -> Matrix<T> {
        arbitrary()
    }
}

impl<'a, 'b, T: Copy + std::ops::Add<Output = T> + std::ops::Mul<Output = T> + Zero> std::ops::Mul<&'a Matrix<T>> for &'b Matrix<T> {
    type Output = Matrix<T>;

    /// The matrix product.
    fn mul(self, m: &'a Matrix<T>) -> (r: Matrix<T>)
        ensures
            r.wf(),
            r@.len() == self@.len(),
            num_cols(r@) == num_cols(m@),
            T::obeys_add_spec() && T::obeys_mul_spec() ==> r@ == product(self@, m@, T::zero_value()),
    {
        proof {
            self.lemma_wf_len();
            m.lemma_wf_len();
        }
        let d = self.product_entries(m);
        let r = Matrix { no_rows: self.no_rows, data: d };
        proof {
            r.lemma_shape(self@.len(), num_cols(m@));
            if T::obeys_add_spec() && T::obeys_mul_spec() {
                r.lemma_from_rows(product(self@, m@, T::zero_value()), num_cols(m@));
            }
        }
        r
    }
}

/// The result is a new matrix, described by the `ensures` of `mul` above; it is
/// not promised as a value of the operator's specification.
impl<'a, 'b, T: Copy + std::ops::Add<Output = T> + std::ops::Mul<Output = T> + Zero> MulSpecImpl<&'a Matrix<T>> for &'b Matrix<T> {
    open spec fn obeys_mul_spec() -> bool {
        false
    }

    open spec fn mul_req(self, m: &'a Matrix<T>) -> bool {
        &&& self.wf()
        &&& m.wf()
        &&& self@.len() > 0
        &&& m@.len() > 0
        &&& num_cols(self@) == m@.len()
        &&& product_computable(self@, m@, T::zero_value())
        &&& self@.len() * num_cols(m@) <= usize::MAX
    }

    open spec fn mul_spec(self, m: &'a Matrix<T>) -> Matrix<T> {
        arbitrary()
    }
}

impl<'a, T: Copy + std::ops::Add<Output = T> + std::ops::Mul<Output = T> + Zero> std::ops::Mul<Matrix<T>> for &'a Matrix<T> {
    type Output = Matrix<T>;

    /// The matrix product.
    fn mul(self, m: Matrix<T>) -> (r: Matrix<T>)
        ensures
            r.wf(),
            r@.len() == self@.len(),
            num_cols(r@) == num_cols(m@),
            T::obeys_add_spec() && T::obeys_mul_spec() ==> r@ == product(self@, m@, T::zero_value()),
    {
        self.mul(&m)
    }
}

/// The result is a new matrix, described by the `ensures` of `mul` above; it is
/// not promised as a value of the operator's specification.
impl<'a, T: Copy + std::ops::Add<Output = T> + std::ops::Mul<Output = T> + Zero> MulSpecImpl<Matrix<T>> for &'a Matrix<T> {
    open spec fn obeys_mul_spec() -> bool {
        false
    }

    open spec fn mul_req(self, m: Matrix<T>) -> bool {
        &&& self.wf()
        &&& m.wf()
        &&& self@.len() > 0
        &&& m@.len() > 0
        &&& num_cols(self@) == m@.len()
        &&& product_computable(self@, m@, T::zero_value())
        &&& self@.len() * num_cols(m@) <= usize::MAX
    }

    open spec fn mul_spec(self, m: Matrix<T>) -> Matrix<T> {
        arbitrary()
    }
}

impl<'a, T: Copy + std::ops::Add<Output = T> + std::ops::Mul<Output = T> + Zero> std::ops::Mul<&'a Matrix<T>> for Matrix<T> {
    type Output = Matrix<T>;

    /// The matrix product.
    fn mul(self, m: &'a Matrix<T>) -> (r: Matrix<T>)
        ensures
            r.wf(),
            r@.len() == self@.len(),
            num_cols(r@) == num_cols(m@),
            T::obeys_add_spec() && T::obeys_mul_spec() ==> r@ == product(self@, m@, T::zero_value()),
    {
        (&self).mul(m)
    }
}

/// The result is a new matrix, described by the `ensures` of `mul` above; it is
/// not promised as a value of the operator's specification.
impl<'a, T: Copy + std::ops::Add<Output = T> + std::ops::Mul<Output = T> + Zero> MulSpecImpl<&'a Matrix<T>> for Matrix<T> {
    open spec fn obeys_mul_spec() -> bool {
        false
    }

    open spec fn mul_req(self, m: &'a Matrix<T>) -> bool {
        &&& self.wf()
        &&& m.wf()
        &&& self@.len() > 0
        &&& m@.len() > 0
        &&& num_cols(self@) == m@.len()
        &&& product_computable(self@, m@, T::zero_value())
        &&& self@.len() * num_cols(m@) <= usize::MAX
    }

    open spec fn mul_spec(self, m: &'a Matrix<T>) -> Matrix<T> {
        arbitrary()
    }
}

impl<T: Copy + std::ops::Add<Output = T> + std::ops::Mul<Output = T> + Zero> std::ops::Mul<Matrix<T>> for Matrix<T> {
    type Output = Matrix<T>;

    /// The matrix product.
    fn mul(self, m: Matrix<T>) -> (r: Matrix<T>)
        ensures
            r.wf(),
            r@.len() == self@.len(),
            num_cols(r@) == num_cols(m@),
            T::obeys_add_spec() && T::obeys_mul_spec() ==> r@ == product(self@, m@, T::zero_value()),
    {
        (&self).mul(&m)
    }
}

/// The result is a new matrix, described by the `ensures` of `mul` above; it is
/// not promised as a value of the operator's specification.
impl<T: Copy + std::ops::Add<Output = T> + std::ops::Mul<Output = T> + Zero> MulSpecImpl<Matrix<T>> for Matrix<T> {
    open spec fn obeys_mul_spec() -> bool {
        false
    }

    open spec fn mul_req(self, m: Matrix<T>) -> bool {
        &&& self.wf()
        &&& m.wf()
        &&& self@.len() > 0
        &&& m@.len() > 0
        &&& num_cols(self@) == m@.len()
        &&& product_computable(self@, m@, T::zero_value())
        &&& self@.len() * num_cols(m@) <= usize::MAX
    }

    open spec fn mul_spec(self, m: Matrix<T>) -> Matrix<T> {
        arbitrary()
    }
}

impl<'a, T: Copy + std::ops::Neg<Output = T>> std::ops::Neg for &'a Matrix<T> {
    type Output = Matrix<T>;

    /// The matrix with each entry negated.
    fn neg(self) -> (r: Matrix<T>)
        ensures
            r.wf(),
            r@.len() == self@.len(),
            num_cols(r@) == num_cols(self@),
            T::obeys_neg_spec() ==> r@ == map_entries(self@, |x: T| x.neg_spec()),
    {
        proof {
            self.lemma_wf_len();
        }
        let elems = self.data.len();
        let mut d: Vec<T> = Vec::new();
        let mut i: usize = 0;
        while i < elems
            invariant
                self.wf(),
                elems == self.flat().len(),
                i <= elems,
                d@.len() == i,
                all_entries(self@, |x: T| x.neg_req()),
                T::obeys_neg_spec() ==> forall|k: int| 0 <= k < i ==> #[trigger] d@[k] == (|x: T| x.neg_spec())(self.flat()[k]),
            decreases elems - i,
        {
            proof {
                let (a, b) = self.lemma_flat_index(i as int);
                assert((|x: T| x.neg_req())(self@[a][b]));
            }
            let v = self.data[i].neg();
            d.push(v);
            i = i + 1;
        }
        let r = Matrix { no_rows: self.no_rows, data: d };
        proof {
            r.lemma_wf_len();
            if T::obeys_neg_spec() {
                assert forall|a: int| 0 <= a < r@.len() implies #[trigger] r@[a] =~= map_entries(self@, |x: T| x.neg_spec())[a] by {
                    assert forall|b: int| 0 <= b < r@[a].len() implies #[trigger] r@[a][b] == (|x: T| x.neg_spec())(self@[a][b]) by {
                        self.lemma_entry(a, b);
                        r.lemma_entry(a, b);
                    }
                }
                assert(r@ =~= map_entries(self@, |x: T| x.neg_spec()));
            }
        }
        r
    }
}

/// The result is a new matrix, described by the `ensures` of `neg` above; it is
/// not promised as a value of the operator's specification.
impl<'a, T: Copy + std::ops::Neg<Output = T>> NegSpecImpl for &'a Matrix<T> {
    open spec fn obeys_neg_spec() -> bool {
        false
    }

    open spec fn neg_req(self) -> bool {
        &&& self.wf()
        &&& all_entries(self@, |x: T| x.neg_req())
    }

    open spec fn neg_spec(self) -> Matrix<T> {
        arbitrary()
    }
}

impl<T: Copy + std::ops::Neg<Output = T>> std::ops::Neg for Matrix<T> {
    type Output = Matrix<T>;

    /// The matrix with each entry negated.
    fn neg(self) -> (r: Matrix<T>)
        ensures
            r.wf(),
            r@.len() == self@.len(),
            num_cols(r@) == num_cols(self@),
            T::obeys_neg_spec() ==> r@ == map_entries(self@, |x: T| x.neg_spec()),
    {
        (&self).neg()
    }
}

/// The result is a new matrix, described by the `ensures` of `neg` above; it is
/// not promised as a value of the operator's specification.
impl<T: Copy + std::ops::Neg<Output = T>> NegSpecImpl for Matrix<T> {
    open spec fn obeys_neg_spec() -> bool {
        false
    }

    open spec fn neg_req(self) -> bool {
        &&& self.wf()
        &&& all_entries(self@, |x: T| x.neg_req())
    }

    open spec fn neg_spec(self) -> Matrix<T> {
        arbitrary()
    }
}

impl<'a, T: Copy> std::ops::BitOr<&'a Matrix<T>> for Matrix<T> {
    type Output = Matrix<T>;

    /// The matrix with the columns of `m` appended to the right (see `cr`).
    fn bitor(self, m: &'a Matrix<T>) -> (r: Matrix<T>)
        ensures
            r.wf(),
            r@ == beside(self@, m@),
    {
        self.cr(m)
    }
}

/// The result is a new matrix, described by the `ensures` of `bitor` above; it
/// is not promised as a value of the operator's specification.
impl<'a, T: Copy> BitOrSpecImpl<&'a Matrix<T>> for Matrix<T> {
    open spec fn obeys_bitor_spec() -> bool {
        false
    }

    open spec fn bitor_req(self, m: &'a Matrix<T>) -> bool {
        &&& self.wf()
        &&& m.wf()
        &&& self@.len() == m@.len()
        &&& self@.len() * num_cols(self@) + m@.len() * num_cols(m@) <= usize::MAX
    }

    open spec fn bitor_spec(self, m: &'a Matrix<T>) -> Matrix<T> {
        arbitrary()
    }
}

} // verus!
