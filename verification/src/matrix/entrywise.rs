//! Entrywise arithmetic through the operator traits of the entries.
use vstd::prelude::*;
use vstd::std_specs::ops::{AddSpec, DivSpec, MulSpec, NegSpec, SubSpec};
use crate::model::{all_entries, all_pairs, map_entries, num_cols, zip_entries};
use std::ops::Neg;
use super::Matrix;

verus! {

impl<T: Copy + std::ops::Add<Output = T>> Matrix<T> {
    /// Adds `m` to this matrix entry by entry.
    pub fn madd(&mut self, m: &Matrix<T>)
        requires
            old(self).wf(),
            m.wf(),
            old(self)@.len() > 0,
            old(self)@.len() == m@.len(),
            num_cols(old(self)@) == num_cols(m@),
            all_pairs(old(self)@, m@, |x: T, y: T| x.add_req(y)),
        ensures
            old(self).shaped() ==> final(self).shaped(),
            final(self).wf(),
            final(self)@.len() == old(self)@.len(),
            num_cols(final(self)@) == num_cols(old(self)@),
            T::obeys_add_spec() ==> final(self)@ == zip_entries(old(self)@, m@, |x: T, y: T| x.add_spec(y)),
    {
        proof {
            self.lemma_wf_len();
            m.lemma_wf_len();
        }
        let ghost before = *self;
        let elems = self.data.len();
        let mut i: usize = 0;
        while i < elems
            invariant
                before.wf(),
                m.wf(),
                before.nrows() == m.nrows(),
                before.ncols() == m.ncols(),
                self.nrows() == before.nrows(),
                elems == before.flat().len(),
                elems == m.flat().len(),
                elems == self.flat().len(),
                i <= elems,
                all_pairs(before@, m@, |x: T, y: T| x.add_req(y)),
                forall|k: int| i <= k < elems ==> #[trigger] self.flat()[k] == before.flat()[k],
                T::obeys_add_spec() ==> forall|k: int| 0 <= k < i ==> #[trigger] self.flat()[k] == before.flat()[k].add_spec(m.flat()[k]),
            decreases elems - i,
        {
            proof {
                let (a, b) = before.lemma_flat_index(i as int);
                m.lemma_entry(a, b);
                assert((|x: T, y: T| x.add_req(y))(before@[a][b], m@[a][b]));
            }
            let v = self.data[i] + m.data[i];
            self.data.set(i, v);
            i = i + 1;
        }
        proof {
            assert(self.ncols() == before.ncols());
            self.lemma_wf_len();
            if T::obeys_add_spec() {
                assert forall|a: int| 0 <= a < self@.len() implies #[trigger] self@[a] =~= zip_entries(before@, m@, |x: T, y: T| x.add_spec(y))[a] by {
                    assert forall|b: int| 0 <= b < self@[a].len() implies #[trigger] self@[a][b] == before@[a][b].add_spec(m@[a][b]) by {
                        before.lemma_entry(a, b);
                        m.lemma_entry(a, b);
                        self.lemma_entry(a, b);
                    }
                }
                assert(self@ =~= zip_entries(before@, m@, |x: T, y: T| x.add_spec(y)));
            }
        }
    }
}

impl<T: Copy + std::ops::Sub<Output = T>> Matrix<T> {
    /// Subtracts `m` from this matrix entry by entry.
    pub fn msub(&mut self, m: &Matrix<T>)
        requires
            old(self).wf(),
            m.wf(),
            old(self)@.len() > 0,
            old(self)@.len() == m@.len(),
            num_cols(old(self)@) == num_cols(m@),
            all_pairs(old(self)@, m@, |x: T, y: T| x.sub_req(y)),
        ensures
            old(self).shaped() ==> final(self).shaped(),
            final(self).wf(),
            final(self)@.len() == old(self)@.len(),
            num_cols(final(self)@) == num_cols(old(self)@),
            T::obeys_sub_spec() ==> final(self)@ == zip_entries(old(self)@, m@, |x: T, y: T| x.sub_spec(y)),
    {
        proof {
            self.lemma_wf_len();
            m.lemma_wf_len();
        }
        let ghost before = *self;
        let elems = self.data.len();
        let mut i: usize = 0;
        while i < elems
            invariant
                before.wf(),
                m.wf(),
                before.nrows() == m.nrows(),
                before.ncols() == m.ncols(),
                self.nrows() == before.nrows(),
                elems == before.flat().len(),
                elems == m.flat().len(),
                elems == self.flat().len(),
                i <= elems,
                all_pairs(before@, m@, |x: T, y: T| x.sub_req(y)),
                forall|k: int| i <= k < elems ==> #[trigger] self.flat()[k] == before.flat()[k],
                T::obeys_sub_spec() ==> forall|k: int| 0 <= k < i ==> #[trigger] self.flat()[k] == before.flat()[k].sub_spec(m.flat()[k]),
            decreases elems - i,
        {
            proof {
                let (a, b) = before.lemma_flat_index(i as int);
                m.lemma_entry(a, b);
                assert((|x: T, y: T| x.sub_req(y))(before@[a][b], m@[a][b]));
            }
            let v = self.data[i] - m.data[i];
            self.data.set(i, v);
            i = i + 1;
        }
        proof {
            assert(self.ncols() == before.ncols());
            self.lemma_wf_len();
            if T::obeys_sub_spec() {
                assert forall|a: int| 0 <= a < self@.len() implies #[trigger] self@[a] =~= zip_entries(before@, m@, |x: T, y: T| x.sub_spec(y))[a] by {
                    assert forall|b: int| 0 <= b < self@[a].len() implies #[trigger] self@[a][b] == before@[a][b].sub_spec(m@[a][b]) by {
                        before.lemma_entry(a, b);
                        m.lemma_entry(a, b);
                        self.lemma_entry(a, b);
                    }
                }
                assert(self@ =~= zip_entries(before@, m@, |x: T, y: T| x.sub_spec(y)));
            }
        }
    }
}

impl<T: Copy + std::ops::Mul<Output = T>> Matrix<T> {
    /// The entrywise product with `m`.
    pub fn elem_mul(&self, m: &Matrix<T>) -> (r: Matrix<T>)
        requires
            self.wf(),
            m.wf(),
            self@.len() > 0,
            self@.len() == m@.len(),
            num_cols(self@) == num_cols(m@),
            all_pairs(self@, m@, |x: T, y: T| x.mul_req(y)),
        ensures
            r.wf(),
            r@.len() == self@.len(),
            num_cols(r@) == num_cols(self@),
            T::obeys_mul_spec() ==> r@ == zip_entries(self@, m@, |x: T, y: T| x.mul_spec(y)),
    {
        proof {
            self.lemma_wf_len();
            m.lemma_wf_len();
        }
        let elems = self.data.len();
        let mut d: Vec<T> = Vec::new();
        let mut i: usize = 0;
        while i < elems
            invariant
                self.wf(),
                m.wf(),
                self.nrows() == m.nrows(),
                self.ncols() == m.ncols(),
                elems == self.flat().len(),
                elems == m.flat().len(),
                i <= elems,
                d@.len() == i,
                all_pairs(self@, m@, |x: T, y: T| x.mul_req(y)),
                T::obeys_mul_spec() ==> forall|k: int| 0 <= k < i ==> #[trigger] d@[k] == self.flat()[k].mul_spec(m.flat()[k]),
            decreases elems - i,
        {
            proof {
                let (a, b) = self.lemma_flat_index(i as int);
                m.lemma_entry(a, b);
                assert((|x: T, y: T| x.mul_req(y))(self@[a][b], m@[a][b]));
            }
            let v = self.data[i] * m.data[i];
            d.push(v);
            i = i + 1;
        }
        let r = Matrix { no_rows: self.no_rows, data: d };
        proof {
            r.lemma_wf_len();
            if T::obeys_mul_spec() {
                assert forall|a: int| 0 <= a < r@.len() implies #[trigger] r@[a] =~= zip_entries(self@, m@, |x: T, y: T| x.mul_spec(y))[a] by {
                    assert forall|b: int| 0 <= b < r@[a].len() implies #[trigger] r@[a][b] == self@[a][b].mul_spec(m@[a][b]) by {
                        self.lemma_entry(a, b);
                        m.lemma_entry(a, b);
                        r.lemma_entry(a, b);
                    }
                }
                assert(r@ =~= zip_entries(self@, m@, |x: T, y: T| x.mul_spec(y)));
            }
        }
        r
    }

    /// Multiplies this matrix by `m` entry by entry.
    pub fn melem_mul(&mut self, m: &Matrix<T>)
        requires
            old(self).wf(),
            m.wf(),
            old(self)@.len() > 0,
            old(self)@.len() == m@.len(),
            num_cols(old(self)@) == num_cols(m@),
            all_pairs(old(self)@, m@, |x: T, y: T| x.mul_req(y)),
        ensures
            old(self).shaped() ==> final(self).shaped(),
            final(self).wf(),
            final(self)@.len() == old(self)@.len(),
            num_cols(final(self)@) == num_cols(old(self)@),
            T::obeys_mul_spec() ==> final(self)@ == zip_entries(old(self)@, m@, |x: T, y: T| x.mul_spec(y)),
    {
        proof {
            self.lemma_wf_len();
            m.lemma_wf_len();
        }
        let ghost before = *self;
        let elems = self.data.len();
        let mut i: usize = 0;
        while i < elems
            invariant
                before.wf(),
                m.wf(),
                before.nrows() == m.nrows(),
                before.ncols() == m.ncols(),
                self.nrows() == before.nrows(),
                elems == before.flat().len(),
                elems == m.flat().len(),
                elems == self.flat().len(),
                i <= elems,
                all_pairs(before@, m@, |x: T, y: T| x.mul_req(y)),
                forall|k: int| i <= k < elems ==> #[trigger] self.flat()[k] == before.flat()[k],
                T::obeys_mul_spec() ==> forall|k: int| 0 <= k < i ==> #[trigger] self.flat()[k] == before.flat()[k].mul_spec(m.flat()[k]),
            decreases elems - i,
        {
            proof {
                let (a, b) = before.lemma_flat_index(i as int);
                m.lemma_entry(a, b);
                assert((|x: T, y: T| x.mul_req(y))(before@[a][b], m@[a][b]));
            }
            let v = self.data[i] * m.data[i];
            self.data.set(i, v);
            i = i + 1;
        }
        proof {
            assert(self.ncols() == before.ncols());
            self.lemma_wf_len();
            if T::obeys_mul_spec() {
                assert forall|a: int| 0 <= a < self@.len() implies #[trigger] self@[a] =~= zip_entries(before@, m@, |x: T, y: T| x.mul_spec(y))[a] by {
                    assert forall|b: int| 0 <= b < self@[a].len() implies #[trigger] self@[a][b] == before@[a][b].mul_spec(m@[a][b]) by {
                        before.lemma_entry(a, b);
                        m.lemma_entry(a, b);
                        self.lemma_entry(a, b);
                    }
                }
                assert(self@ =~= zip_entries(before@, m@, |x: T, y: T| x.mul_spec(y)));
            }
        }
    }
}

impl<T: Copy + std::ops::Div<Output = T>> Matrix<T> {
    /// The entrywise quotient by `m`.
    pub fn elem_div(&self, m: &Matrix<T>) -> (r: Matrix<T>)
        requires
            self.wf(),
            m.wf(),
            self@.len() > 0,
            self@.len() == m@.len(),
            num_cols(self@) == num_cols(m@),
            all_pairs(self@, m@, |x: T, y: T| x.div_req(y)),
        ensures
            r.wf(),
            r@.len() == self@.len(),
            num_cols(r@) == num_cols(self@),
            T::obeys_div_spec() ==> r@ == zip_entries(self@, m@, |x: T, y: T| x.div_spec(y)),
    {
        proof {
            self.lemma_wf_len();
            m.lemma_wf_len();
        }
        let elems = self.data.len();
        let mut d: Vec<T> = Vec::new();
        let mut i: usize = 0;
        while i < elems
            invariant
                self.wf(),
                m.wf(),
                self.nrows() == m.nrows(),
                self.ncols() == m.ncols(),
                elems == self.flat().len(),
                elems == m.flat().len(),
                i <= elems,
                d@.len() == i,
                all_pairs(self@, m@, |x: T, y: T| x.div_req(y)),
                T::obeys_div_spec() ==> forall|k: int| 0 <= k < i ==> #[trigger] d@[k] == self.flat()[k].div_spec(m.flat()[k]),
            decreases elems - i,
        {
            proof {
                let (a, b) = self.lemma_flat_index(i as int);
                m.lemma_entry(a, b);
                assert((|x: T, y: T| x.div_req(y))(self@[a][b], m@[a][b]));
            }
            let v = self.data[i] / m.data[i];
            d.push(v);
            i = i + 1;
        }
        let r = Matrix { no_rows: self.no_rows, data: d };
        proof {
            r.lemma_wf_len();
            if T::obeys_div_spec() {
                assert forall|a: int| 0 <= a < r@.len() implies #[trigger] r@[a] =~= zip_entries(self@, m@, |x: T, y: T| x.div_spec(y))[a] by {
                    assert forall|b: int| 0 <= b < r@[a].len() implies #[trigger] r@[a][b] == self@[a][b].div_spec(m@[a][b]) by {
                        self.lemma_entry(a, b);
                        m.lemma_entry(a, b);
                        r.lemma_entry(a, b);
                    }
                }
                assert(r@ =~= zip_entries(self@, m@, |x: T, y: T| x.div_spec(y)));
            }
        }
        r
    }

    /// Divides this matrix by `m` entry by entry.
    pub fn melem_div(&mut self, m: &Matrix<T>)
        requires
            old(self).wf(),
            m.wf(),
            old(self)@.len() > 0,
            old(self)@.len() == m@.len(),
            num_cols(old(self)@) == num_cols(m@),
            all_pairs(old(self)@, m@, |x: T, y: T| x.div_req(y)),
        ensures
            old(self).shaped() ==> final(self).shaped(),
            final(self).wf(),
            final(self)@.len() == old(self)@.len(),
            num_cols(final(self)@) == num_cols(old(self)@),
            T::obeys_div_spec() ==> final(self)@ == zip_entries(old(self)@, m@, |x: T, y: T| x.div_spec(y)),
    {
        proof {
            self.lemma_wf_len();
            m.lemma_wf_len();
        }
        let ghost before = *self;
        let elems = self.data.len();
        let mut i: usize = 0;
        while i < elems
            invariant
                before.wf(),
                m.wf(),
                before.nrows() == m.nrows(),
                before.ncols() == m.ncols(),
                self.nrows() == before.nrows(),
                elems == before.flat().len(),
                elems == m.flat().len(),
                elems == self.flat().len(),
                i <= elems,
                all_pairs(before@, m@, |x: T, y: T| x.div_req(y)),
                forall|k: int| i <= k < elems ==> #[trigger] self.flat()[k] == before.flat()[k],
                T::obeys_div_spec() ==> forall|k: int| 0 <= k < i ==> #[trigger] self.flat()[k] == before.flat()[k].div_spec(m.flat()[k]),
            decreases elems - i,
        {
            proof {
                let (a, b) = before.lemma_flat_index(i as int);
                m.lemma_entry(a, b);
                assert((|x: T, y: T| x.div_req(y))(before@[a][b], m@[a][b]));
            }
            let v = self.data[i] / m.data[i];
            self.data.set(i, v);
            i = i + 1;
        }
        proof {
            assert(self.ncols() == before.ncols());
            self.lemma_wf_len();
            if T::obeys_div_spec() {
                assert forall|a: int| 0 <= a < self@.len() implies #[trigger] self@[a] =~= zip_entries(before@, m@, |x: T, y: T| x.div_spec(y))[a] by {
                    assert forall|b: int| 0 <= b < self@[a].len() implies #[trigger] self@[a][b] == before@[a][b].div_spec(m@[a][b]) by {
                        before.lemma_entry(a, b);
                        m.lemma_entry(a, b);
                        self.lemma_entry(a, b);
                    }
                }
                assert(self@ =~= zip_entries(before@, m@, |x: T, y: T| x.div_spec(y)));
            }
        }
    }
}

impl<T: Copy + std::ops::Neg<Output = T>> Matrix<T> {
    /// Negates each entry.
    pub fn mneg(&mut self)
        requires
            old(self).wf(),
            all_entries(old(self)@, |x: T| x.neg_req()),
        ensures
            old(self).shaped() ==> final(self).shaped(),
            final(self).wf(),
            final(self)@.len() == old(self)@.len(),
            num_cols(final(self)@) == num_cols(old(self)@),
            T::obeys_neg_spec() ==> final(self)@ == map_entries(old(self)@, |x: T| x.neg_spec()),
    {
        proof {
            self.lemma_wf_len();
        }
        let ghost before = *self;
        let elems = self.data.len();
        let mut i: usize = 0;
        while i < elems
            invariant
                before.wf(),
                self.nrows() == before.nrows(),
                elems == before.flat().len(),
                elems == self.flat().len(),
                i <= elems,
                all_entries(before@, |x: T| x.neg_req()),
                forall|k: int| i <= k < elems ==> #[trigger] self.flat()[k] == before.flat()[k],
                T::obeys_neg_spec() ==> forall|k: int| 0 <= k < i ==> #[trigger] self.flat()[k] == (|x: T| x.neg_spec())(before.flat()[k]),
            decreases elems - i,
        {
            proof {
                let (a, b) = before.lemma_flat_index(i as int);
                assert((|x: T| x.neg_req())(before@[a][b]));
            }
            let v = self.data[i].neg();
            self.data.set(i, v);
            i = i + 1;
        }
        proof {
            assert(self.ncols() == before.ncols());
            self.lemma_wf_len();
            if T::obeys_neg_spec() {
                assert forall|a: int| 0 <= a < self@.len() implies #[trigger] self@[a] =~= map_entries(before@, |x: T| x.neg_spec())[a] by {
                    assert forall|b: int| 0 <= b < self@[a].len() implies #[trigger] self@[a][b] == (|x: T| x.neg_spec())(before@[a][b]) by {
                        before.lemma_entry(a, b);
                        self.lemma_entry(a, b);
                    }
                }
                assert(self@ =~= map_entries(before@, |x: T| x.neg_spec()));
            }
        }
    }
}

impl<T: Copy + std::ops::Mul<Output = T>> Matrix<T> {
    /// The matrix with each entry multiplied by `factor` (on the left).
    pub fn scale(&self, factor: T) -> (r: Matrix<T>)
        requires
            self.wf(),
            all_entries(self@, |x: T| factor.mul_req(x)),
        ensures
            r.wf(),
            r@.len() == self@.len(),
            num_cols(r@) == num_cols(self@),
            T::obeys_mul_spec() ==> r@ == map_entries(self@, |x: T| factor.mul_spec(x)),
    {
        proof {
            self.lemma_wf_len();
        }
        let elems = self.data.len();
        let mut d: Vec<T> = Vec::new();
        let mut i: usize = 0;
        while i < elems
            invariant
                self.wf(),
                elems == self.flat().len(),
                i <= elems,
                d@.len() == i,
                all_entries(self@, |x: T| factor.mul_req(x)),
                T::obeys_mul_spec() ==> forall|k: int| 0 <= k < i ==> #[trigger] d@[k] == (|x: T| factor.mul_spec(x))(self.flat()[k]),
            decreases elems - i,
        {
            proof {
                let (a, b) = self.lemma_flat_index(i as int);
                assert((|x: T| factor.mul_req(x))(self@[a][b]));
            }
            let v = factor * self.data[i];
            d.push(v);
            i = i + 1;
        }
        let r = Matrix { no_rows: self.no_rows, data: d };
        proof {
            r.lemma_wf_len();
            if T::obeys_mul_spec() {
                assert forall|a: int| 0 <= a < r@.len() implies #[trigger] r@[a] =~= map_entries(self@, |x: T| factor.mul_spec(x))[a] by {
                    assert forall|b: int| 0 <= b < r@[a].len() implies #[trigger] r@[a][b] == (|x: T| factor.mul_spec(x))(self@[a][b]) by {
                        self.lemma_entry(a, b);
                        r.lemma_entry(a, b);
                    }
                }
                assert(r@ =~= map_entries(self@, |x: T| factor.mul_spec(x)));
            }
        }
        r
    }

    /// Multiplies each entry by `factor` (on the left).
    pub fn mscale(&mut self, factor: T)
        requires
            old(self).wf(),
            all_entries(old(self)@, |x: T| factor.mul_req(x)),
        ensures
            old(self).shaped() ==> final(self).shaped(),
            final(self).wf(),
            final(self)@.len() == old(self)@.len(),
            num_cols(final(self)@) == num_cols(old(self)@),
            T::obeys_mul_spec() ==> final(self)@ == map_entries(old(self)@, |x: T| factor.mul_spec(x)),
    {
        proof {
            self.lemma_wf_len();
        }
        let ghost before = *self;
        let elems = self.data.len();
        let mut i: usize = 0;
        while i < elems
            invariant
                before.wf(),
                self.nrows() == before.nrows(),
                elems == before.flat().len(),
                elems == self.flat().len(),
                i <= elems,
                all_entries(before@, |x: T| factor.mul_req(x)),
                forall|k: int| i <= k < elems ==> #[trigger] self.flat()[k] == before.flat()[k],
                T::obeys_mul_spec() ==> forall|k: int| 0 <= k < i ==> #[trigger] self.flat()[k] == (|x: T| factor.mul_spec(x))(before.flat()[k]),
            decreases elems - i,
        {
            proof {
                let (a, b) = before.lemma_flat_index(i as int);
                assert((|x: T| factor.mul_req(x))(before@[a][b]));
            }
            let v = factor * self.data[i];
            self.data.set(i, v);
            i = i + 1;
        }
        proof {
            assert(self.ncols() == before.ncols());
            self.lemma_wf_len();
            if T::obeys_mul_spec() {
                assert forall|a: int| 0 <= a < self@.len() implies #[trigger] self@[a] =~= map_entries(before@, |x: T| factor.mul_spec(x))[a] by {
                    assert forall|b: int| 0 <= b < self@[a].len() implies #[trigger] self@[a][b] == (|x: T| factor.mul_spec(x))(before@[a][b]) by {
                        before.lemma_entry(a, b);
                        self.lemma_entry(a, b);
                    }
                }
                assert(self@ =~= map_entries(before@, |x: T| factor.mul_spec(x)));
            }
        }
    }
}

} // verus!
