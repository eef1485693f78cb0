//! Transposition, into a new matrix and in place.
use vstd::prelude::*;
use vstd::arithmetic::div_mod::*;
use crate::model::{num_cols, transpose};
use crate::cycles::{back, lemma_back_transposes, lemma_distinct_in_range, lemma_last_entry, lemma_step_back, lemma_step_nonzero, step};
use super::{Matrix, lemma_index, lemma_split_index, lemma_divmod_step};

verus! {

impl<T: Copy> Matrix<T> {
    /// The transpose, read column by column from the stored entries.
    pub fn t(&self) -> (r: Matrix<T>)
        requires
            self.wf(),
            self@.len() > 0,
            self@.len() * num_cols(self@) + num_cols(self@) <= usize::MAX + 1,
        ensures
            r.wf(),
            r@ == transpose(self@),
    {
        proof {
            self.lemma_wf_len();
        }
        let elems = self.data.len();
        let cols = self.cols();
        let rows = self.no_rows;
        let mut d: Vec<T> = Vec::new();
        let mut src_idx: usize = 0;
        let mut i: usize = 0;
        proof {
            lemma_small_mod(0, rows as nat);
            assert(0int / (rows as int) == 0) by {
                lemma_basic_div(0, rows as int);
            }
            assert(0 * cols == 0);
        }
        while i < elems
            invariant
                elems == self.data@.len(),
                elems == rows * cols,
                rows > 0,
                rows == self.nrows(),
                cols == self.ncols(),
                elems + cols <= usize::MAX + 1,
                i <= elems,
                d@.len() == i,
                i < elems ==> src_idx == (i as int % rows as int) * cols + i as int / rows as int,
                forall|j: int| 0 <= j < i ==> #[trigger] d@[j] == self.data@[(j % rows as int) * cols + j / rows as int],
            decreases elems - i,
        {
            proof {
                assert(cols * rows == rows * cols) by (nonlinear_arith);
                lemma_split_index(i as int, cols as int, rows as int);
                lemma_divmod_step(i as int, rows as int);
                let a = i as int % rows as int;
                let b = i as int / rows as int;
                lemma_index(a, b, rows as int, cols as int);
                assert(i as int == b * rows + a);
            }
            d.push(self.data[src_idx]);
            src_idx = src_idx + cols;
            if src_idx >= elems {
                src_idx = src_idx - elems;
                src_idx = src_idx + 1;
            }
            i = i + 1;
            proof {
                if i < elems {
                    let a = (i - 1) as int % rows as int;
                    let b = (i - 1) as int / rows as int;
                    assert((a + 1) * cols == a * cols + cols) by (nonlinear_arith);
                    if a + 1 < rows {
                        lemma_index(a + 1, b, rows as int, cols as int);
                    } else {
                        assert(0 * cols == 0);
                        assert((a + 1) * cols + b >= elems) by (nonlinear_arith)
                            requires
                                a + 1 == rows,
                                elems == rows * cols,
                                b >= 0,
                        ;
                    }
                }
            }
        }
        let r = Matrix { no_rows: cols, data: d };
        proof {
            if cols > 0 {
                lemma_fundamental_div_mod_converse(elems as int, cols as int, rows as int, 0);
            } else {
                assert(rows * cols == 0) by (nonlinear_arith)
                    requires
                        cols == 0,
                ;
            }
            r.lemma_wf_len();
            assert forall|c: int| 0 <= c < cols implies #[trigger] r@[c] =~= transpose(self@)[c] by {
                assert forall|x: int| 0 <= x < rows implies #[trigger] r@[c][x] == self@[x][c] by {
                    r.lemma_entry(c, x);
                    self.lemma_entry(x, c);
                    lemma_index(c, x, cols as int, rows as int);
                    assert((c * rows + x) % rows as int == x);
                }
            }
            assert(r@ =~= transpose(self@));
        }
        r
    }

    /// Transposes the matrix in place, following the cycles of the permutation
    /// that sends each stored entry to its transposed position.
    #[verifier::rlimit(50)]
    pub fn mt(&mut self)
        requires
            old(self).wf(),
            old(self)@.len() > 0,
            num_cols(old(self)@) > 0,
            old(self)@.len() * (old(self)@.len() * num_cols(old(self)@) - 2) <= usize::MAX,
        ensures
            final(self).shaped(),
            final(self).wf(),
            final(self)@ == transpose(old(self)@),
    {
        proof {
            self.lemma_wf_len();
        }
        let ghost orig = self.data@;
        let ghost old_view = self@;
        let n = self.data.len();
        let rows = self.no_rows;
        let ghost cols: int = self.ncols() as int;
        assert(n == rows * cols);
        if n >= 2 {
            let m = n - 1;
            let mut visited: Vec<bool> = Vec::new();
            let mut z: usize = 0;
            while z < n
                invariant
                    z <= n,
                    visited@.len() == z,
                    forall|j: int| 0 <= j < z ==> !visited@[j],
                decreases n - z,
            {
                visited.push(false);
                z = z + 1;
            }
            proof {
                assert forall|j: int|
                    #![trigger step(rows as int, m as int, j)]
                    1 <= j < m && !visited@[j] implies 1 <= step(rows as int, m as int, j) && !visited@[step(rows as int, m as int, j)] by {
                    lemma_step_nonzero(rows as int, cols, m as int, j);
                }
            }
            let mut k: usize = 1;
            while k < m
                invariant
                    self.no_rows == rows,
                    self.data@.len() == n,
                    orig.len() == n,
                    visited@.len() == n,
                    m == n - 1,
                    m > 0,
                    rows > 0,
                    cols > 0,
                    rows * cols == n,
                    rows * (n - 2) <= usize::MAX,
                    1 <= k <= m,
                    forall|j: int|
                        1 <= j < m && (j < k || visited@[j]) ==> #[trigger] self.data@[j] == orig[back(cols, m as int, j)],
                    self.data@[0] == orig[0],
                    self.data@[m as int] == orig[m as int],
                    forall|j: int| k <= j < m && !visited@[j] ==> #[trigger] self.data@[j] == orig[j],
                    forall|j: int|
                        #![trigger step(rows as int, m as int, j)]
                        k <= j < m && !visited@[j] ==> k <= step(rows as int, m as int, j) && !visited@[step(rows as int, m as int, j)],
                decreases m - k,
            {
                if !visited[k] {
                    let ghost vis0 = visited@;
                    let ghost data0 = self.data@;
                    let ghost kk = k as int;
                    let mut idx = k;
                    let mut prev_value = self.data[idx];
                    let ghost mut walk: Seq<int> = seq![k as int];
                    loop
                        invariant_except_break
                            idx == walk.last(),
                            prev_value == orig[idx as int],
                        invariant
                            self.no_rows == rows,
                            self.data@.len() == n,
                            visited@.len() == n,
                            orig.len() == n,
                            vis0.len() == n,
                            data0.len() == n,
                            m == n - 1,
                            m > 0,
                            rows > 0,
                            cols > 0,
                            rows * cols == n,
                            rows * (n - 2) <= usize::MAX,
                            1 <= kk < m,
                            kk == k,
                            !vis0[kk],
                            forall|j: int| kk <= j < m && !vis0[j] ==> #[trigger] data0[j] == orig[j],
                            forall|j: int|
                                #![trigger step(rows as int, m as int, j)]
                                kk <= j < m && !vis0[j] ==> kk <= step(rows as int, m as int, j) && !vis0[step(rows as int, m as int, j)],
                            walk.len() >= 1,
                            walk[0] == kk,
                            walk.len() <= m - kk,
                            forall|s: int| 0 <= s < walk.len() - 1 ==> #[trigger] walk[s + 1] == step(rows as int, m as int, walk[s]),
                            walk.no_duplicates(),
                            forall|s: int| 0 <= s < walk.len() ==> kk <= #[trigger] walk[s] < m && !vis0[walk[s]],
                            forall|j: int| 0 <= j < n ==> #[trigger] visited@[j] == (vis0[j] || (walk.contains(j) && j != kk)),
                            forall|j: int|
                                0 <= j < n && j != kk ==> #[trigger] self.data@[j] == if walk.contains(j) {
                                    orig[back(cols, m as int, j)]
                                } else {
                                    data0[j]
                                },
                        ensures
                            step(rows as int, m as int, walk.last()) == kk,
                            self.data@[kk] == orig[walk.last()],
                        decreases m - walk.len(),
                    {
                        let ghost last = walk.last();
                        proof {
                            assert(walk[walk.len() - 1] == last);
                            assert(rows * idx <= rows * (n - 2)) by (nonlinear_arith)
                                requires
                                    idx <= n - 2,
                                    rows > 0,
                            ;
                            lemma_step_nonzero(rows as int, cols, m as int, last);
                            lemma_step_back(rows as int, cols, m as int, last);
                        }
                        idx = (rows * idx) % m;
                        assert(idx == step(rows as int, m as int, last));
                        let current_value = self.data[idx];
                        self.data.set(idx, prev_value);
                        if idx == k {
                            break;
                        }
                        proof {
                            assert forall|s: int| 0 <= s < walk.len() implies walk[s] != idx as int by {
                                if s > 0 && walk[s] == idx as int {
                                    let t = s - 1;
                                    assert(walk[t + 1] == step(rows as int, m as int, walk[t]));
                                    lemma_step_back(rows as int, cols, m as int, walk[s - 1]);
                                    assert(walk[s - 1] == last);
                                    assert(walk[walk.len() - 1] == last);
                                }
                            }
                            assert(!walk.contains(idx as int));
                            assert(current_value == orig[idx as int]);
                        }
                        prev_value = current_value;
                        visited.set(idx, true);
                        proof {
                            let old_walk = walk;
                            walk = walk.push(idx as int);
                            assert forall|s: int| 0 <= s < walk.len() - 1 implies #[trigger] walk[s + 1] == step(rows as int, m as int, walk[s]) by {
                                if s < old_walk.len() - 1 {
                                    assert(old_walk[s + 1] == step(rows as int, m as int, old_walk[s]));
                                }
                            }
                            assert(walk.no_duplicates()) by {
                                assert forall|a: int, b: int| 0 <= a < b < walk.len() implies walk[a] != walk[b] by {
                                    if b < old_walk.len() {
                                        assert(old_walk[a] != old_walk[b]);
                                    }
                                }
                            }
                            assert forall|s: int| 0 <= s < walk.len() implies kk <= #[trigger] walk[s] < m && !vis0[walk[s]] by {
                                if s < old_walk.len() {
                                    assert(old_walk[s] == walk[s]);
                                }
                            }
                            lemma_distinct_in_range(walk, kk, m as int);
                            assert forall|j: int| 0 <= j < n implies #[trigger] visited@[j] == (vis0[j] || (walk.contains(j) && j != kk)) by {
                                if j != idx as int {
                                    if old_walk.contains(j) {
                                        let i = old_walk.index_of(j);
                                        assert(walk[i] == j);
                                    }
                                    if walk.contains(j) {
                                        let i = walk.index_of(j);
                                        assert(old_walk[i] == j);
                                    }
                                } else {
                                    assert(walk[walk.len() - 1] == j);
                                }
                            }
                            assert forall|j: int| 0 <= j < n && j != kk implies #[trigger] self.data@[j] == if walk.contains(j) {
                                orig[back(cols, m as int, j)]
                            } else {
                                data0[j]
                            } by {
                                if j != idx as int {
                                    if old_walk.contains(j) {
                                        let i = old_walk.index_of(j);
                                        assert(walk[i] == j);
                                    }
                                    if walk.contains(j) {
                                        let i = walk.index_of(j);
                                        assert(old_walk[i] == j);
                                    }
                                } else {
                                    assert(walk[walk.len() - 1] == j);
                                }
                            }
                        }
                    }
                    proof {
                        let last = walk.last();
                        lemma_step_back(rows as int, cols, m as int, last);
                        assert(back(cols, m as int, kk) == last);
                        assert forall|j: int| 1 <= j < m && (j < kk + 1 || visited@[j]) implies #[trigger] self.data@[j] == orig[back(cols, m as int, j)] by {
                            if j != kk && !walk.contains(j) {
                                assert(self.data@[j] == data0[j]);
                            }
                        }
                        assert forall|j: int| kk + 1 <= j < m && !visited@[j] implies #[trigger] self.data@[j] == orig[j] by {
                            assert(!walk.contains(j));
                        }
                        assert forall|j: int|
                            #![trigger step(rows as int, m as int, j)]
                            kk + 1 <= j < m && !visited@[j] implies kk + 1 <= step(rows as int, m as int, j) && !visited@[step(rows as int, m as int, j)] by {
                            let p = step(rows as int, m as int, j);
                            assert(!walk.contains(j));
                            assert(kk <= p && !vis0[p]);
                            lemma_step_back(rows as int, cols, m as int, j);
                            if walk.contains(p) {
                                let s = walk.index_of(p);
                                if s == 0 {
                                    lemma_step_back(rows as int, cols, m as int, last);
                                    assert(j == last);
                                    assert(walk[walk.len() - 1] == last);
                                } else {
                                    let t = s - 1;
                                    assert(walk[t + 1] == step(rows as int, m as int, walk[t]));
                                    lemma_step_back(rows as int, cols, m as int, walk[s - 1]);
                                }
                            }
                            assert(p != kk);
                        }
                        assert(!walk.contains(0));
                        assert(!walk.contains(m as int));
                    }
                }
                k = k + 1;
            }
            proof {
                assert forall|j: int| 0 <= j < n implies #[trigger] self.data@[j] == orig[if j == m { m as int } else { back(cols, m as int, j) }] by {
                    if j == 0 {
                        lemma_small_mod(0, m as nat);
                        assert(cols * 0 == 0);
                    }
                }
            }
        }
        let ghost data_t = self.data@;
        self.no_rows = self.cols();
        proof {
            assert(self.nrows() == cols);
            lemma_fundamental_div_mod_converse(n as int, cols, rows as int, 0);
            assert(n as int == rows * cols);
            assert(self.ncols() == rows);
            self.lemma_wf_len();
            assert forall|c: int| 0 <= c < cols implies #[trigger] self@[c] =~= transpose(old_view)[c] by {
                assert forall|r: int| 0 <= r < rows implies #[trigger] self@[c][r] == old_view[r][c] by {
                    self.lemma_entry(c, r);
                    old(self).lemma_entry(r, c);
                    lemma_index(r, c, rows as int, cols);
                    lemma_index(c, r, cols, rows as int);
                    assert(c * rows + r < n);
                    if n >= 2 {
                        let m = n - 1;
                        if c * rows + r == m {
                            lemma_last_entry(rows as int, cols, r, c);
                        } else {
                            lemma_back_transposes(rows as int, cols, m as int, r, c);
                        }
                    }
                }
            }
            assert(self@ =~= transpose(old_view));
        }
    }
}

} // verus!
