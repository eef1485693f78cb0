use la::layout::layout;
use la::matrix::Matrix;

fn m34() -> Matrix<i64> {
    Matrix::new(3, 4, vec![1, 2, 3, 4, 5, 6, 7, 8, 9, 10, 11, 12])
}

#[test]
fn transpose_twice_gives_the_matrix_back() {
    let m = m34();
    let tt = m.t().t();
    assert!(tt.rows() == 3 && tt.cols() == 4);
    assert!(tt.get_data() == m.get_data());

    let mut n = m34();
    n.mt();
    n.mt();
    assert!(n.get_data() == m.get_data());
}

#[test]
fn in_place_transpose_matches_transpose() {
    for (r, c) in [(1usize, 1usize), (1, 5), (5, 1), (3, 4), (4, 3), (2, 7), (6, 6)] {
        let data: Vec<i64> = (0..(r * c) as i64).collect();
        let m = Matrix::new(r, c, data.clone());
        let mut n = Matrix::new(r, c, data);
        n.mt();
        let t = m.t();
        assert!(n.rows() == c && n.cols() == r);
        assert!(n.get_data() == t.get_data());
        for i in 0..r {
            for j in 0..c {
                assert!(t.get(j, i) == m.get(i, j));
            }
        }
    }
}

#[test]
fn transpose_of_side_by_side_is_stacked_transposes() {
    let a = Matrix::new(2, 2, vec![1i64, 2, 3, 4]);
    let b = Matrix::new(2, 3, vec![5i64, 6, 7, 8, 9, 10]);
    let left = a.cr(&b).t();
    let right = a.t().cb(&b.t());
    assert!(left.rows() == 5 && left.cols() == 2);
    assert!(left.get_data() == right.get_data());
}

#[test]
fn selecting_everything_keeps_everything() {
    let m = m34();
    assert!(m.select_rows(&[true, true, true]).get_data() == m.get_data());
    assert!(m.select_columns(&[true, true, true, true]).get_data() == m.get_data());
}

#[test]
fn sub_matrix_inside_is_a_block() {
    let m = m34();
    let s = m.sub_matrix(1, 1, 3, 3);
    assert!(*s.get_data() == vec![6, 7, 10, 11]);
    for i in 0..2 {
        for j in 0..2 {
            assert!(s.get(i, j) == m.get(1 + i, 1 + j));
        }
    }
}

#[test]
fn sub_matrix_reads_the_stored_entries_row_by_row() {
    let m = Matrix::new(3, 3, vec![1, 2, 3, 4, 5, 6, 7, 8, 9]);
    let s = m.sub_matrix(0, 2, 2, 4);
    assert!(*s.get_data() == vec![3, 4, 6, 7]);
}

#[test]
fn trace_of_transpose_is_trace() {
    let m = m34();
    assert!(m.trace() == 1 + 6 + 11);
    assert!(m.t().trace() == m.trace());
}

#[test]
fn sum_commutes() {
    let a = Matrix::new(2, 2, vec![1i64, -2, 3, 40]);
    let b = Matrix::new(2, 2, vec![5i64, 6, -7, 8]);
    assert!((&a + &b).get_data() == (&b + &a).get_data());
    assert!(*(&a + &b).get_data() == vec![6, 4, -4, 48]);
}

#[test]
fn adding_then_subtracting_gives_the_matrix_back() {
    let a = Matrix::new(2, 2, vec![1i64, -2, 3, 40]);
    let b = Matrix::new(2, 2, vec![5i64, 6, -7, 8]);
    assert!((&a + &b - &b).get_data() == a.get_data());
    let mut c = a.clone();
    c.madd(&b);
    c.msub(&b);
    assert!(c.get_data() == a.get_data());
}

#[test]
fn negating_twice_gives_the_matrix_back() {
    let a = m34();
    assert!((-(-&a)).get_data() == a.get_data());
    let mut b = a.clone();
    b.mneg();
    assert!(*b.get_data() == vec![-1, -2, -3, -4, -5, -6, -7, -8, -9, -10, -11, -12]);
    b.mneg();
    assert!(b.get_data() == a.get_data());
}

#[test]
fn identity_is_neutral_for_the_product() {
    let a = m34();
    let left = Matrix::<i64>::id(3, 3) * &a;
    let right = &a * Matrix::<i64>::id(4, 4);
    assert!(left.get_data() == a.get_data());
    assert!(right.get_data() == a.get_data());
}

#[test]
fn transpose_of_product_is_product_of_transposes() {
    let a = Matrix::new(2, 3, vec![1i64, 2, 3, 4, 5, 6]);
    let b = Matrix::new(3, 2, vec![7i64, 8, 9, 10, 11, 12]);
    let left = (&a * &b).t();
    let right = b.t() * a.t();
    assert!(*(&a * &b).get_data() == vec![58, 64, 139, 154]);
    assert!(left.get_data() == right.get_data());
}

#[test]
fn minor_commutes_with_transpose() {
    let m = m34();
    assert!(*m.minor(1, 2).get_data() == vec![1, 2, 4, 9, 10, 12]);
    assert!(m.minor(1, 2).t().get_data() == m.t().minor(2, 1).get_data());
}

#[test]
fn permuting_rows_mirrors_permuting_columns() {
    let m = m34();
    let idx = [2usize, 0, 2];
    assert!(m.permute_rows(&idx).t().get_data() == m.t().permute_columns(&idx).get_data());
}

#[test]
fn scaling_by_one_keeps_the_matrix() {
    let a = m34();
    assert!(a.scale(1).get_data() == a.get_data());
    let mut b = a.clone();
    b.mscale(-3);
    assert!(b.get(2, 3) == -36);
}

#[test]
fn product_accumulates_row_times_column() {
    let a = Matrix::new(1, 3, vec![1u64, 2, 3]);
    let b = Matrix::new(3, 1, vec![4u64, 5, 6]);
    assert!(*(&a * &b).get_data() == vec![32]);
    assert!(*(&b * &a).get_data() == vec![4, 8, 12, 5, 10, 15, 6, 12, 18]);
}

#[test]
fn entrywise_division_truncates() {
    let a = Matrix::new(1, 4, vec![7i32, -7, 7, -7]);
    let b = Matrix::new(1, 4, vec![2i32, 2, -2, -2]);
    assert!(*a.elem_div(&b).get_data() == vec![3, -3, -3, 3]);
}

#[test]
fn reduce_folds_each_column() {
    let m = m34();
    let sums = m.reduce(&vec![0i64, 0, 0, 0], &|acc: &i64, x: &i64| *acc + *x);
    assert!(sums.rows() == 1 && sums.cols() == 4);
    assert!(*sums.get_data() == vec![15, 18, 21, 24]);
    let firsts = m.reduce(&vec![100i64, 100, 100, 100], &|acc: &i64, x: &i64| *acc * 10 + *x);
    assert!(*firsts.get_data() == vec![100159, 100270, 100381, 100492]);
    let small = Matrix::new(2, 2, vec![1i32, 2, 3, 4]);
    let digits = small.reduce(&vec![0i32, 0], &|acc: &i32, x: &i32| *acc * 10 + *x);
    assert!(digits.rows() == 1 && digits.cols() == 2);
    assert!(*digits.get_data() == vec![13, 24]);
}

#[test]
fn indexing_reads_entries() {
    let m = m34();
    assert!(m[(0, 0)] == 1);
    assert!(m[(2, 1)] == 10);
    assert!(m[(1, 3)] == 8);
}

#[test]
fn approx_eq_compares_shapes_and_entries() {
    let a = m34();
    assert!(a.approx_eq(&m34()));
    assert!(!a.approx_eq(&a.t()));
    let mut b = m34();
    b.set(2, 2, 0);
    assert!(!a.approx_eq(&b));
    let c = Matrix::new(2, 6, vec![1i64, 2, 3, 4, 5, 6, 7, 8, 9, 10, 11, 12]);
    assert!(!a.approx_eq(&c));
}

#[test]
fn symmetry_of_square_and_other_matrices() {
    let s = Matrix::new(2, 2, vec![1i64, 7, 7, 1]);
    assert!(s.is_symmetric());
    assert!(!s.is_non_symmetric());
    let n = Matrix::new(2, 2, vec![1i64, 7, 8, 1]);
    assert!(n.is_non_symmetric());
    assert!(Matrix::new(1, 1, vec![5i64]).is_symmetric());
}

#[test]
fn get_column_and_vectors() {
    let m = m34();
    let c = m.get_column(3);
    assert!(c.rows() == 3 && c.cols() == 1);
    assert!(*c.get_data() == vec![4, 8, 12]);
}

#[test]
fn permute_columns_with_no_columns() {
    let m = m34();
    let e = m.permute_columns(&[]);
    assert!(e.rows() == 3);
    assert!(e.cols() == 0);
    assert!(e.get_data().is_empty());
}

#[test]
fn filter_rows_dropping_everything_leaves_no_rows() {
    let m = m34();
    let e = m.filter_rows(&|_: &Matrix<i64>, _: usize| false);
    assert!(e.rows() == 0);
    assert!(e.get_data().is_empty());
}

#[test]
fn mutable_data_access_writes_through() {
    let mut m = m34();
    m.get_mut_data()[5] = 60;
    assert!(m.get(1, 1) == 60);
    assert!(m.rows() == 3 && m.cols() == 4);
}

#[test]
fn random_matrices_have_the_requested_shape() {
    let m = Matrix::<i64>::random(3, 5);
    assert!(m.rows() == 3 && m.cols() == 5);
    assert!(m.get_data().len() == 15);
    let v = Matrix::<u32>::random(4, 1);
    assert!(v.rows() == 4 && v.cols() == 1);
    let w = Matrix::<usize>::random(2, 2);
    assert!(w.get_data().len() == 4);
    assert!(Matrix::<i8>::random(2, 3).get_data().len() == 6);
    assert!(Matrix::<i16>::random(1, 2).get_data().len() == 2);
    assert!(Matrix::<isize>::random(3, 1).get_data().len() == 3);
    assert!(Matrix::<u8>::random(2, 2).get_data().len() == 4);
    assert!(Matrix::<u16>::random(1, 1).get_data().len() == 1);
    assert!(Matrix::<bool>::random(2, 3).get_data().len() == 6);
    assert!(Matrix::<char>::random(3, 2).get_data().len() == 6);
}

#[test]
fn diagonal_matrices() {
    let d = Matrix::<i32>::diag(vec![4, 5, 6]);
    assert!(*d.get_data() == vec![4, 0, 0, 0, 5, 0, 0, 0, 6]);
    let i = Matrix::<u8>::id(1, 3);
    assert!(*i.get_data() == vec![1, 0, 0]);
    let z = Matrix::<i16>::zero(0, 3);
    assert!(z.rows() == 0 && z.get_data().is_empty());
}

#[test]
fn trace_of_non_square_uses_the_shorter_side() {
    let m = Matrix::new(4, 2, vec![1u32, 2, 3, 4, 5, 6, 7, 8]);
    assert!(m.trace() == 1 + 4);
}

#[test]
fn determinant_of_small_matrices() {
    assert!(Matrix::new(1, 1, vec![-4i32]).det() == -4);
    assert!(Matrix::new(2, 2, vec![1i32, 2, 3, 4]).det() == -2);
    assert!(Matrix::<i64>::id(4, 4).det() == 1);
    let m = Matrix::new(4, 4, vec![2i64, 0, 1, 3, 1, 1, 0, 2, 0, 4, 1, 1, 3, 2, 2, 0]);
    assert!(m.det() == m.t().det());
    assert!(!Matrix::<i64>::id(3, 3).is_singular());
}

#[test]
fn operators_accept_owned_and_borrowed_operands() {
    let a = Matrix::new(2, 2, vec![1i32, 2, 3, 4]);
    let b = Matrix::new(2, 2, vec![5i32, 6, 7, 8]);
    assert!(*(a.clone() + b.clone()).get_data() == vec![6, 8, 10, 12]);
    assert!(*(a.clone() + &b).get_data() == vec![6, 8, 10, 12]);
    assert!(*(&a + b.clone()).get_data() == vec![6, 8, 10, 12]);
    assert!(*(b.clone() - a.clone()).get_data() == vec![4, 4, 4, 4]);
    assert!(*(b.clone() - &a).get_data() == vec![4, 4, 4, 4]);
    assert!(*(&b - a.clone()).get_data() == vec![4, 4, 4, 4]);
    assert!(*(a.clone() * b.clone()).get_data() == vec![19, 22, 43, 50]);
    assert!(*(a.clone() * &b).get_data() == vec![19, 22, 43, 50]);
    assert!(*(&a * b.clone()).get_data() == vec![19, 22, 43, 50]);
    assert!(*(-a.clone()).get_data() == vec![-1, -2, -3, -4]);
    let joined = a.clone() | &b;
    assert!(joined.rows() == 2 && joined.cols() == 4);
    assert!(*joined.get_data() == vec![1, 2, 5, 6, 3, 4, 7, 8]);
}

#[test]
fn in_place_product_matches_the_operator() {
    let a = Matrix::new(2, 3, vec![1i64, 2, 3, 4, 5, 6]);
    let b = Matrix::new(3, 2, vec![7i64, 8, 9, 10, 11, 12]);
    let mut c = a.clone();
    c.mmul(&b);
    assert!(c.rows() == 2 && c.cols() == 2);
    assert!(c.get_data() == (&a * &b).get_data());
}

#[test]
fn layout_pads_entries_to_the_widest() {
    let texts: Vec<Vec<u8>> = vec![b"1".to_vec(), b"22".to_vec(), b"333".to_vec(), b"4".to_vec()];
    let out = layout(2, &texts);
    assert!(out == b"\n|   1  22 |\n| 333   4 |\n".to_vec());
    let single: Vec<Vec<u8>> = vec![b"-7".to_vec()];
    assert!(layout(1, &single) == b"\n| -7 |\n".to_vec());
    let none: Vec<Vec<u8>> = Vec::new();
    assert!(layout(0, &none) == b"\n".to_vec());
}

#[test]
fn sub_matrix_rows_continue_past_the_last_column() {
    let m = Matrix::new(3, 3, vec![1i32, 2, 3, 4, 5, 6, 7, 8, 9]);
    let s = m.sub_matrix(0, 2, 1, 4);
    assert!(s.rows() == 1 && s.cols() == 2);
    assert!(*s.get_data() == vec![3, 4]);
}

#[test]
fn built_matrices_keep_their_shape() {
    let mut m = Matrix::new(2, 3, vec![1i64, 2, 3, 4, 5, 6]);
    m.mneg();
    m.mt();
    m.set(0, 1, 7);
    assert!(m.rows() == 3 && m.cols() == 2);
    assert!(m.rows() * m.cols() == m.get_data().len());
}
