use la::matrix::Matrix;
use std::ops::{Add, Mul, Neg, Sub};

fn m2(a: i32, b: i32, c: i32, d: i32) -> Matrix<i32> {
    Matrix::new(2, 2, vec![a, b, c, d])
}

fn m33() -> Matrix<usize> {
    Matrix::new(3, 3, vec![1, 2, 3, 4, 5, 6, 7, 8, 9])
}

#[test]
fn test_new() {
    let m = Matrix::new(2, 2, vec![1, 2, 3, 4]);
    assert!(m.rows() == 2);
    assert!(m.cols() == 2);
    assert!(*m.get_data() == vec![1, 2, 3, 4]);
}

#[test]
fn test_id_square() {
    let m = Matrix::<usize>::id(2, 2);
    assert!(m.rows() == 2);
    assert!(m.cols() == 2);
    assert!(*m.get_data() == vec![1, 0, 0, 1]);
}

#[test]
fn test_id_m_over_n() {
    let m = Matrix::<usize>::id(3, 2);
    assert!(m.rows() == 3);
    assert!(m.cols() == 2);
    assert!(*m.get_data() == vec![1, 0, 0, 1, 0, 0]);
}

#[test]
fn test_id_n_over_m() {
    let m = Matrix::<usize>::id(2, 3);
    assert!(m.rows() == 2);
    assert!(m.cols() == 3);
    assert!(*m.get_data() == vec![1, 0, 0, 0, 1, 0]);
}

#[test]
fn test_zero() {
    let m = Matrix::<usize>::zero(2, 3);
    assert!(m.rows() == 2);
    assert!(m.cols() == 3);
    assert!(*m.get_data() == vec![0, 0, 0, 0, 0, 0]);
}

#[test]
fn test_diag() {
    let m = Matrix::<usize>::diag(vec![1, 2]);
    assert!(m.rows() == 2);
    assert!(m.cols() == 2);
    assert!(*m.get_data() == vec![1, 0, 0, 2]);
}

#[test]
fn test_block_diag() {
    let m = Matrix::<usize>::block_diag(2, 3, vec![1, 2]);
    assert!(m.rows() == 2);
    assert!(m.cols() == 3);
    assert!(*m.get_data() == vec![1, 0, 0, 0, 2, 0]);

    let m = Matrix::<usize>::block_diag(3, 2, vec![1, 2]);
    assert!(m.rows() == 3);
    assert!(m.cols() == 2);
    assert!(*m.get_data() == vec![1, 0, 0, 2, 0, 0]);
}

#[test]
fn test_vector() {
    let v = Matrix::vector(vec![1, 2, 3]);
    assert!(v.rows() == 3);
    assert!(v.cols() == 1);
    assert!(*v.get_data() == vec![1, 2, 3]);
}

#[test]
fn test_zero_vector() {
    let v = Matrix::<usize>::zero_vector(2);
    assert!(v.rows() == 2);
    assert!(v.cols() == 1);
    assert!(*v.get_data() == vec![0, 0]);
}

#[test]
fn test_one_vector() {
    let v = Matrix::<usize>::one_vector(2);

    assert!(v.rows() == 2);
    assert!(v.cols() == 1);
    assert!(*v.get_data() == vec![1, 1]);
}

#[test]
fn test_row_vector() {
    let v = Matrix::row_vector(vec![1, 2, 3]);
    assert!(v.rows() == 1);
    assert!(v.cols() == 3);
    assert!(*v.get_data() == vec![1, 2, 3]);
}

#[test]
fn test_get_set() {
    let mut m = m2(1, 2, 3, 4);
    assert!(m.get(1, 0) == 3);
    assert!(m.get(0, 1) == 2);

    assert!(*m.get_ref(1, 1) == 4);

    *m.get_mref(0, 0) = 10;
    assert!(m.get(0, 0) == 10);

    m.set(1, 1, 5);
    assert!(m.get(1, 1) == 5);
}

#[test]
fn test_map() {
    let mut m = Matrix::new(2, 2, vec![1usize, 2, 3, 4]);
    assert!(*m.map(&|x: &usize| -> usize { *x + 1 }).get_data() == vec![2, 3, 4, 5]);

    m.mmap(&|x: &usize| *x + 2);
    assert!(*m.get_data() == vec![3, 4, 5, 6]);
}

#[test]
fn test_cr() {
    let v = Matrix::new(3, 1, vec![1, 2, 3]);
    let m = v.cr(&v);
    assert!(m.rows() == 3);
    assert!(m.cols() == 2);
    assert!(*m.get_data() == vec![1, 1, 2, 2, 3, 3]);
}

#[test]
fn test_cb() {
    let m = m2(1, 2, 3, 4);
    let m2 = m.cb(&m);
    assert!(m2.rows() == 4);
    assert!(m2.cols() == 2);
    assert!(*m2.get_data() == vec![1, 2, 3, 4, 1, 2, 3, 4]);
}

#[test]
fn test_t() {
    let mut m = m2(1, 2, 3, 4);
    assert!(*m.t().get_data() == vec![1, 3, 2, 4]);

    m.mt();
    assert!(*m.get_data() == vec![1, 3, 2, 4]);

    let mut m = Matrix::new(2, 3, vec![1, 2, 3, 4, 5, 6]);
    let r = m.t();
    assert!(r.rows() == 3);
    assert!(r.cols() == 2);
    assert!(*r.get_data() == vec![1, 4, 2, 5, 3, 6]);

    m.mt();
    assert!(m.rows() == 3);
    assert!(m.cols() == 2);
    assert!(*m.get_data() == vec![1, 4, 2, 5, 3, 6]);
}

#[test]
fn test_sub() {
    let m = m33();
    assert!(*m.minor(1, 1).get_data() == vec![1, 3, 7, 9]);
    assert!(*m.sub_matrix(1, 1, 3, 3).get_data() == vec![5, 6, 8, 9]);
    assert!(*m.get_column(1).get_data() == vec![2, 5, 8]);
}

#[test]
fn test_permute_rows() {
    let m = m33();
    assert!(*m.permute_rows(&[1, 0, 2]).get_data() == vec![4, 5, 6, 1, 2, 3, 7, 8, 9]);
    assert!(*m.permute_rows(&[2, 1]).get_data() == vec![7, 8, 9, 4, 5, 6]);
}

#[test]
fn test_permute_columns() {
    let m = m33();
    assert!(*m.permute_columns(&[1, 0, 2]).get_data() == vec![2, 1, 3, 5, 4, 6, 8, 7, 9]);
    assert!(*m.permute_columns(&[1, 2]).get_data() == vec![2, 3, 5, 6, 8, 9]);
}

#[test]
fn test_filter_rows() {
    let m = m33();
    let m2 = m.filter_rows(&|_: &Matrix<usize>, row: usize| (row % 2) == 0);
    assert!(m2.rows() == 2);
    assert!(m2.cols() == 3);
    assert!(*m2.get_data() == vec![1, 2, 3, 7, 8, 9]);
}

#[test]
fn test_filter_columns() {
    let m = m33();
    let m2 = m.filter_columns(&|_: &Matrix<usize>, col: usize| col >= 1);
    assert!(m2.rows() == 3);
    assert!(m2.cols() == 2);
    assert!(*m2.get_data() == vec![2, 3, 5, 6, 8, 9]);
}

#[test]
fn test_select_rows() {
    let m = m33();
    let m2 = m.select_rows(&[false, true, true]);
    assert!(m2.rows() == 2);
    assert!(m2.cols() == 3);
    assert!(*m2.get_data() == vec![4, 5, 6, 7, 8, 9]);
}

#[test]
fn test_select_columns() {
    let m = m33();
    let m2 = m.select_columns(&[true, false, true]);
    assert!(m2.rows() == 3);
    assert!(m2.cols() == 2);
    assert!(*m2.get_data() == vec![1, 3, 4, 6, 7, 9]);
}

#[test]
fn test_algebra() {
    let a = m2(1, 2, 3, 4);
    let b = m2(3, 4, 5, 6);
    assert!(*(&a).neg().get_data() == vec![-1, -2, -3, -4]);
    assert!(*(&a).scale(2).get_data() == vec![2, 4, 6, 8]);
    assert!(*(&a).add(&b).get_data() == vec![4, 6, 8, 10]);
    assert!(*(&b).sub(&a).get_data() == vec![2, 2, 2, 2]);
    assert!(*(&a).elem_mul(&b).get_data() == vec![3, 8, 15, 24]);
    assert!(*(&b).elem_div(&a).get_data() == vec![3, 2, 1, 1]);

    let mut a = m2(1, 2, 3, 4);
    a.mneg();
    assert!(*a.get_data() == vec![-1, -2, -3, -4]);

    let mut a = m2(1, 2, 3, 4);
    a.mscale(2);
    assert!(*a.get_data() == vec![2, 4, 6, 8]);

    let mut a = m2(1, 2, 3, 4);
    a.madd(&b);
    assert!(*a.get_data() == vec![4, 6, 8, 10]);

    let a = m2(1, 2, 3, 4);
    let mut b = m2(3, 4, 5, 6);
    b.msub(&a);
    assert!(*b.get_data() == vec![2, 2, 2, 2]);

    let mut a = m2(1, 2, 3, 4);
    let b = m2(3, 4, 5, 6);
    a.melem_mul(&b);
    assert!(*a.get_data() == vec![3, 8, 15, 24]);

    let a = m2(1, 2, 3, 4);
    let mut b = m2(3, 4, 5, 6);
    b.melem_div(&a);
    assert!(*b.get_data() == vec![3, 2, 1, 1]);
}

#[test]
fn test_mul() {
    let mut a = m2(1, 2, 3, 4);
    let b = m2(3, 4, 5, 6);
    assert!(*(&a).mul(&b).get_data() == vec![13, 16, 29, 36]);
    a.mmul(&b);
    assert!(*a.get_data() == vec![13, 16, 29, 36]);
}

#[test]
fn test_trace() {
    let a = Matrix::new(2, 2, vec![1i64, 2, 3, 4]);
    assert!(a.trace() == 5);

    let a = Matrix::new(3, 2, vec![1i64, 2, 3, 4, 5, 6]);
    assert!(a.trace() == 5);

    let a = Matrix::new(2, 3, vec![1i64, 2, 3, 4, 5, 6]);
    assert!(a.trace() == 6);
}

#[test]
fn test_is_square() {
    let m = m2(1, 2, 3, 4);
    assert!(m.is_square());
    assert!(!m.is_not_square());

    let m = Matrix::new(2, 3, vec![1, 2, 3, 4, 5, 6]);
    assert!(!m.is_square());
    assert!(m.is_not_square());

    let v = Matrix::new(3, 1, vec![1, 2, 3]);
    assert!(!v.is_square());
    assert!(v.is_not_square());
}

#[test]
fn test_is_symmetric() {
    let m = Matrix::new(3, 3, vec![1i64, 2, 3, 2, 4, 5, 3, 5, 6]);
    assert!(m.is_symmetric());

    let m = Matrix::new(2, 2, vec![1i64, 2, 3, 4]);
    assert!(!m.is_symmetric());

    let m = Matrix::new(2, 3, vec![1i64, 2, 3, 2, 4, 5]);
    assert!(!m.is_symmetric());
}

#[test]
fn test_det() {
    let a = Matrix::new(3, 3, vec![6i64, -7, 10, 0, 3, -1, 0, 5, -7]);
    assert!(a.det() == -96);
}

#[test]
fn test_is_singular() {
    let m = Matrix::new(2, 2, vec![2i64, 6, 1, 3]);
    assert!(m.is_singular());
}

#[test]
fn test_is_non_singular() {
    let m = Matrix::new(2, 2, vec![2i64, 6, 6, 3]);
    assert!(m.is_non_singular());
}
