use matrix_kernel::{Matrix, MatrixError};

fn entries(m: &Matrix<i64>) -> Vec<i64> {
    let (rows, cols) = m.shape();
    let mut out = Vec::new();
    for r in 0..rows {
        for c in 0..cols {
            out.push(*m.index((r, c)).unwrap());
        }
    }
    out
}

#[test]
fn adding_mismatched_shapes_fails() {
    let a = Matrix::new([[1i64, 2, 3], [4, 5, 6]]);
    let b = Matrix::new([[1i64, 2], [3, 4], [5, 6]]);
    assert!(matches!(a.add(&b), Err(MatrixError::ShapeMismatch)));
    assert!(matches!(b.add(&a), Err(MatrixError::ShapeMismatch)));
    assert!(matches!(a.sub(&b), Err(MatrixError::ShapeMismatch)));
}

#[test]
fn add_and_sub_work_entry_by_entry() {
    let a = Matrix::new([[1i64, 2, 3], [4, 5, 6]]);
    let b = Matrix::new([[10i64, 20, 30], [40, 50, 60]]);
    let sum = a.add(&b).unwrap();
    assert_eq!(sum.shape(), (2, 3));
    assert_eq!(entries(&sum), vec![11, 22, 33, 44, 55, 66]);
    let difference = a.sub(&b).unwrap();
    assert_eq!(difference.shape(), (2, 3));
    assert_eq!(entries(&difference), vec![-9, -18, -27, -36, -45, -54]);
}

#[test]
fn scale_and_negate() {
    let a = Matrix::new([[1i64, -2], [3, 0]]);
    let scaled = a.scale(3);
    assert_eq!(scaled.shape(), (2, 2));
    assert_eq!(entries(&scaled), vec![3, -6, 9, 0]);
    let negated = a.neg();
    assert_eq!(entries(&negated), vec![-1, 2, -3, 0]);
    let mut b = a.clone();
    b.scale_assign(-2);
    assert_eq!(b.shape(), (2, 2));
    assert_eq!(entries(&b), vec![-2, 4, -6, 0]);
    assert_eq!(entries(&a), vec![1, -2, 3, 0]);
}

#[test]
fn product_of_two_matrices() {
    let a = Matrix::new([[1i64, 2, 3], [4, 5, 6]]);
    let b = Matrix::new([[7i64, 8], [9, 10], [11, 12]]);
    let p = a.mul(&b).unwrap();
    assert_eq!(p.shape(), (2, 2));
    assert_eq!(entries(&p), vec![58, 64, 139, 154]);
    let q = b.mul(&a).unwrap();
    assert_eq!(q.shape(), (3, 3));
    assert_eq!(entries(&q), vec![39, 54, 69, 49, 68, 87, 59, 82, 105]);
}

#[test]
fn product_needs_matching_inner_dimensions() {
    let a = Matrix::new([[1i64, 2, 3], [4, 5, 6]]);
    assert!(matches!(a.mul(&a), Err(MatrixError::ShapeMismatch)));
    let mut b = a.clone();
    assert!(matches!(b.mul_assign(&a), Err(MatrixError::ShapeMismatch)));
    assert_eq!(b.shape(), (2, 3));
    assert_eq!(entries(&b), vec![1, 2, 3, 4, 5, 6]);
}

#[test]
fn multiply_assign_takes_the_shape_of_the_product() {
    let mut a = Matrix::new([[1i64, 2, 3], [4, 5, 6]]);
    let b = Matrix::new([[1i64, 0, 0, 1], [0, 1, 0, 1], [0, 0, 1, 1]]);
    assert_eq!(a.mul_assign(&b), Ok(()));
    assert_eq!(a.shape(), (2, 4));
    assert_eq!(entries(&a), vec![1, 2, 3, 6, 4, 5, 6, 15]);
    let mut column = Matrix::new([[1i64], [2], [3]]);
    let row = Matrix::new([[4i64, 5]]);
    assert_eq!(column.mul_assign(&row), Ok(()));
    assert_eq!(column.shape(), (3, 2));
    assert_eq!(entries(&column), vec![4, 5, 8, 10, 12, 15]);
}

#[test]
fn multiplying_by_the_identity_changes_nothing() {
    let a = Matrix::new([[2i64, -3, 5], [7, 11, -13], [17, 19, 23]]);
    let i = Matrix::<i64>::identity(3);
    assert_eq!(entries(&a.mul(&i).unwrap()), entries(&a));
    assert_eq!(entries(&i.mul(&a).unwrap()), entries(&a));
    let wide = Matrix::new([[1i64, 2, 3], [4, 5, 6]]);
    assert_eq!(entries(&wide.mul(&Matrix::<i64>::identity(3)).unwrap()), entries(&wide));
    assert_eq!(entries(&Matrix::<i64>::identity(2).mul(&wide).unwrap()), entries(&wide));
}

#[test]
fn integer_arithmetic_wraps() {
    let a = Matrix::new([[i64::MAX, 1]]);
    let b = Matrix::new([[1i64, 1]]);
    assert_eq!(entries(&a.add(&b).unwrap()), vec![i64::MIN, 2]);
    assert_eq!(entries(&a.scale(2)), vec![-2, 2]);
    let low = Matrix::new([[i64::MIN]]);
    assert_eq!(entries(&low.neg()), vec![i64::MIN]);
    assert_eq!(entries(&low.sub(&Matrix::new([[1i64]])).unwrap()), vec![i64::MAX]);
}
