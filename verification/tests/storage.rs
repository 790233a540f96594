use matrix_kernel::{Fixed, Matrix, MatrixError, Scalar};

fn entries(m: &Matrix<i64>) -> Vec<i64> {
    let (rows, cols) = m.shape();
    let mut out = Vec::new();
    for r in 0..rows {
        for c in 0..cols {
            out.push(*m.index((r, c)).unwrap());
        }
    }
    out
}

#[test]
fn new_keeps_rows_in_order() {
    let m = Matrix::new([[1i64, 2, 3], [4, 5, 6]]);
    assert_eq!(m.shape(), (2, 3));
    assert_eq!(m.len(), 6);
    assert_eq!(m.index((0, 0)), Ok(&1));
    assert_eq!(m.index((0, 2)), Ok(&3));
    assert_eq!(m.index((1, 0)), Ok(&4));
    assert_eq!(m.index((1, 2)), Ok(&6));
}

#[test]
fn from_takes_a_buffer_of_the_right_length() {
    let m = Matrix::from(vec![1i64, 2, 3, 4, 5, 6], (3, 2)).unwrap();
    assert_eq!(m.shape(), (3, 2));
    assert_eq!(m.index((2, 1)), Ok(&6));
    assert_eq!(m.index((1, 0)), Ok(&3));
    assert_eq!(entries(&m), vec![1, 2, 3, 4, 5, 6]);
}

#[test]
fn from_refuses_a_buffer_of_the_wrong_length() {
    assert!(matches!(Matrix::from(vec![1i64, 2, 3], (2, 2)), Err(MatrixError::ShapeMismatch)));
    assert!(matches!(Matrix::from(vec![1i64, 2, 3, 4, 5], (2, 2)), Err(MatrixError::ShapeMismatch)));
    assert!(matches!(Matrix::from(vec![1i64], (0, 1)), Err(MatrixError::ShapeMismatch)));
    assert!(matches!(
        Matrix::from(vec![1i64, 2], (usize::MAX, 2)),
        Err(MatrixError::ShapeMismatch)
    ));
    assert!(matches!(
        Matrix::from(Vec::<i64>::new(), (usize::MAX, usize::MAX)),
        Err(MatrixError::ShapeMismatch)
    ));
}

#[test]
fn from_accepts_an_empty_shape() {
    let m = Matrix::from(Vec::<i64>::new(), (0, 3)).unwrap();
    assert_eq!(m.shape(), (0, 3));
    assert_eq!(m.len(), 0);
    assert_eq!(m.index((0, 0)), Err(MatrixError::IndexOutOfBounds));
}

#[test]
fn index_checks_both_bounds() {
    let m = Matrix::new([[1i64, 2, 3], [4, 5, 6]]);
    assert_eq!(m.index((2, 0)), Err(MatrixError::IndexOutOfBounds));
    assert_eq!(m.index((0, 3)), Err(MatrixError::IndexOutOfBounds));
    assert_eq!(m.index((1, 3)), Err(MatrixError::IndexOutOfBounds));
    assert_eq!(m.index((usize::MAX, usize::MAX)), Err(MatrixError::IndexOutOfBounds));
    assert_eq!(m.index((1, 2)), Ok(&6));
}

#[test]
fn index_mut_writes_one_entry() {
    let mut m = Matrix::new([[1i64, 2, 3], [4, 5, 6]]);
    *m.index_mut((1, 1)).unwrap() = 50;
    assert_eq!(entries(&m), vec![1, 2, 3, 4, 50, 6]);
    let slot = m.index_mut((0, 2)).unwrap();
    assert_eq!(*slot, 3);
    *slot += 4;
    assert_eq!(entries(&m), vec![1, 2, 7, 4, 50, 6]);
    assert_eq!(m.shape(), (2, 3));
}

#[test]
fn index_mut_checks_both_bounds() {
    let mut m = Matrix::new([[1i64, 2, 3], [4, 5, 6]]);
    assert!(matches!(m.index_mut((2, 0)), Err(MatrixError::IndexOutOfBounds)));
    assert!(matches!(m.index_mut((0, 3)), Err(MatrixError::IndexOutOfBounds)));
    assert_eq!(entries(&m), vec![1, 2, 3, 4, 5, 6]);
}

#[test]
fn shape_predicates() {
    let square = Matrix::new([[1i64, 2], [3, 4]]);
    assert!(square.is_quadratic());
    assert!(!square.is_row_vector() && !square.is_column_vector() && !square.is_vector());
    let row = Matrix::new([[1i64, 2, 3]]);
    assert!(row.is_row_vector() && row.is_vector());
    assert!(!row.is_column_vector() && !row.is_quadratic());
    let column = Matrix::new([[1i64], [2], [3]]);
    assert!(column.is_column_vector() && column.is_vector());
    assert!(!column.is_row_vector() && !column.is_quadratic());
    let single = Matrix::new([[7i64]]);
    assert!(single.is_quadratic() && single.is_row_vector() && single.is_column_vector());
    let wide = Matrix::new([[1i64, 2, 3], [4, 5, 6]]);
    assert!(!wide.is_quadratic() && !wide.is_vector());
}

#[test]
fn zeros_fill_and_identity() {
    let z = Matrix::<i64>::zeros((2, 3));
    assert_eq!(z.shape(), (2, 3));
    assert_eq!(entries(&z), vec![0; 6]);
    let f = Matrix::fill(7i64, (3, 2));
    assert_eq!(f.shape(), (3, 2));
    assert_eq!(entries(&f), vec![7; 6]);
    let i = Matrix::<i64>::identity(3);
    assert_eq!(i.shape(), (3, 3));
    assert_eq!(entries(&i), vec![1, 0, 0, 0, 1, 0, 0, 0, 1]);
    let empty = Matrix::<i64>::identity(0);
    assert_eq!(empty.shape(), (0, 0));
    assert_eq!(empty.len(), 0);
    let fixed = Matrix::<Fixed>::identity(2);
    assert_eq!(fixed.index((0, 0)), Ok(&Fixed::one()));
    assert_eq!(fixed.index((0, 1)), Ok(&Fixed::zero()));
}

#[test]
fn get_rows_picks_rows_in_the_order_given() {
    let m = Matrix::new([[1i64, 2], [3, 4], [5, 6]]);
    let picked = m.get_rows(&[2, 0, 2]).unwrap();
    assert_eq!(picked.shape(), (3, 2));
    assert_eq!(entries(&picked), vec![5, 6, 1, 2, 5, 6]);
    let none = m.get_rows(&[]).unwrap();
    assert_eq!(none.shape(), (0, 2));
    assert!(matches!(m.get_rows(&[0, 3]), Err(MatrixError::IndexOutOfBounds)));
}

#[test]
fn get_column_picks_one_column() {
    let m = Matrix::new([[1i64, 2], [3, 4], [5, 6]]);
    let column = m.get_column(1).unwrap();
    assert_eq!(column.shape(), (3, 1));
    assert_eq!(entries(&column), vec![2, 4, 6]);
    assert!(matches!(m.get_column(2), Err(MatrixError::IndexOutOfBounds)));
}

#[test]
fn clone_is_an_independent_copy() {
    let m = Matrix::new([[1i64, 2], [3, 4]]);
    let mut copy = m.clone();
    *copy.index_mut((0, 0)).unwrap() = 9;
    assert_eq!(entries(&m), vec![1, 2, 3, 4]);
    assert_eq!(entries(&copy), vec![9, 2, 3, 4]);
}
