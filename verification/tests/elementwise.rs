use matrix_engine::contiguous;
use matrix_engine::error::MatrixError;
use matrix_engine::fragmented;

fn cm(rows: usize, cols: usize, data: Vec<i64>) -> contiguous::Matrix {
    contiguous::Matrix::new(rows, cols, data).unwrap()
}

fn fm(rows: usize, cols: usize, data: Vec<Vec<i64>>) -> fragmented::Matrix {
    fragmented::Matrix::new(rows, cols, data).unwrap()
}

#[test]
fn new_rejects_wrong_length() {
    assert_eq!(
        contiguous::Matrix::new(2, 2, vec![1, 2, 3]).unwrap_err(),
        MatrixError::ShapeMismatch {
            rows: 2,
            cols: 2,
            len: 3
        }
    );
    // One element too many is a mismatch like any other.
    assert_eq!(
        contiguous::Matrix::new(2, 2, vec![1, 2, 3, 4, 5]).unwrap_err(),
        MatrixError::ShapeMismatch {
            rows: 2,
            cols: 2,
            len: 5
        }
    );
    assert!(contiguous::Matrix::new(2, 2, vec![1, 2, 3, 4]).is_ok());

    assert_eq!(
        fragmented::Matrix::new(2, 2, vec![vec![1, 2]]).unwrap_err(),
        MatrixError::ShapeMismatch {
            rows: 2,
            cols: 2,
            len: 1
        }
    );
    assert_eq!(
        fragmented::Matrix::new(2, 2, vec![vec![1, 2], vec![3]]).unwrap_err(),
        MatrixError::ShapeMismatch {
            rows: 2,
            cols: 2,
            len: 1
        }
    );
    assert!(fragmented::Matrix::new(2, 2, vec![vec![1, 2], vec![3, 4]]).is_ok());
}

#[test]
fn add_zero_returns_original() {
    let a = cm(2, 3, vec![1, -2, 3, 4, 0, -6]);
    let zero = contiguous::Matrix::zeros(2, 3);
    for block in [1, 2, 16] {
        assert_eq!(a.add(&zero, block).unwrap(), a);
    }
    let fa = fm(2, 3, vec![vec![1, -2, 3], vec![4, 0, -6]]);
    let fzero = fragmented::Matrix::zeros(2, 3);
    assert_eq!(fa.add(&fzero).unwrap(), fa);
}

#[test]
fn subtract_self_returns_zero() {
    let a = cm(2, 2, vec![7, -3, 0, i64::MAX]);
    for block in [1, 3] {
        assert_eq!(a.subtract(&a, block).unwrap(), contiguous::Matrix::zeros(2, 2));
    }
    let fa = fm(2, 2, vec![vec![7, -3], vec![0, i64::MIN]]);
    assert_eq!(fa.subtract(&fa).unwrap(), fragmented::Matrix::zeros(2, 2));
}

#[test]
fn add_and_subtract_mismatched_shapes_fail() {
    let a = cm(2, 2, vec![1, 2, 3, 4]);
    let b = cm(2, 3, vec![1, 2, 3, 4, 5, 6]);
    let expected = MatrixError::DimensionMismatch {
        left_rows: 2,
        left_cols: 2,
        right_rows: 2,
        right_cols: 3,
    };
    assert_eq!(a.add(&b, 2).unwrap_err(), expected);
    assert_eq!(a.subtract(&b, 2).unwrap_err(), expected);
    assert_eq!(a.hadamard_product(&b).unwrap_err(), expected);
}

#[test]
fn add_subtract_concrete_values() {
    let a = cm(2, 2, vec![1, 2, 3, 4]);
    let b = cm(2, 2, vec![10, 20, 30, 40]);
    assert_eq!(a.add(&b, 2).unwrap(), cm(2, 2, vec![11, 22, 33, 44]));
    assert_eq!(b.subtract(&a, 2).unwrap(), cm(2, 2, vec![9, 18, 27, 36]));
    let fa = fm(2, 2, vec![vec![1, 2], vec![3, 4]]);
    let fb = fm(2, 2, vec![vec![10, 20], vec![30, 40]]);
    assert_eq!(fa.add(&fb).unwrap(), fm(2, 2, vec![vec![11, 22], vec![33, 44]]));
    assert_eq!(fb.subtract(&fa).unwrap(), fm(2, 2, vec![vec![9, 18], vec![27, 36]]));
}

#[test]
fn hadamard_is_commutative_and_squares() {
    let a = cm(2, 2, vec![1, -2, 3, 4]);
    let b = cm(2, 2, vec![5, 6, -7, 8]);
    assert_eq!(a.hadamard_product(&b).unwrap(), b.hadamard_product(&a).unwrap());
    assert_eq!(a.hadamard_product(&b).unwrap(), cm(2, 2, vec![5, -12, -21, 32]));
    let squared = a.apply_function(|x: i64| x.wrapping_mul(x));
    assert_eq!(a.hadamard_product(&a).unwrap(), squared);

    let fa = fm(2, 2, vec![vec![1, -2], vec![3, 4]]);
    let fb = fm(2, 2, vec![vec![5, 6], vec![-7, 8]]);
    assert_eq!(
        fa.hadamard_product(&fb).unwrap(),
        fb.hadamard_product(&fa).unwrap()
    );
    let fsquared = fa.apply_function(|x: i64| x.wrapping_mul(x));
    assert_eq!(fa.hadamard_product(&fa).unwrap(), fsquared);
}

#[test]
fn transpose_twice_returns_original() {
    let a = cm(2, 3, vec![1, 2, 3, 4, 5, 6]);
    assert_eq!(a.transpose(), cm(3, 2, vec![1, 4, 2, 5, 3, 6]));
    assert_eq!(a.transpose().transpose(), a);

    let fa = fm(2, 3, vec![vec![1, 2, 3], vec![4, 5, 6]]);
    assert_eq!(
        fa.transpose(),
        fm(3, 2, vec![vec![1, 4], vec![2, 5], vec![3, 6]])
    );
    assert_eq!(fa.transpose().transpose(), fa);
}

#[test]
fn identity_multiplication_returns_original() {
    let a = cm(2, 3, vec![1, -2, 3, 4, 5, -6]);
    let right = contiguous::Matrix::identity(3);
    let left = contiguous::Matrix::identity(2);
    assert_eq!(a.multiply(&right, 2).unwrap(), a);
    assert_eq!(a.multiply_strided(&right).unwrap(), a);
    assert_eq!(left.multiply(&a, 2).unwrap(), a);

    let fa = fm(2, 3, vec![vec![1, -2, 3], vec![4, 5, -6]]);
    let fright = fragmented::Matrix::identity(3);
    let fleft = fragmented::Matrix::identity(2);
    assert_eq!(fa.multiply(&fright).unwrap(), fa);
    assert_eq!(fleft.multiply(&fa).unwrap(), fa);
}

#[test]
fn identity_and_zeros_have_expected_entries() {
    let id = contiguous::Matrix::identity(3);
    assert_eq!(id.data, vec![1, 0, 0, 0, 1, 0, 0, 0, 1]);
    let z = contiguous::Matrix::zeros(2, 3);
    assert_eq!(z.data, vec![0; 6]);

    let fid = fragmented::Matrix::identity(2);
    assert_eq!(fid.data, vec![vec![1, 0], vec![0, 1]]);
    let fz = fragmented::Matrix::zeros(2, 2);
    assert_eq!(fz.data, vec![vec![0, 0], vec![0, 0]]);
}

#[test]
fn apply_function_maps_every_element() {
    let a = cm(2, 2, vec![1, -2, 3, -4]);
    let doubled = a.apply_function(|x: i64| x.wrapping_add(x));
    assert_eq!(doubled, cm(2, 2, vec![2, -4, 6, -8]));
    let fa = fm(1, 3, vec![vec![1, -2, 3]]);
    let negated = fa.apply_function(|x: i64| x.wrapping_mul(-1));
    assert_eq!(negated, fm(1, 3, vec![vec![-1, 2, -3]]));
}

#[test]
fn from_vector_builds_column_matrix() {
    let column = contiguous::Matrix::from(vec![4, 5, 6]);
    assert_eq!(column, cm(3, 1, vec![4, 5, 6]));
    let fcolumn = fragmented::Matrix::from(vec![4, 5, 6]);
    assert_eq!(fcolumn, fm(3, 1, vec![vec![4], vec![5], vec![6]]));
}

#[test]
fn random_has_requested_shape() {
    let a = contiguous::Matrix::random(3, 4);
    assert_eq!(a.rows, 3);
    assert_eq!(a.cols, 4);
    assert_eq!(a.data.len(), 12);
    let fa = fragmented::Matrix::random(3, 4);
    assert_eq!(fa.rows, 3);
    assert_eq!(fa.cols, 4);
    assert_eq!(fa.data.len(), 3);
    for row in &fa.data {
        assert_eq!(row.len(), 4);
    }
}

#[test]
fn wraparound_arithmetic_is_total() {
    let a = cm(1, 1, vec![i64::MAX]);
    let b = cm(1, 1, vec![1]);
    assert_eq!(a.add(&b, 1).unwrap(), cm(1, 1, vec![i64::MIN]));
    assert_eq!(a.hadamard_product(&a).unwrap(), cm(1, 1, vec![1]));
}
