use matrix_engine::contiguous;
use matrix_engine::error::MatrixError;
use matrix_engine::fragmented;

fn cm(rows: usize, cols: usize, data: Vec<i64>) -> contiguous::Matrix {
    contiguous::Matrix::new(rows, cols, data).unwrap()
}

fn fm(rows: usize, cols: usize, data: Vec<Vec<i64>>) -> fragmented::Matrix {
    fragmented::Matrix::new(rows, cols, data).unwrap()
}

#[test]
fn concrete_product_all_variants() {
    let a = cm(2, 2, vec![1, 2, 3, 4]);
    let b = cm(2, 2, vec![5, 6, 7, 8]);
    let expected = cm(2, 2, vec![19, 22, 43, 50]);

    assert_eq!(a.multiply(&b, 1).unwrap(), expected);
    assert_eq!(a.multiply(&b, 2).unwrap(), expected);
    assert_eq!(a.multiply_strided(&b).unwrap(), expected);
    assert_eq!(a.multiply_parallel_strided(&b, 2).unwrap(), expected);
    assert_eq!(a.multiply_parallel_tiled(&b, 1, 2).unwrap(), expected);

    let fa = fm(2, 2, vec![vec![1, 2], vec![3, 4]]);
    let fb = fm(2, 2, vec![vec![5, 6], vec![7, 8]]);
    let fexpected = fm(2, 2, vec![vec![19, 22], vec![43, 50]]);
    assert_eq!(fa.multiply(&fb).unwrap(), fexpected);
}

#[test]
fn block_size_at_or_above_dimension_degenerates() {
    let a = cm(2, 3, vec![1, -2, 3, 4, 5, -6]);
    let b = cm(3, 2, vec![7, 8, -9, 10, 11, 12]);
    let at_dimension = a.multiply(&b, 3).unwrap();
    let above_dimension = a.multiply(&b, 64).unwrap();
    let single_block = a.multiply(&b, usize::MAX).unwrap();
    assert_eq!(above_dimension, at_dimension);
    assert_eq!(single_block, at_dimension);
    assert_eq!(a.multiply(&b, 1).unwrap(), at_dimension);
}

#[test]
fn variants_agree_on_rectangular_input() {
    let a = cm(3, 4, vec![1, 2, 3, 4, -5, 6, -7, 8, 9, 10, -11, 12]);
    let b = cm(4, 2, vec![2, -1, 0, 3, 5, 4, -2, 6]);
    let tiled = a.multiply(&b, 2).unwrap();
    let strided = a.multiply_strided(&b).unwrap();
    assert_eq!(tiled, strided);

    let fa = fm(
        3,
        4,
        vec![vec![1, 2, 3, 4], vec![-5, 6, -7, 8], vec![9, 10, -11, 12]],
    );
    let fb = fm(4, 2, vec![vec![2, -1], vec![0, 3], vec![5, 4], vec![-2, 6]]);
    let naive = fa.multiply(&fb).unwrap();
    assert_eq!(naive.rows, strided.rows);
    assert_eq!(naive.cols, strided.cols);
    for i in 0..naive.rows {
        for j in 0..naive.cols {
            assert_eq!(naive.data[i][j], strided.data[i * strided.cols + j]);
        }
    }
}

#[test]
fn parallel_worker_count_does_not_change_result() {
    let a = cm(4, 3, vec![3, 1, -4, 1, 5, 9, -2, 6, 5, 3, 5, -8]);
    let b = cm(3, 5, vec![1, 2, 3, 4, 5, -6, 7, 8, 9, 10, 11, -12, 13, 14, 15]);
    let sequential = a.multiply_strided(&b).unwrap();
    for workers in [1, 2, 8] {
        assert_eq!(a.multiply_parallel_strided(&b, workers).unwrap(), sequential);
    }
    let tiled = a.multiply(&b, 2).unwrap();
    assert_eq!(tiled, sequential);
    for workers in [1, 2, 8] {
        assert_eq!(a.multiply_parallel_tiled(&b, 2, workers).unwrap(), tiled);
    }
}

#[test]
fn dimension_mismatched_multiply_fails() {
    let a = cm(2, 3, vec![1, 2, 3, 4, 5, 6]);
    let b = cm(2, 2, vec![1, 2, 3, 4]);
    let expected = MatrixError::DimensionMismatch {
        left_rows: 2,
        left_cols: 3,
        right_rows: 2,
        right_cols: 2,
    };
    assert_eq!(a.multiply(&b, 2).unwrap_err(), expected);
    assert_eq!(a.multiply_strided(&b).unwrap_err(), expected);
    assert_eq!(a.multiply_parallel_strided(&b, 2).unwrap_err(), expected);
    assert_eq!(a.multiply_parallel_tiled(&b, 2, 2).unwrap_err(), expected);

    let fa = fm(2, 3, vec![vec![1, 2, 3], vec![4, 5, 6]]);
    let fb = fm(2, 2, vec![vec![1, 2], vec![3, 4]]);
    assert_eq!(fa.multiply(&fb).unwrap_err(), expected);
}

#[test]
fn zero_block_size_or_worker_count_is_invalid() {
    let a = cm(2, 2, vec![1, 2, 3, 4]);
    let b = cm(2, 2, vec![5, 6, 7, 8]);
    assert_eq!(
        a.multiply(&b, 0).unwrap_err(),
        MatrixError::InvalidConfiguration { value: 0 }
    );
    assert_eq!(
        a.multiply_parallel_strided(&b, 0).unwrap_err(),
        MatrixError::InvalidConfiguration { value: 0 }
    );
    assert_eq!(
        a.multiply_parallel_tiled(&b, 0, 2).unwrap_err(),
        MatrixError::InvalidConfiguration { value: 0 }
    );
    assert_eq!(
        a.multiply_parallel_tiled(&b, 2, 0).unwrap_err(),
        MatrixError::InvalidConfiguration { value: 0 }
    );
    assert_eq!(
        a.add(&b, 0).unwrap_err(),
        MatrixError::InvalidConfiguration { value: 0 }
    );
    assert_eq!(
        a.subtract(&b, 0).unwrap_err(),
        MatrixError::InvalidConfiguration { value: 0 }
    );
}

#[test]
fn zero_sized_dimension_yields_empty_result() {
    let a = cm(0, 3, vec![]);
    let b = cm(3, 0, vec![]);
    let product = a.multiply(&b, 4).unwrap();
    assert_eq!(product.rows, 0);
    assert_eq!(product.cols, 0);
    assert_eq!(product.data.len(), 0);

    let c = cm(2, 0, vec![]);
    let d = cm(0, 2, vec![]);
    let wide = c.multiply_strided(&d).unwrap();
    assert_eq!(wide.rows, 2);
    assert_eq!(wide.cols, 2);
    assert_eq!(wide.data, vec![0, 0, 0, 0]);
}

#[test]
fn row_range_kernels_match_full_product() {
    let a = cm(4, 2, vec![1, 2, 3, 4, 5, 6, 7, 8]);
    let b = cm(2, 3, vec![1, -1, 2, 0, 3, -2]);
    let full = a.multiply_strided(&b).unwrap();
    let band = a.multiply_strided_rows(&b, 1, 3);
    assert_eq!(band, full.data[3..9].to_vec());
    let tiled_band = a.multiply_tiled_rows(&b, 1, 3, 2);
    assert_eq!(tiled_band, full.data[3..9].to_vec());
}
