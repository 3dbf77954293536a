use rand::Rng;

use neural_network::matrix::Matrix;

#[test]
fn test_macro_matrix_square() {
    let matrix = Matrix::from(vec![vec![1, 2, 3], vec![4, 5, 6], vec![7, 8, 9]]);

    assert_eq!(matrix.rows, 3);
    assert_eq!(matrix.cols, 3);
    assert_eq!(matrix.data, vec![1, 2, 3, 4, 5, 6, 7, 8, 9])
}

#[test]
fn test_macro_matrix_rectangle() {
    let matrix = Matrix::from(vec![vec![1, 2, 3], vec![7, 8, 9]]);

    assert_eq!(matrix.rows, 2);
    assert_eq!(matrix.cols, 3);
    assert_eq!(matrix.data, vec![1, 2, 3, 7, 8, 9])
}

#[test]
fn test_random_matrix() {
    let mut rng = rand::thread_rng();
    for _ in 0..5 {
        let rows: usize = rng.gen_range(3..12);
        let cols: usize = rng.gen_range(3..12);
        let matrix = Matrix::random(rows, cols, 0, 1);

        assert_eq!(matrix.rows, rows);
        assert_eq!(matrix.cols, cols);
        assert_eq!(matrix.data.len(), rows * cols);

        for v in matrix.data {
            assert!(v >= 0 && v < 1);
        }
    }
}

#[test]
fn test_random_matrix_range() {
    let matrix = Matrix::random(4, 3, 5, 9);
    assert_eq!(matrix.rows, 4);
    assert_eq!(matrix.cols, 3);
    assert_eq!(matrix.data.len(), 12);
    for v in matrix.data {
        assert!(v >= 5 && v < 9);
    }
}

#[test]
fn test_add_matrix_row() {
    let matrix_a = Matrix::from(vec![vec![1, 2, 3]]);
    let matrix_b = Matrix::from(vec![vec![9, 8, 7]]);
    let matrix_total = matrix_a.add(&matrix_b);
    assert_eq!(matrix_total.rows, matrix_a.rows);
    assert_eq!(matrix_total.cols, matrix_b.cols);
    assert_eq!(matrix_total.data, vec![10, 10, 10]);
}

#[test]
fn test_add_matrix_multiple() {
    let matrix_a = Matrix::from(vec![vec![11, 22, 33], vec![44, 55, 66]]);
    let matrix_b = Matrix::from(vec![vec![9, 8, 7], vec![6, 5, 4]]);
    let matrix_total = matrix_a.add(&matrix_b);
    assert_eq!(matrix_total.rows, matrix_a.rows);
    assert_eq!(matrix_total.cols, matrix_b.cols);
    assert_eq!(matrix_total.data, vec![20, 30, 40, 50, 60, 70]);
}

#[test]
fn test_sub_matrix_row() {
    let matrix_a = Matrix::from(vec![vec![1, 2, 3]]);
    let matrix_b = Matrix::from(vec![vec![9, 8, 7]]);
    let matrix_total = matrix_a.sub(&matrix_b);
    assert_eq!(matrix_total.rows, matrix_a.rows);
    assert_eq!(matrix_total.cols, matrix_b.cols);
    assert_eq!(matrix_total.data, vec![-8, -6, -4]);
}

#[test]
fn test_dot_matrix() {
    let matrix_a = Matrix::from(vec![vec![1, 2], vec![3, 4]]);
    let matrix_b = Matrix::from(vec![vec![5, 6], vec![7, 8]]);
    let matrix_total = matrix_a.dot(&matrix_b);
    assert_eq!(matrix_total.rows, matrix_a.rows);
    assert_eq!(matrix_total.cols, matrix_b.cols);
    assert_eq!(matrix_total.data, vec![19, 22, 43, 50]);
}

#[test]
fn test_map_matrix() {
    let matrix = Matrix::from(vec![vec![1, 2], vec![3, 4]]);
    let matrix_total = matrix.map(|v| v * 2);
    assert_eq!(matrix_total.rows, matrix.rows);
    assert_eq!(matrix_total.cols, matrix.cols);
    assert_eq!(matrix_total.data, vec![2, 4, 6, 8]);
}

#[test]
fn test_eq_matrix() {
    let matrix_a = Matrix::from(vec![vec![1, 2], vec![3, 4]]);
    let matrix_b = Matrix::from(vec![vec![1, 2], vec![3, 4]]);
    assert!(matrix_a == matrix_b);
}

#[test]
fn test_ne_matrix() {
    let matrix_a = Matrix::from(vec![vec![1, 2], vec![3, 4]]);
    let matrix_b = Matrix::from(vec![vec![1, 2], vec![3, 5]]);
    assert!(matrix_a != matrix_b);
}

#[test]
fn test_display_matrix() {
    let matrix = Matrix::from(vec![vec![1, 2], vec![3, 4]]);
    let output = matrix.render();
    assert_eq!(output, "1 2 \n3 4 \n");
}

#[test]
fn test_display_matrix_negative() {
    let matrix = Matrix::from(vec![vec![-12, 0], vec![305, -4]]);
    let output = matrix.render();
    assert_eq!(output, "-12 0 \n305 -4 \n");
}

#[test]
fn test_from_vec_column() {
    let matrix = Matrix::from_vec(vec![4, 5, 6]);
    assert_eq!(matrix.rows, 3);
    assert_eq!(matrix.cols, 1);
    assert_eq!(matrix.get(1, 0), 5);
}

#[test]
fn test_get_element() {
    let matrix = Matrix::from(vec![vec![1, 2, 3], vec![4, 5, 6]]);
    assert_eq!(matrix.get(0, 0), 1);
    assert_eq!(matrix.get(0, 2), 3);
    assert_eq!(matrix.get(1, 1), 5);
}

#[test]
fn test_hadamard_matrix() {
    let matrix_a = Matrix::from(vec![vec![1, 2], vec![3, 4]]);
    let matrix_b = Matrix::from(vec![vec![5, 6], vec![7, 8]]);
    let matrix_total = matrix_a.hadamard(&matrix_b);
    assert_eq!(matrix_total.data, vec![5, 12, 21, 32]);
}

#[test]
fn test_scalar_mul_matrix() {
    let matrix = Matrix::from(vec![vec![1, -2], vec![3, 4]]);
    let matrix_total = matrix.mul(3);
    assert_eq!(matrix_total.data, vec![3, -6, 9, 12]);
}

#[test]
fn test_sum_matrix() {
    let matrix = Matrix::from(vec![vec![1, 2], vec![3, 4]]);
    assert_eq!(matrix.sum(), 10);
}

#[test]
fn test_transpose_matrix() {
    let matrix = Matrix::from(vec![vec![1, 2, 3], vec![4, 5, 6]]);
    let t = matrix.transpose();
    assert_eq!(t.rows, 3);
    assert_eq!(t.cols, 2);
    assert_eq!(t.data, vec![1, 4, 2, 5, 3, 6]);
}

#[test]
fn test_add_then_sub_restores() {
    let matrix_a = Matrix::from(vec![vec![3, -7, 11], vec![0, 25, -9]]);
    let matrix_b = Matrix::from(vec![vec![14, 2, -6], vec![8, -1, 40]]);
    let back = matrix_a.add(&matrix_b).sub(&matrix_b);
    assert!(back == matrix_a);
}

#[test]
fn test_add_then_sub_restores_on_wrap() {
    let matrix_a = Matrix::from(vec![vec![i64::MAX, -5]]);
    let matrix_b = Matrix::from(vec![vec![1, i64::MIN]]);
    let back = matrix_a.add(&matrix_b).sub(&matrix_b);
    assert!(back == matrix_a);
}

#[test]
fn test_transpose_twice_restores() {
    let matrix = Matrix::from(vec![vec![1, 2, 3], vec![4, 5, 6]]);
    let back = matrix.transpose().transpose();
    assert!(back == matrix);
}

#[test]
fn test_scale_commutes_with_dot() {
    let matrix_a = Matrix::from(vec![vec![1, 2], vec![3, 4]]);
    let matrix_b = Matrix::from(vec![vec![5, 6], vec![7, 8]]);
    let k = -3;
    let left = matrix_a.dot(&matrix_b).mul(k);
    let right = matrix_a.mul(k).dot(&matrix_b);
    assert!(left == right);
}

#[test]
fn test_add_wraps_on_overflow() {
    let matrix_a = Matrix::from(vec![vec![i64::MAX]]);
    let matrix_b = Matrix::from(vec![vec![1]]);
    let matrix_total = matrix_a.add(&matrix_b);
    assert_eq!(matrix_total.data, vec![i64::MIN]);
}
