use parallel_matrix::{
    dot_product, make_task, multiply, run_task, worker_for, Matrix, MatrixError, Vector,
    POOL_SIZE,
};

fn product(a: &Matrix, b: &Matrix) -> Matrix {
    match multiply(a, b) {
        Ok(c) => c,
        Err(e) => panic!("multiply failed: {:?}", e),
    }
}

#[test]
fn test_multiply() {
    let a = Matrix::new(vec![1, 2, 3, 4, 5, 6], 2, 3);
    let b = Matrix::new(vec![1, 2, 3, 4, 5, 6], 3, 2);
    let c = a * b;
    assert_eq!(c.unwrap().debug_string(), "Matrix(row=2,col=2,{22 28, 49 64}");
}

#[test]
fn test_display() {
    let a = Matrix::new(vec![1, 2, 3, 4, 5, 6], 2, 3);
    assert_eq!(a.to_string(), "{1 2 3, 4 5 6}");
}

#[test]
#[should_panic]
fn test_multiply_option_and_panic() {
    let a = Matrix::new(vec![1, 2, 3, 4, 5, 6], 2, 3);
    let b = Matrix::new(vec![1, 2, 3, 4, 5, 6], 2, 3);
    let c = a * b;
    c.unwrap();
}

#[test]
fn two_by_three_times_three_by_two() {
    let a = Matrix::new(vec![1, 2, 3, 4, 5, 6], 2, 3);
    let b = Matrix::new(vec![1, 2, 3, 4, 5, 6], 3, 2);
    let c = product(&a, &b);
    assert_eq!(c.row_count(), 2);
    assert_eq!(c.col_count(), 2);
    assert_eq!(c.as_vec(), &vec![22, 28, 49, 64]);
    assert_eq!(c.to_string(), "{22 28, 49 64}");
}

#[test]
fn product_matches_brute_force() {
    let (m, k, n) = (3usize, 4usize, 5usize);
    let a_data: Vec<i64> = (0..(m * k) as i64).map(|x| x * 3 - 7).collect();
    let b_data: Vec<i64> = (0..(k * n) as i64).map(|x| 11 - x * 2).collect();
    let a = Matrix::new(a_data.clone(), m, k);
    let b = Matrix::new(b_data.clone(), k, n);
    let c = product(&a, &b);
    assert_eq!(c.row_count(), m);
    assert_eq!(c.col_count(), n);
    for i in 0..m {
        for j in 0..n {
            let mut sum = 0i64;
            for t in 0..k {
                sum += a_data[i * k + t] * b_data[t * n + j];
            }
            assert_eq!(c.as_vec()[i * n + j], sum);
        }
    }
}

#[test]
fn mismatched_shapes_fail() {
    let a = Matrix::new(vec![1, 2, 3, 4, 5, 6], 2, 3);
    let b = Matrix::new(vec![1, 2, 3, 4], 2, 2);
    assert!(matches!(multiply(&a, &b), Err(MatrixError::DimensionMismatch)));
}

#[test]
fn mismatched_degenerate_shapes_fail() {
    let a = Matrix::new(vec![], 0, 3);
    let b = Matrix::new(vec![], 0, 5);
    assert!(matches!(multiply(&a, &b), Err(MatrixError::DimensionMismatch)));
    let c = Matrix::new(vec![], 2, 0);
    let d = Matrix::new(vec![], 1, 0);
    assert!(matches!(multiply(&c, &d), Err(MatrixError::DimensionMismatch)));
}

#[test]
fn identity_on_the_right_changes_nothing() {
    let a = Matrix::new(vec![5, -1, 7, 2, 0, 9, -4, 8, 3], 3, 3);
    let id = Matrix::new(vec![1, 0, 0, 0, 1, 0, 0, 0, 1], 3, 3);
    let c = product(&a, &id);
    assert_eq!(c.row_count(), 3);
    assert_eq!(c.col_count(), 3);
    assert_eq!(c.as_vec(), a.as_vec());
}

#[test]
fn repeated_multiplication_is_identical() {
    let a = Matrix::new(vec![2, 7, -3, 1, 8, 4], 3, 2);
    let b = Matrix::new(vec![9, -2, 6, 5, 0, 1, 3, -7], 2, 4);
    let first = product(&a, &b);
    for _ in 0..5 {
        let again = product(&a, &b);
        assert_eq!(again.as_vec(), first.as_vec());
        assert_eq!(again.row_count(), first.row_count());
        assert_eq!(again.col_count(), first.col_count());
    }
}

#[test]
fn one_by_one_is_a_scalar_product() {
    let a = Matrix::new(vec![6], 1, 1);
    let b = Matrix::new(vec![-7], 1, 1);
    let c = product(&a, &b);
    assert_eq!(c.as_vec(), &vec![-42]);
    assert_eq!(c.to_string(), "{-42}");
}

#[test]
fn zero_rows_give_an_empty_matrix() {
    let a = Matrix::new(vec![], 0, 3);
    let b = Matrix::new(vec![1, 2, 3, 4, 5, 6], 3, 2);
    let c = product(&a, &b);
    assert_eq!(c.row_count(), 0);
    assert_eq!(c.col_count(), 2);
    assert!(c.as_vec().is_empty());
    assert_eq!(c.to_string(), "{}");
}

#[test]
fn zero_columns_give_an_empty_matrix() {
    let a = Matrix::new(vec![1, 2], 2, 1);
    let b = Matrix::new(vec![], 1, 0);
    let c = product(&a, &b);
    assert_eq!(c.row_count(), 2);
    assert_eq!(c.col_count(), 0);
    assert!(c.as_vec().is_empty());
}

#[test]
fn empty_inner_dimension_gives_zeros() {
    let a = Matrix::new(vec![], 2, 0);
    let b = Matrix::new(vec![], 0, 3);
    let c = product(&a, &b);
    assert_eq!(c.as_vec(), &vec![0; 6]);
}

#[test]
fn overflow_wraps_around() {
    let a = Matrix::new(vec![i64::MAX, 1], 1, 2);
    let b = Matrix::new(vec![1, 1], 2, 1);
    let c = product(&a, &b);
    assert_eq!(c.as_vec(), &vec![i64::MIN]);
}

#[test]
fn rendering_negative_and_extreme_values() {
    let a = Matrix::new(vec![-5, 0, i64::MIN, i64::MAX], 2, 2);
    assert_eq!(
        a.to_string(),
        "{-5 0, -9223372036854775808 9223372036854775807}"
    );
    assert_eq!(
        a.debug_string(),
        "Matrix(row=2,col=2,{-5 0, -9223372036854775808 9223372036854775807}"
    );
}

#[test]
fn rendering_rows_without_columns() {
    let a = Matrix::new(vec![], 3, 0);
    assert_eq!(a.to_string(), "{, , }");
    let b = Matrix::new(vec![], 0, 0);
    assert_eq!(b.to_string(), "{}");
}

#[test]
fn dot_product_of_equal_lengths() {
    let a = Vector::new(vec![1, 2, 3]);
    let b = Vector::new(vec![4, -5, 6]);
    assert_eq!(dot_product(a, b), Ok(12));
    assert_eq!(dot_product(Vector::new(vec![]), Vector::new(vec![])), Ok(0));
}

#[test]
fn dot_product_of_unequal_lengths_fails() {
    let a = Vector::new(vec![1, 2, 3]);
    let b = Vector::new(vec![4, 5]);
    assert_eq!(dot_product(a, b), Err(MatrixError::DimensionMismatch));
}

#[test]
fn tasks_gather_a_row_and_a_strided_column() {
    let a = Matrix::new(vec![1, 2, 3, 4, 5, 6], 2, 3);
    let b = Matrix::new(vec![1, 2, 3, 4, 5, 6], 3, 2);
    let task = make_task(&a, &b, 1, 1);
    assert_eq!(task.index, 3);
    assert_eq!(task.row.as_vec(), &vec![4, 5, 6]);
    assert_eq!(task.col.as_vec(), &vec![2, 4, 6]);
    let reply = run_task(task).ok().unwrap();
    assert_eq!(reply.index, 3);
    assert_eq!(reply.value, 64);
}

#[test]
fn mismatched_task_fails() {
    let task = parallel_matrix::Task {
        index: 0,
        row: Vector::new(vec![1, 2]),
        col: Vector::new(vec![1]),
    };
    assert!(matches!(run_task(task), Err(MatrixError::DimensionMismatch)));
}

#[test]
fn workers_are_assigned_round_robin() {
    assert_eq!(POOL_SIZE, 4);
    let assigned: Vec<usize> = (0..9).map(worker_for).collect();
    assert_eq!(assigned, vec![0, 1, 2, 3, 0, 1, 2, 3, 0]);
}
