use mpi_labs::matrix::{filled, generate_test_matrix_data, vec_to_matrix};
use mpi_labs::Matrix;

#[test]
fn vec_to_matrix_cuts_rows() {
    let m = vec_to_matrix(vec![1, 2, 3, 4, 5, 6], 2, 3);
    assert_eq!(m, vec![vec![1, 2, 3], vec![4, 5, 6]]);
}

#[test]
fn vec_to_matrix_ignores_tail() {
    let m = vec_to_matrix(vec![1, 2, 3, 4, 5, 6, 7], 3, 2);
    assert_eq!(m, vec![vec![1, 2], vec![3, 4], vec![5, 6]]);
}

#[test]
fn vec_to_matrix_round_trip() {
    let v: Vec<u8> = (0..24).collect();
    for rows in 0..5usize {
        for columns in 0..5usize {
            let m = vec_to_matrix(v.clone(), rows, columns);
            let flat: Vec<u8> = m.concat();
            assert_eq!(flat, v[..rows * columns].to_vec());
        }
    }
}

#[test]
fn vec_to_matrix_zero_columns() {
    let m: Vec<Vec<i32>> = vec_to_matrix(Vec::new(), 3, 0);
    assert_eq!(m, vec![Vec::<i32>::new(); 3]);
}

#[test]
fn matrix_holds_rows() {
    let m = Matrix(vec_to_matrix(vec![1.5f32, 2.5], 1, 2));
    assert_eq!(m.0, vec![vec![1.5f32, 2.5]]);
}

#[test]
fn filled_repeats_value() {
    assert_eq!(filled(4, 7u8), vec![7, 7, 7, 7]);
    assert!(filled(0, 7u8).is_empty());
}

#[test]
fn matrix_test_data_fixed_on_root() {
    let (a, b) = generate_test_matrix_data(2, 3, false, 0);
    assert_eq!(a, vec![1; 6]);
    assert_eq!(b, vec![2; 6]);
}

#[test]
fn matrix_test_data_random_on_root() {
    let (a, b) = generate_test_matrix_data(3, 4, true, 0);
    assert_eq!(a.len(), 12);
    assert_eq!(b.len(), 12);
}

#[test]
fn matrix_test_data_other_rank() {
    let (a, b) = generate_test_matrix_data(3, 4, false, 2);
    assert!(a.is_empty());
    assert_eq!(b, vec![0; 4]);
}

#[test]
fn matrix_test_data_other_rank_any_size() {
    let (a, b) = generate_test_matrix_data(usize::MAX, 3, true, 1);
    assert!(a.is_empty());
    assert_eq!(b, vec![0; 3]);
}
