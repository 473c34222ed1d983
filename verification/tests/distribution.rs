use mpi_labs::executor::{block_bounds, local_column_products};
use mpi_labs::Executor;

#[test]
fn executor_reports_size_and_rank() {
    let e = Executor::new(4, 3);
    assert_eq!(e.size(), 4);
    assert_eq!(e.rank(), 3);
}

#[test]
fn distribution_even_split() {
    let e = Executor::new(4, 0);
    assert_eq!(e.get_distribution(8, 3), vec![6, 6, 6, 6]);
}

#[test]
fn distribution_left_over_rows_go_to_last() {
    let e = Executor::new(4, 1);
    assert_eq!(e.get_distribution(10, 3), vec![6, 6, 6, 12]);
}

#[test]
fn distribution_fewer_rows_than_processes() {
    let e = Executor::new(4, 2);
    assert_eq!(e.get_distribution(3, 5), vec![0, 0, 0, 15]);
}

#[test]
fn distribution_single_process() {
    let e = Executor::new(1, 0);
    assert_eq!(e.get_distribution(7, 2), vec![14]);
}

#[test]
fn distribution_sums_to_matrix_size() {
    for size in 1..7 {
        let e = Executor::new(size, 0);
        for rows in 0..20usize {
            for columns in 0..5usize {
                let d = e.get_distribution(rows, columns);
                let total: i64 = d.iter().map(|&x| x as i64).sum();
                assert_eq!(total, (rows * columns) as i64);
                assert_eq!(d.len(), size as usize);
            }
        }
    }
}

#[test]
fn blocks_of_distribution() {
    let counts = vec![6, 6, 6, 12];
    assert_eq!(block_bounds(&counts, 0), (0, 6));
    assert_eq!(block_bounds(&counts, 1), (6, 12));
    assert_eq!(block_bounds(&counts, 3), (6, 12));
}

#[test]
fn blocks_stay_inside_matrix() {
    for size in 1..6 {
        let e = Executor::new(size, 0);
        for rows in 0..15usize {
            let counts = e.get_distribution(rows, 3);
            for rank in 0..size as usize {
                let (start, end) = block_bounds(&counts, rank);
                assert!(start <= end && end <= rows * 3);
            }
        }
    }
}

#[test]
fn column_products_of_block() {
    let matrix = vec![1, 2, 3, 4, 5, 6];
    let vector = vec![1, 10, 100];
    assert_eq!(local_column_products(&matrix, &vector, 3), vec![5, 70, 900]);
}

#[test]
fn column_products_of_partial_row() {
    let matrix = vec![1, 2, 3, 4];
    let vector = vec![2, 3, 4];
    assert_eq!(local_column_products(&matrix, &vector, 3), vec![2 + 8, 6, 12]);
}

#[test]
fn column_products_of_empty_block() {
    let matrix: Vec<i64> = Vec::new();
    let vector = vec![0, 0];
    assert_eq!(local_column_products(&matrix, &vector, 2), vec![0, 0]);
}

#[test]
fn column_products_negative_entries() {
    let matrix = vec![-1, 2, -3, 4];
    let vector = vec![5, -6];
    assert_eq!(local_column_products(&matrix, &vector, 2), vec![-20, -36]);
}

#[test]
fn test_data_fixed_on_root() {
    let (m, v) = Executor::generate_test_data(2, 3, false, 0);
    assert_eq!(m, vec![1; 6]);
    assert_eq!(v, vec![2; 3]);
}

#[test]
fn test_data_on_other_ranks() {
    let (m, v) = Executor::generate_test_data(2, 3, true, 1);
    assert!(m.is_empty());
    assert_eq!(v, vec![0; 3]);
}

#[test]
fn test_data_random_on_root() {
    let (m, v) = Executor::generate_test_data(4, 5, true, 0);
    assert_eq!(m.len(), 20);
    assert_eq!(v.len(), 5);
}

#[test]
fn test_data_other_rank_any_size() {
    let (m, v) = Executor::generate_test_data(usize::MAX, 2, false, 3);
    assert!(m.is_empty());
    assert_eq!(v, vec![0; 2]);
}

#[test]
fn distribution_of_empty_rows_with_wide_columns() {
    let e = Executor::new(1, 0);
    assert_eq!(e.get_distribution(0, 1usize << 31), vec![0]);
}

#[test]
fn distribution_of_zero_columns_with_many_rows() {
    let e = Executor::new(3, 0);
    assert_eq!(e.get_distribution(1usize << 32, 0), vec![0, 0, 0]);
}

#[test]
fn blocks_cover_two_shares_only() {
    let e = Executor::new(3, 0);
    let counts = e.get_distribution(7, 2);
    assert_eq!(counts, vec![4, 4, 6]);
    assert_eq!(block_bounds(&counts, 0), (0, 4));
    assert_eq!(block_bounds(&counts, 1), (4, 8));
    assert_eq!(block_bounds(&counts, 2), (4, 8));
}
