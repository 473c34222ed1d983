use mpi_labs::integration::{midpoint_bounds, monte_carlo_sample_count};

#[test]
fn sample_counts_round_robin() {
    assert_eq!(monte_carlo_sample_count(0, 3, 10), 4);
    assert_eq!(monte_carlo_sample_count(1, 3, 10), 3);
    assert_eq!(monte_carlo_sample_count(2, 3, 10), 3);
    assert_eq!(monte_carlo_sample_count(2, 4, 2), 0);
    assert_eq!(monte_carlo_sample_count(0, 1, 0), 0);
    assert_eq!(monte_carlo_sample_count(0, 2, -5), 0);
}

#[test]
fn sample_counts_match_step_by() {
    for size in 1..6 {
        for n in -3..30 {
            let mut total = 0;
            for rank in 0..size {
                let expected = (rank..n).step_by(size as usize).count() as i32;
                let c = monte_carlo_sample_count(rank, size, n);
                assert_eq!(c, expected);
                total += c;
            }
            assert_eq!(total, n.max(0));
        }
    }
}

#[test]
fn midpoint_bounds_split() {
    assert_eq!(midpoint_bounds(0, 3, 10), (0, 2));
    assert_eq!(midpoint_bounds(1, 3, 10), (3, 5));
    assert_eq!(midpoint_bounds(2, 3, 10), (6, 9));
    assert_eq!(midpoint_bounds(0, 4, 1), (0, -1));
    assert_eq!(midpoint_bounds(3, 4, 1), (0, 0));
}

#[test]
fn midpoint_bounds_partition_range() {
    for size in 1..7 {
        for n in 0..40 {
            let mut next = 0;
            for rank in 0..size {
                let (lb, ub) = midpoint_bounds(rank, size, n);
                assert_eq!(lb, next);
                assert!(lb <= ub + 1);
                next = ub + 1;
            }
            assert_eq!(next, n);
        }
    }
}
