use mt_runtime::column_order::{order_by_column, require_sector_coverage, CoverageError};

#[test]
fn records_are_placed_at_their_columns() {
    let records = vec![(2usize, true), (0, true), (1, true)];
    assert_eq!(order_by_column(3, &records), Some(vec![1, 2, 0]));
    assert_eq!(order_by_column(0, &Vec::new()), Some(Vec::new()));
}

#[test]
fn missing_repeated_foreign_or_mismatched_columns_are_rejected() {
    assert_eq!(order_by_column(3, &vec![(2, true), (0, true)]), None);
    assert_eq!(order_by_column(2, &vec![(1, true), (1, true)]), None);
    assert_eq!(order_by_column(2, &vec![(0, true), (2, true)]), None);
    assert_eq!(order_by_column(2, &vec![(0, true), (1, false)]), None);
}

#[test]
fn sector_comparison_covers_every_transfer_and_column_once() {
    let pairs = vec![(1usize, 0usize, true), (0, 1, true), (0, 0, true), (1, 1, true)];
    assert_eq!(require_sector_coverage(2, 2, &pairs), Ok(()));
    assert_eq!(require_sector_coverage(2, 3, &pairs), Err(CoverageError::Coverage));
    let repeated = vec![(0usize, 0usize, true), (0, 0, true), (1, 0, true), (1, 1, true)];
    assert_eq!(require_sector_coverage(2, 2, &repeated), Err(CoverageError::Pair));
    let mismatched = vec![(1usize, 0usize, true), (0, 1, false), (0, 0, true), (1, 1, true)];
    assert_eq!(require_sector_coverage(2, 2, &mismatched), Err(CoverageError::Pair));
}
