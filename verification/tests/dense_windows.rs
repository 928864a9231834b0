use mt_runtime::dense_windows::{
    flatten_eigenvectors, leading_bands, select_plane_wave_bands, select_site_bands,
    split_second_variation, DenseMatrix, InconsistentBandCount,
};
use num_complex::Complex64;

/// A 3 x 4 column-major matrix whose entry (r, c) is 10 r + c.
fn sample() -> DenseMatrix<i32> {
    let mut values = Vec::new();
    for c in 0..4 {
        for r in 0..3 {
            values.push(10 * r + c);
        }
    }
    DenseMatrix {
        rows: 3,
        columns: 4,
        values,
    }
}

#[test]
fn leading_bands_keeps_the_first_columns() {
    let window = leading_bands(&sample(), 2).unwrap();
    assert_eq!(window.rows, 3);
    assert_eq!(window.columns, 2);
    assert_eq!(window.values, vec![0, 10, 20, 1, 11, 21]);
}

#[test]
fn leading_bands_of_all_columns_is_the_matrix() {
    let window = leading_bands(&sample(), 4).unwrap();
    assert_eq!(window.values, sample().values);
}

#[test]
fn leading_bands_rejects_a_window_wider_than_the_solution() {
    assert_eq!(
        leading_bands(&sample(), 5).map(|w| w.values),
        Err(InconsistentBandCount)
    );
}

#[test]
fn band_selection_is_row_major_in_listed_order() {
    let out = select_plane_wave_bands(&sample(), 2, &vec![3, 0]);
    assert_eq!(out, vec![3, 0, 13, 10]);
    let all = select_site_bands(&sample(), &vec![1, 1]);
    assert_eq!(all, vec![1, 1, 11, 11, 21, 21]);
}

#[test]
fn flattened_eigenvectors_walk_rows_then_bands() {
    assert_eq!(
        flatten_eigenvectors(&sample(), 2),
        Ok(vec![0, 1, 10, 11, 20, 21])
    );
    assert_eq!(flatten_eigenvectors(&sample(), 5), Err(InconsistentBandCount));
}

#[test]
fn flattened_complex_eigenvectors_keep_each_amplitude() {
    let matrix = DenseMatrix {
        rows: 2,
        columns: 2,
        values: vec![
            Complex64::new(1.0, -1.0),
            Complex64::new(2.0, 0.5),
            Complex64::new(3.0, 0.0),
            Complex64::new(4.0, 4.0),
        ],
    };
    let out = flatten_eigenvectors(&matrix, 2).unwrap();
    assert_eq!(
        out,
        vec![
            Complex64::new(1.0, -1.0),
            Complex64::new(3.0, 0.0),
            Complex64::new(2.0, 0.5),
            Complex64::new(4.0, 4.0),
        ]
    );
}

#[test]
fn second_variation_splits_the_spin_rows() {
    // 4 x 2 matrix, entry (r, c) = 10 r + c.
    let matrix = DenseMatrix {
        rows: 4,
        columns: 2,
        values: vec![0, 10, 20, 30, 1, 11, 21, 31],
    };
    let (up, down) = split_second_variation(&matrix);
    assert_eq!((up.rows, up.columns), (2, 2));
    assert_eq!(up.values, vec![0, 10, 1, 11]);
    assert_eq!(down.values, vec![20, 30, 21, 31]);
}
