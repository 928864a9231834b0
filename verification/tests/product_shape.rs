use mt_runtime::product_shape::{
    require_scalar_coulomb_slice, require_spinor_q_slice, validate_spinor_product_shape,
    QSliceEntry, ScalarSliceEntry, ScalarSliceError, SpinorKPointShape, SpinorProductShape,
    SpinorProductShapeError, SpinorQSliceError,
};
use mt_runtime::q_map::CanonicalQMapError;
use mt_runtime::selection::SpinorBandWindow;

fn k_point(rows: usize, columns: usize) -> SpinorKPointShape {
    SpinorKPointShape {
        eigenvector_rows: rows,
        eigenvector_columns: columns,
        basis_dimension: rows,
    }
}

fn two_k_points() -> SpinorProductShape {
    SpinorProductShape {
        source_valid: true,
        transfer_q_matches: true,
        n_k: 2,
        k_points: vec![k_point(40, 3), k_point(42, 3)],
        energy_counts: vec![3, 3],
        basis_count: 2,
        available_bands: vec![5, 3],
        k_minus_q: vec![(0, 1), (1, 0)],
        band_window: SpinorBandWindow { start: 0, count: 3 },
        pair_n_k: 2,
        pair_n_orb: 3,
    }
}

#[test]
fn spinor_product_shape_accepts_a_consistent_slice() {
    assert_eq!(validate_spinor_product_shape(&two_k_points()), Ok(()));
}

#[test]
fn spinor_product_shape_checks_source_and_transfer_first() {
    let mut shape = two_k_points();
    shape.n_k = 0;
    shape.transfer_q_matches = false;
    assert_eq!(
        validate_spinor_product_shape(&shape),
        Err(SpinorProductShapeError::TransferQMismatch)
    );
    shape.source_valid = false;
    assert_eq!(validate_spinor_product_shape(&shape), Err(SpinorProductShapeError::Source));
}

#[test]
fn spinor_product_shape_needs_one_entry_per_k_point() {
    let mut shape = two_k_points();
    shape.energy_counts.pop();
    assert_eq!(
        validate_spinor_product_shape(&shape),
        Err(SpinorProductShapeError::KSliceMismatch)
    );
    let mut shape = two_k_points();
    shape.pair_n_k = 3;
    assert_eq!(
        validate_spinor_product_shape(&shape),
        Err(SpinorProductShapeError::KSliceMismatch)
    );
}

#[test]
fn spinor_product_shape_checks_the_window() {
    let mut shape = two_k_points();
    shape.band_window.start = 1;
    assert_eq!(
        validate_spinor_product_shape(&shape),
        Err(SpinorProductShapeError::InconsistentBandCount)
    );
    let mut shape = two_k_points();
    shape.pair_n_orb = 0;
    shape.band_window.count = 0;
    assert_eq!(
        validate_spinor_product_shape(&shape),
        Err(SpinorProductShapeError::EmptyKPointSet)
    );
    let mut shape = two_k_points();
    shape.band_window.count = usize::MAX;
    shape.pair_n_orb = usize::MAX;
    assert_eq!(
        validate_spinor_product_shape(&shape),
        Err(SpinorProductShapeError::PairColumnOverflow)
    );
}

#[test]
fn spinor_product_shape_checks_each_k_point() {
    let mut shape = two_k_points();
    shape.k_points[1].basis_dimension = 41;
    assert_eq!(
        validate_spinor_product_shape(&shape),
        Err(SpinorProductShapeError::KSliceMismatch)
    );
    let mut shape = two_k_points();
    shape.available_bands[1] = 2;
    assert_eq!(
        validate_spinor_product_shape(&shape),
        Err(SpinorProductShapeError::KSliceMismatch)
    );
    let mut shape = two_k_points();
    shape.k_minus_q[1] = (1, 2);
    assert_eq!(
        validate_spinor_product_shape(&shape),
        Err(SpinorProductShapeError::KSliceMismatch)
    );
    let mut shape = two_k_points();
    shape.k_minus_q = vec![(1, 0), (0, 1)];
    assert_eq!(
        validate_spinor_product_shape(&shape),
        Err(SpinorProductShapeError::KSliceMismatch)
    );
}

fn entry(shape: SpinorProductShape) -> QSliceEntry {
    QSliceEntry {
        shape,
        same_frame_as_first: true,
        map_verdict: Ok(()),
    }
}

fn slice() -> Vec<QSliceEntry> {
    vec![entry(two_k_points()), entry(two_k_points())]
}

#[test]
fn q_slice_accepts_one_consistent_input_per_k_point() {
    assert_eq!(require_spinor_q_slice(&slice()), Ok(()));
}

#[test]
fn q_slice_rejects_empty_invalid_and_incomplete_slices() {
    assert_eq!(require_spinor_q_slice(&Vec::new()), Err(SpinorQSliceError::EmptySlice));
    let mut entries = slice();
    entries[0].shape.source_valid = false;
    assert_eq!(require_spinor_q_slice(&entries), Err(SpinorQSliceError::IncompatibleInputs));
    let mut entries = slice();
    entries.pop();
    assert_eq!(
        require_spinor_q_slice(&entries),
        Err(SpinorQSliceError::IncompleteQSlice { actual: 1, expected: 2 })
    );
}

#[test]
fn q_slice_rejects_a_later_input_with_another_frame() {
    let mut entries = slice();
    entries[1].same_frame_as_first = false;
    assert_eq!(require_spinor_q_slice(&entries), Err(SpinorQSliceError::IncompatibleInputs));
    let mut entries = slice();
    entries[1].shape.available_bands[0] = 1;
    assert_eq!(require_spinor_q_slice(&entries), Err(SpinorQSliceError::IncompatibleInputs));
}

#[test]
fn q_slice_names_the_transfer_of_a_failing_map() {
    let mut entries = slice();
    entries[1].map_verdict = Err(CanonicalQMapError::KMinusQWrap { k_index: 1 });
    assert_eq!(
        require_spinor_q_slice(&entries),
        Err(SpinorQSliceError::KMinusQWrap { q_index: 1, k_index: 1 })
    );
    entries[0].map_verdict = Err(CanonicalQMapError::CanonicalQMismatch);
    assert_eq!(
        require_spinor_q_slice(&entries),
        Err(SpinorQSliceError::CanonicalQMismatch { q_index: 0 })
    );
    entries[0].map_verdict = Err(CanonicalQMapError::NonFiniteQSlice);
    assert_eq!(require_spinor_q_slice(&entries), Err(SpinorQSliceError::NonFiniteQSlice));
    entries[0].map_verdict = Err(CanonicalQMapError::IncompatibleMap);
    assert_eq!(require_spinor_q_slice(&entries), Err(SpinorQSliceError::IncompatibleInputs));
}

fn scalar_entry(k_minus_q: Vec<(usize, usize)>) -> ScalarSliceEntry {
    ScalarSliceEntry {
        same_frame_as_first: true,
        k_minus_q,
    }
}

/// Two k-points, Gamma first: transfer 0 is Gamma (k -> k), transfer 1
/// swaps the two points.
fn scalar_slice() -> Vec<ScalarSliceEntry> {
    vec![scalar_entry(vec![(0, 0), (1, 1)]), scalar_entry(vec![(0, 1), (1, 0)])]
}

#[test]
fn scalar_coulomb_slice_accepts_the_transfer_of_each_k_point() {
    assert_eq!(require_scalar_coulomb_slice(&vec![true, false], &scalar_slice()), Ok(()));
}

#[test]
fn scalar_coulomb_slice_rejects_empty_and_short_slices() {
    assert_eq!(
        require_scalar_coulomb_slice(&vec![true, false], &Vec::new()),
        Err(ScalarSliceError::EmptySlice)
    );
    let mut entries = scalar_slice();
    entries.pop();
    assert_eq!(
        require_scalar_coulomb_slice(&vec![true, false], &entries),
        Err(ScalarSliceError::IncompleteQSlice { actual: 1, expected: 2 })
    );
}

#[test]
fn scalar_coulomb_slice_requires_each_input_to_be_its_transfer() {
    let entries = vec![scalar_entry(vec![(0, 0), (1, 1)]), scalar_entry(vec![(0, 0), (1, 1)])];
    assert_eq!(
        require_scalar_coulomb_slice(&vec![true, false], &entries),
        Err(ScalarSliceError::IncompleteQSlice { actual: 1, expected: 2 })
    );
    let entries = vec![scalar_entry(vec![(0, 0), (0, 1)]), scalar_entry(vec![(0, 1), (0, 0)])];
    assert_eq!(
        require_scalar_coulomb_slice(&vec![true, false], &entries),
        Err(ScalarSliceError::IncompatibleInputs)
    );
    let mut entries = scalar_slice();
    entries[1].same_frame_as_first = false;
    assert_eq!(
        require_scalar_coulomb_slice(&vec![true, false], &entries),
        Err(ScalarSliceError::IncompatibleInputs)
    );
}
