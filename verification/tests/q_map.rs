use mt_runtime::q_map::{
    regular_mesh_indices, validate_k_minus_q_map, CanonicalQMapError, MeshIndex, WrapCheck,
};

#[test]
fn complete_permutation_is_accepted() {
    let maps = vec![(0, 1), (1, 2), (2, 0)];
    let wraps = vec![WrapCheck::Consistent; 3];
    assert_eq!(validate_k_minus_q_map(3, &maps, &wraps), Ok(()));
}

#[test]
fn entries_are_checked_in_order() {
    let consistent = vec![WrapCheck::Consistent; 3];
    assert_eq!(
        validate_k_minus_q_map(3, &vec![(0, 1), (1, 1), (2, 0)], &consistent),
        Err(CanonicalQMapError::IncompatibleMap)
    );
    assert_eq!(
        validate_k_minus_q_map(3, &vec![(0, 1), (2, 2), (2, 0)], &consistent),
        Err(CanonicalQMapError::IncompatibleMap)
    );
    assert_eq!(
        validate_k_minus_q_map(3, &vec![(0, 1), (1, 3), (2, 0)], &consistent),
        Err(CanonicalQMapError::IncompatibleMap)
    );
    let wraps = vec![WrapCheck::Consistent, WrapCheck::Inconsistent, WrapCheck::NonFinite];
    assert_eq!(
        validate_k_minus_q_map(3, &vec![(0, 1), (1, 2), (2, 0)], &wraps),
        Err(CanonicalQMapError::KMinusQWrap { k_index: 1 })
    );
    let wraps = vec![WrapCheck::NonFinite, WrapCheck::Inconsistent, WrapCheck::Consistent];
    assert_eq!(
        validate_k_minus_q_map(3, &vec![(0, 1), (1, 2), (2, 0)], &wraps),
        Err(CanonicalQMapError::NonFiniteQSlice)
    );
}

#[test]
fn short_or_long_maps_are_incompatible() {
    let consistent = vec![WrapCheck::Consistent; 4];
    assert_eq!(
        validate_k_minus_q_map(3, &vec![(0, 1), (1, 0)], &consistent[..2].to_vec()),
        Err(CanonicalQMapError::IncompatibleMap)
    );
    assert_eq!(
        validate_k_minus_q_map(3, &vec![(0, 1), (1, 2), (2, 0), (3, 0)], &consistent),
        Err(CanonicalQMapError::IncompatibleMap)
    );
}

#[test]
fn regular_mesh_runs_first_axis_fastest() {
    let points = regular_mesh_indices(2, 3, 2).unwrap();
    assert_eq!(points.len(), 12);
    assert_eq!(points[0], MeshIndex { k1: 0, k2: 0, k3: 0 });
    assert_eq!(points[1], MeshIndex { k1: 1, k2: 0, k3: 0 });
    assert_eq!(points[2], MeshIndex { k1: 0, k2: 1, k3: 0 });
    assert_eq!(points[7], MeshIndex { k1: 1, k2: 0, k3: 1 });
    assert_eq!(points[11], MeshIndex { k1: 1, k2: 2, k3: 1 });
    assert!(regular_mesh_indices(usize::MAX, 2, 1).is_err());
    assert!(regular_mesh_indices(usize::MAX, 2, 0).is_err());
    assert_eq!(regular_mesh_indices(4, 0, 4).unwrap().len(), 0);
}
