use mt_runtime::coqui_map::{
    coqui_factor_dims, coqui_header_dims, coqui_k_minus_q_table, coqui_transfer_checks,
    max_factor_rank, CoquiFrameShape, CoquiHeaderDims, CoquiHeaderError, CoquiMapError,
    CoquiPreflightError, CoquiQShape,
};

fn q(map: &[(usize, usize)], columns: usize) -> CoquiQShape {
    CoquiQShape { k_minus_q: map.to_vec(), q_finite: true, vertex_ok: vec![true; columns] }
}

#[test]
fn maps_flatten_q_major() {
    let qs = vec![q(&[(0, 0), (1, 1)], 3), q(&[(0, 1), (1, 0)], 3)];
    assert_eq!(coqui_k_minus_q_table(2, 3, &qs), Ok(vec![0, 1, 1, 0]));
}

#[test]
fn short_or_disordered_maps_are_rejected() {
    let short = vec![q(&[(0, 0), (1, 1)], 1), q(&[(0, 1)], 1)];
    assert_eq!(
        coqui_k_minus_q_table(2, 1, &short),
        Err(CoquiMapError::KMap { q_index: 1, k_index: 0 })
    );
    let out_of_order = vec![q(&[(0, 0), (0, 1)], 1)];
    assert_eq!(
        coqui_k_minus_q_table(2, 1, &out_of_order),
        Err(CoquiMapError::KMap { q_index: 0, k_index: 1 })
    );
    let out_of_bounds = vec![q(&[(0, 2), (1, 0)], 1)];
    assert_eq!(
        coqui_k_minus_q_table(2, 1, &out_of_bounds),
        Err(CoquiMapError::KMap { q_index: 0, k_index: 0 })
    );
}

#[test]
fn non_finite_transfer_is_reported_before_its_map_entries() {
    let mut bad = q(&[(1, 0), (1, 1)], 1);
    bad.q_finite = false;
    assert_eq!(
        coqui_k_minus_q_table(2, 1, &vec![bad]),
        Err(CoquiMapError::NonFiniteBody { q_index: 0 })
    );
}

#[test]
fn vertex_columns_must_cover_the_layout_in_order() {
    let wrong_count = vec![q(&[(0, 0)], 2)];
    assert_eq!(
        coqui_k_minus_q_table(1, 3, &wrong_count),
        Err(CoquiMapError::VertexColumn { q_index: 0, column: 2 })
    );
    let mut bad_column = q(&[(0, 0)], 3);
    bad_column.vertex_ok[1] = false;
    bad_column.vertex_ok[2] = false;
    assert_eq!(
        coqui_k_minus_q_table(1, 3, &vec![q(&[(0, 0)], 3), bad_column]),
        Err(CoquiMapError::VertexColumn { q_index: 1, column: 1 })
    );
}

#[test]
fn header_dimensions_fit_i32_in_order() {
    assert_eq!(
        coqui_header_dims(4, 8, 2),
        Ok(CoquiHeaderDims { np: 4, nkpts: 8, nbnd: 2 })
    );
    assert_eq!(coqui_header_dims(0, 8, 2), Err(CoquiHeaderError::EmptyFactor));
    assert_eq!(coqui_header_dims(1 << 31, 1 << 31, 2), Err(CoquiHeaderError::Np));
    assert_eq!(coqui_header_dims(1, 1 << 31, 1 << 31), Err(CoquiHeaderError::NKpts));
    assert_eq!(coqui_header_dims(1, 1, 1 << 31), Err(CoquiHeaderError::NBnd));
}

#[test]
fn np_is_the_largest_factor_rank() {
    assert_eq!(max_factor_rank(&vec![3, 7, 2]), 7);
    assert_eq!(max_factor_rank(&Vec::new()), 0);
    assert_eq!(
        coqui_factor_dims(&vec![3, 7, 2], 2, 4),
        Ok(CoquiHeaderDims { np: 7, nkpts: 2, nbnd: 4 })
    );
    assert_eq!(coqui_factor_dims(&vec![0, 0], 2, 4), Err(CoquiHeaderError::EmptyFactor));
}

fn frame() -> CoquiFrameShape {
    CoquiFrameShape {
        strategy_all_q_l2: true,
        engine_full_pivoted: true,
        n_k: 2,
        n_band: 2,
        pair_n_k: 2,
        pair_n_orb: 2,
        k_points_finite: true,
    }
}

#[test]
fn transfer_checks_run_in_preflight_order() {
    let qs = vec![q(&[(0, 0), (1, 1)], 8), q(&[(0, 1), (1, 0)], 8)];
    assert_eq!(coqui_transfer_checks(&frame(), &qs), Ok((vec![0, 1, 1, 0], 8)));
    let mut f = frame();
    f.engine_full_pivoted = false;
    f.k_points_finite = false;
    assert_eq!(coqui_transfer_checks(&f, &qs), Err(CoquiPreflightError::UnsupportedEngine));
    f.strategy_all_q_l2 = false;
    assert_eq!(coqui_transfer_checks(&f, &qs), Err(CoquiPreflightError::UnsupportedStrategy));
    let mut f = frame();
    f.pair_n_orb = 3;
    assert_eq!(coqui_transfer_checks(&f, &qs), Err(CoquiPreflightError::IncompatibleInputs));
    let mut f = frame();
    f.n_band = usize::MAX;
    f.pair_n_orb = usize::MAX;
    assert_eq!(coqui_transfer_checks(&f, &qs), Err(CoquiPreflightError::PairColumnOverflow));
    let mut f = frame();
    f.k_points_finite = false;
    assert_eq!(coqui_transfer_checks(&f, &qs), Err(CoquiPreflightError::IncompatibleInputs));
    let short = vec![q(&[(0, 0), (1, 1)], 7)];
    assert_eq!(
        coqui_transfer_checks(&frame(), &short),
        Err(CoquiPreflightError::Transfer(CoquiMapError::VertexColumn { q_index: 0, column: 7 }))
    );
}
