use mt_runtime::selection::{
    exchange_columns, pair_column, require_rank_scaling, require_scalar_mpb_inputs,
    require_second_variation_mpb_inputs, scalar_band_window, second_variation_component_selections,
    selected_bands, selection_groups, require_spinor_compatible_layout, require_spinor_selection,
    SpinorInputShape, SpinorMpbError, SpinorMpbSelection,
    spinor_band_window, BandWindowError, RankScalingError, ScalarBandWindow, ScalarChannelShape,
    ScalarInputShape, ScalarMpbError, ScalarMpbSelection, SecondVariationMpbSelection,
    SpinorBandWindow, SpinorSectorThcRankScaling,
};

#[test]
fn band_window_keeps_the_smallest_count() {
    assert_eq!(
        spinor_band_window(&vec![5, 3, 4]),
        Ok(SpinorBandWindow { start: 0, count: 3 })
    );
    assert_eq!(spinor_band_window(&vec![]), Err(BandWindowError::EmptyKPointSet));
    assert_eq!(spinor_band_window(&vec![2, 0]), Err(BandWindowError::EmptyKPointSet));
    assert_eq!(
        scalar_band_window(&vec![6, 4], &vec![6, 4]),
        Ok(ScalarBandWindow { start: 0, count: 4 })
    );
    assert_eq!(
        scalar_band_window(&vec![6, 4, 3], &vec![6, 5, 2]),
        Err(BandWindowError::CollinearBandCount { up: 4, down: 5 })
    );
}

#[test]
fn pair_columns_are_k_major_then_left_then_right() {
    assert_eq!(pair_column(2, 3, 0, 0, 0), 0);
    assert_eq!(pair_column(2, 3, 0, 1, 2), 5);
    assert_eq!(pair_column(2, 3, 1, 2, 1), 16);
}

fn shape() -> ScalarInputShape {
    ScalarInputShape {
        n_k: 2,
        band_window: ScalarBandWindow { start: 0, count: 3 },
        pair_n_k: 2,
        pair_n_orb: 3,
        k_minus_q_len: 2,
        channels: vec![
            ScalarChannelShape { spin: 0, eigenvector_columns: vec![3, 3], basis_count: 2 },
            ScalarChannelShape { spin: 1, eigenvector_columns: vec![3, 3], basis_count: 2 },
        ],
        second_variation: false,
    }
}

fn sel(spin: u8, k: usize, left_band: usize, right_band: usize) -> ScalarMpbSelection {
    ScalarMpbSelection { spin, k, left_band, right_band }
}

#[test]
fn scalar_selections_are_checked_in_order() {
    assert_eq!(require_scalar_mpb_inputs(&shape(), &vec![]), Err(ScalarMpbError::EmptySelection));
    assert_eq!(require_scalar_mpb_inputs(&shape(), &vec![sel(0, 1, 2, 0), sel(1, 0, 0, 1)]), Ok(()));
    assert_eq!(
        require_scalar_mpb_inputs(&shape(), &vec![sel(0, 1, 2, 0), sel(2, 0, 0, 0), sel(0, 5, 0, 0)]),
        Err(ScalarMpbError::InvalidSelection { spin: 2, k: 0, left_band: 0, right_band: 0 })
    );
    assert_eq!(
        require_scalar_mpb_inputs(&shape(), &vec![sel(0, 0, 3, 0)]),
        Err(ScalarMpbError::InvalidSelection { spin: 0, k: 0, left_band: 3, right_band: 0 })
    );
    let mut broken = shape();
    broken.channels[1].eigenvector_columns[1] = 4;
    assert_eq!(
        require_scalar_mpb_inputs(&broken, &vec![sel(0, 0, 0, 0)]),
        Err(ScalarMpbError::IncompatiblePairLayout)
    );
}

#[test]
fn second_variation_checks_both_pauli_components() {
    let selections = vec![SecondVariationMpbSelection { k: 1, left_band: 0, right_band: 2 }];
    assert_eq!(
        require_second_variation_mpb_inputs(&shape(), &selections),
        Err(ScalarMpbError::RequiresSecondVariation)
    );
    let mut soc = shape();
    soc.second_variation = true;
    assert_eq!(require_second_variation_mpb_inputs(&soc, &selections), Ok(()));
    assert_eq!(require_second_variation_mpb_inputs(&soc, &vec![]), Err(ScalarMpbError::EmptySelection));
    soc.channels.pop();
    assert_eq!(
        require_second_variation_mpb_inputs(&soc, &selections),
        Err(ScalarMpbError::InvalidSelection { spin: 1, k: 1, left_band: 0, right_band: 2 })
    );
    assert_eq!(
        second_variation_component_selections(&selections),
        vec![sel(0, 1, 0, 2), sel(1, 1, 0, 2)]
    );
}

#[test]
fn rank_scaling_accounts_four_sectors() {
    let scaling = SpinorSectorThcRankScaling {
        n_k: 2,
        n_valence: 3,
        n_core: 1,
        n_candidates: 40,
        effective_rank: 12,
        vv_columns_per_q: 18,
        cv_columns_per_q: 6,
        vc_columns_per_q: 6,
        cc_columns_per_q: 2,
        pooled_columns_per_q: 32,
        selector_rows: 64,
    };
    assert_eq!(require_rank_scaling(&scaling, 2, 2, 3, 1, 12), Ok(()));
    assert_eq!(
        require_rank_scaling(&scaling, 3, 2, 3, 1, 12),
        Err(RankScalingError::RankScaling)
    );
    let mut few = scaling;
    few.n_candidates = 11;
    assert_eq!(require_rank_scaling(&few, 2, 2, 3, 1, 12), Err(RankScalingError::RankScaling));
    assert_eq!(exchange_columns(2, 3, 1), Some(6));
    assert_eq!(exchange_columns(usize::MAX, 2, 1), None);
    assert_eq!(exchange_columns(usize::MAX, 2, 0), Some(0));
}

#[test]
fn selected_bands_are_distinct_and_ascending_per_spin_and_k() {
    let sel = |spin: u8, k: usize, left_band: usize, right_band: usize| {
        ScalarMpbSelection { spin, k, left_band, right_band }
    };
    let selections = vec![
        sel(0, 1, 4, 2),
        sel(0, 1, 1, 2),
        sel(1, 1, 0, 7),
        sel(0, 0, 9, 9),
        sel(0, 1, 4, 0),
    ];
    assert_eq!(selected_bands(&selections, 0, 1, true), vec![1, 4]);
    assert_eq!(selected_bands(&selections, 0, 1, false), vec![0, 2]);
    assert_eq!(selected_bands(&selections, 1, 0, true), Vec::<usize>::new());
    assert_eq!(
        selection_groups(&selections),
        vec![(0u8, 0usize), (0, 1), (1, 1)]
    );
}

fn spinor_shape() -> SpinorInputShape {
    SpinorInputShape {
        n_k: 2,
        band_window: SpinorBandWindow { start: 0, count: 3 },
        pair_n_k: 2,
        pair_n_orb: 3,
        k_minus_q_len: 2,
        eigenvector_shapes: vec![(3, 10), (3, 12)],
        basis_dimensions: vec![10, 12],
    }
}

#[test]
fn spinor_layout_must_match_window_and_bases() {
    assert_eq!(require_spinor_compatible_layout(&spinor_shape()), Ok(()));
    let mut rows = spinor_shape();
    rows.eigenvector_shapes[1] = (3, 11);
    assert_eq!(require_spinor_compatible_layout(&rows), Err(SpinorMpbError::IncompatiblePairLayout));
    let mut shifted = spinor_shape();
    shifted.band_window.start = 1;
    assert_eq!(require_spinor_compatible_layout(&shifted), Err(SpinorMpbError::IncompatiblePairLayout));
}

#[test]
fn spinor_selection_must_name_window_bands() {
    let shape = spinor_shape();
    let ok = SpinorMpbSelection { k: 1, left_band: 2, right_band: 0 };
    assert_eq!(require_spinor_selection(&shape, ok), Ok(()));
    let bad = SpinorMpbSelection { k: 2, left_band: 0, right_band: 0 };
    assert_eq!(
        require_spinor_selection(&shape, bad),
        Err(SpinorMpbError::InvalidSelection { k: 2, left_band: 0, right_band: 0 })
    );
}
