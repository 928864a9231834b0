use mt_runtime::site_coords::{
    lm_from_index, lo_quantum_numbers, site_coordinate, ProductOrbitalKind, ScalarSiteShape,
    SCALAR_RADIAL_LO0, SCALAR_RADIAL_U, SCALAR_RADIAL_UDOT,
};

#[test]
fn lo_inverse_mapping_preserves_l_m_ordinal() {
    let layout = vec![1, 2];
    assert_eq!(lo_quantum_numbers(&layout, 0), Some((0, 0, 0)));
    assert_eq!(lo_quantum_numbers(&layout, 1), Some((1, -1, 0)));
    assert_eq!(lo_quantum_numbers(&layout, 2), Some((1, -1, 1)));
    assert_eq!(lo_quantum_numbers(&layout, 3), Some((1, 0, 0)));
    assert_eq!(lo_quantum_numbers(&layout, 6), Some((1, 1, 1)));
    assert_eq!(lo_quantum_numbers(&layout, 7), None);
}

#[test]
fn site_coordinate_maps_lo_after_apw_u_and_udot() {
    let shape = ScalarSiteShape {
        lm_count: 0,
        lo_counts_by_l: Some(vec![1, 1]),
    };
    let (id, m) = site_coordinate(&shape, 0, 1, 0).expect("LO row");
    assert_eq!(id.site, 0);
    assert_eq!(id.spin, 1);
    assert_eq!(id.l, 0);
    assert_eq!(id.n, SCALAR_RADIAL_LO0);
    assert_eq!(m, 0);
    let (id, m) = site_coordinate(&shape, 0, 1, 1).expect("p LO");
    assert_eq!(id.l, 1);
    assert_eq!(id.n, SCALAR_RADIAL_LO0);
    assert_eq!(m, -1);
}

#[test]
fn lm_index_splits_into_l_and_m() {
    let lm = lm_from_index(0);
    assert_eq!((lm.l, lm.m), (0, 0));
    let lm = lm_from_index(1);
    assert_eq!((lm.l, lm.m), (1, -1));
    let lm = lm_from_index(3);
    assert_eq!((lm.l, lm.m), (1, 1));
    let lm = lm_from_index(4);
    assert_eq!((lm.l, lm.m), (2, -2));
    let lm = lm_from_index(8);
    assert_eq!((lm.l, lm.m), (2, 2));
    let lm = lm_from_index(9);
    assert_eq!((lm.l, lm.m), (3, -3));
}

#[test]
fn apw_rows_interleave_u_and_udot_in_lm_order() {
    let shape = ScalarSiteShape {
        lm_count: 4,
        lo_counts_by_l: Some(vec![0, 1]),
    };
    let (id, m) = site_coordinate(&shape, 2, 0, 0).unwrap();
    assert_eq!((id.site, id.l, id.n, m), (2, 0, SCALAR_RADIAL_U, 0));
    assert_eq!(id.kind, ProductOrbitalKind::Valence);
    let (id, m) = site_coordinate(&shape, 2, 0, 1).unwrap();
    assert_eq!((id.l, id.n, m), (0, SCALAR_RADIAL_UDOT, 0));
    let (id, m) = site_coordinate(&shape, 2, 0, 7).unwrap();
    assert_eq!((id.l, id.n, m), (1, SCALAR_RADIAL_UDOT, 1));
    let (id, m) = site_coordinate(&shape, 2, 0, 8).unwrap();
    assert_eq!((id.l, id.n, m), (1, SCALAR_RADIAL_LO0, -1));
    let (id, m) = site_coordinate(&shape, 2, 0, 10).unwrap();
    assert_eq!((id.l, id.n, m), (1, SCALAR_RADIAL_LO0, 1));
    assert!(site_coordinate(&shape, 2, 0, 11).is_none());
}

#[test]
fn site_without_lo_layout_has_only_apw_rows() {
    let shape = ScalarSiteShape {
        lm_count: 1,
        lo_counts_by_l: None,
    };
    assert!(site_coordinate(&shape, 0, 0, 1).is_some());
    assert!(site_coordinate(&shape, 0, 0, 2).is_none());
}

#[test]
fn lo_layout_skips_empty_l_blocks() {
    let layout = vec![0, 0, 2];
    assert_eq!(lo_quantum_numbers(&layout, 0), Some((2, -2, 0)));
    assert_eq!(lo_quantum_numbers(&layout, 9), Some((2, 2, 1)));
    assert_eq!(lo_quantum_numbers(&layout, 10), None);
    assert_eq!(lo_quantum_numbers(&Vec::new(), 0), None);
}
