use mt_runtime::mldump_tables::{
    grid_region_table, index_table, thc_engine_code, GridRegion, GridRegionTable, L2EngineKind,
    ThcEngineCode, ThcSelectionError,
};
use mt_runtime::mldump_tables::thc_vertex_table;
use mt_runtime::mldump_tables::{index_i64, index_i64_or_min, pauli_row_map};

#[test]
fn pauli_rows_are_spin_slow_plane_wave_fast() {
    let tables = pauli_row_map(3);
    assert_eq!(tables.n_row, 6);
    assert_eq!(tables.row_index, vec![0, 1, 2, 3, 4, 5]);
    assert_eq!(tables.pauli_component, vec![0, 0, 0, 1, 1, 1]);
    assert_eq!(tables.plane_wave_index, vec![0, 1, 2, 0, 1, 2]);
    let empty = pauli_row_map(0);
    assert_eq!(empty.n_row, 0);
    assert!(empty.row_index.is_empty());
}

#[test]
fn indices_convert_to_i64() {
    assert_eq!(index_i64(0), 0);
    assert_eq!(index_i64(12345), 12345);
    assert_eq!(index_i64_or_min(7), 7);
    assert_eq!(index_i64_or_min(usize::MAX), i64::MIN);
}

#[test]
fn thc_vertex_table_lists_columns_and_bloch_pairs() {
    let pairs = vec![Some((0usize, 1usize, 2usize)), Some((1, 0, 0))];
    let table = thc_vertex_table(&pairs).unwrap();
    assert_eq!(table.n_vertex, 2);
    assert_eq!(table.column, vec![0, 1]);
    assert_eq!(table.k_left_right, vec![0, 1, 2, 1, 0, 0]);
    assert_eq!(thc_vertex_table(&vec![Some((0, 0, 0)), None, None]), Err(1));
}

#[test]
fn thc_engine_codes_follow_strategy_then_engine() {
    assert_eq!(thc_engine_code(true, L2EngineKind::FullColumnPivotedQr), Ok(ThcEngineCode::Qrcp));
    assert_eq!(
        thc_engine_code(true, L2EngineKind::FullPivotedCholesky),
        Ok(ThcEngineCode::PivotedCholesky)
    );
    assert_eq!(thc_engine_code(true, L2EngineKind::Other), Err(ThcSelectionError::UnsupportedEngine));
    assert_eq!(
        thc_engine_code(false, L2EngineKind::Other),
        Err(ThcSelectionError::UnsupportedStrategy)
    );
}

#[test]
fn grid_region_table_marks_interstitial_points_with_the_sentinel() {
    let regions = vec![
        GridRegion::MuffinTin { site: 1, radial_index: 7 },
        GridRegion::Interstitial,
        GridRegion::MuffinTin { site: 0, radial_index: 0 },
    ];
    assert_eq!(
        grid_region_table(&regions, -1),
        GridRegionTable {
            muffin_tin: vec![true, false, true],
            site_index: vec![1, -1, 0],
            radial_index: vec![7, -1, 0],
        }
    );
    assert_eq!(index_table(&vec![4, 0, 9]), vec![4i64, 0, 9]);
}
