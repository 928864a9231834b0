use mt_runtime::mldump_tables::L2EngineKind;
use mt_runtime::sector_thc::{
    exchange_windows, require_sector_thc, ExchangeSpace, ExchangeWindow, RankRequest,
    SectorRecordShape, SectorSelectionShape, SectorThcError, SectorThcShape,
};
use mt_runtime::selection::SpinorSectorThcRankScaling;

/// Two transfers, two k-points, one valence and one core orbital: every
/// sector has two columns.
fn windows() -> Vec<ExchangeWindow> {
    exchange_windows(2, 1, 1)
}

fn record(q_index: usize) -> SectorRecordShape {
    SectorRecordShape {
        q_index,
        has_interpolation_points: true,
        frame_matches: true,
        n_mu: 3,
        aux_dimension: 3,
        n_points: 10,
        zeta_len: 30,
        windows: windows(),
        points_match: true,
        vertex_ok: vec![vec![true; 2]; 4],
        residuals_ok: true,
    }
}

fn fit() -> SectorThcShape {
    SectorThcShape {
        n_records: 2,
        records_match_grid: true,
        selection: SectorSelectionShape {
            strategy_all_q_l2: true,
            labels_canonical: true,
            windows: windows(),
            n_mu: 3,
            n_points: 3,
            n_pivots: 3,
            engine: L2EngineKind::FullPivotedCholesky,
            external_grid: Some((10, 5)),
        },
        effective_rank: 3,
        grid_points: 10,
        rank_scaling: SpinorSectorThcRankScaling {
            n_k: 2,
            n_valence: 1,
            n_core: 1,
            n_candidates: 5,
            effective_rank: 3,
            vv_columns_per_q: 2,
            cv_columns_per_q: 2,
            vc_columns_per_q: 2,
            cc_columns_per_q: 2,
            pooled_columns_per_q: 8,
            selector_rows: 16,
        },
        residuals_ok: true,
        records: vec![record(0), record(1)],
        requested_rank: RankRequest::Exact { n_mu: 3 },
    }
}

#[test]
fn exchange_windows_are_vv_cv_vc_cc() {
    let w = exchange_windows(4, 3, 2);
    assert_eq!(w.len(), 4);
    assert_eq!(
        w[1],
        ExchangeWindow {
            occupied_space: ExchangeSpace::Core,
            target_space: ExchangeSpace::Valence,
            n_k: 4,
            n_occupied: 2,
            n_target: 3,
        }
    );
    assert_eq!((w[2].n_occupied, w[2].n_target), (3, 2));
}

#[test]
fn sector_thc_accepts_a_consistent_fit() {
    assert_eq!(require_sector_thc(&fit(), 2, 2, 1, 1), Ok(()));
}

#[test]
fn sector_thc_checks_the_frame_before_the_records() {
    assert_eq!(require_sector_thc(&fit(), 3, 2, 1, 1), Err(SectorThcError::Records));
    let mut f = fit();
    f.selection.n_pivots = 2;
    assert_eq!(require_sector_thc(&f, 2, 2, 1, 1), Err(SectorThcError::Selection));
    let mut f = fit();
    f.selection.windows.swap(1, 2);
    assert_eq!(require_sector_thc(&f, 2, 2, 1, 1), Err(SectorThcError::Selection));
    let mut f = fit();
    f.selection.engine = L2EngineKind::Other;
    assert_eq!(require_sector_thc(&f, 2, 2, 1, 1), Err(SectorThcError::Engine));
    let mut f = fit();
    f.selection.external_grid = None;
    assert_eq!(require_sector_thc(&f, 2, 2, 1, 1), Err(SectorThcError::GridPath));
    let mut f = fit();
    f.rank_scaling.selector_rows = 17;
    assert_eq!(require_sector_thc(&f, 2, 2, 1, 1), Err(SectorThcError::RankScaling));
    let mut f = fit();
    f.residuals_ok = false;
    assert_eq!(require_sector_thc(&f, 2, 2, 1, 1), Err(SectorThcError::Residual));
}

#[test]
fn sector_thc_names_the_first_bad_record_and_vertex() {
    let mut f = fit();
    f.records[1].has_interpolation_points = false;
    assert_eq!(require_sector_thc(&f, 2, 2, 1, 1), Err(SectorThcError::Auxiliary { q_index: 1 }));
    let mut f = fit();
    f.records[1].zeta_len = 29;
    assert_eq!(require_sector_thc(&f, 2, 2, 1, 1), Err(SectorThcError::QRecord { q_index: 1 }));
    let mut f = fit();
    f.records[0].points_match = false;
    assert_eq!(
        require_sector_thc(&f, 2, 2, 1, 1),
        Err(SectorThcError::InterpolationPoints { q_index: 0 })
    );
    let mut f = fit();
    f.records[1].vertex_ok[2][1] = false;
    assert_eq!(
        require_sector_thc(&f, 2, 2, 1, 1),
        Err(SectorThcError::Vertex { q_index: 1, sector: 2, column: 1 })
    );
}

#[test]
fn sector_thc_checks_the_requested_rank_last() {
    let mut f = fit();
    f.requested_rank = RankRequest::Exact { n_mu: 4 };
    assert_eq!(require_sector_thc(&f, 2, 2, 1, 1), Err(SectorThcError::RequestedRank));
    f.requested_rank = RankRequest::Threshold { threshold_valid: true, n_max: 3 };
    assert_eq!(require_sector_thc(&f, 2, 2, 1, 1), Ok(()));
    f.requested_rank = RankRequest::Threshold { threshold_valid: true, n_max: 2 };
    assert_eq!(require_sector_thc(&f, 2, 2, 1, 1), Err(SectorThcError::RequestedRank));
    f.requested_rank = RankRequest::Threshold { threshold_valid: false, n_max: 9 };
    assert_eq!(require_sector_thc(&f, 2, 2, 1, 1), Err(SectorThcError::RequestedRank));
}
