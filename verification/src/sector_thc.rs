//! Integer admission of a four-sector spinor THC fit for the MLDUMP v2
//! exchange block: record count, selection provenance and pair-column
//! windows, engine, parent-grid path, rank accounting, per-transfer record
//! shapes and vertices, and the requested rank.
//!
//! Equalities between outside-typed values (transfers, partitions,
//! interpolation points, decoded pairs) and the floating-point residual and
//! threshold checks are decided by the caller and enter as verdicts.
use vstd::prelude::*;
use crate::mldump_tables::L2EngineKind;
use crate::selection::{
    SpinorSectorThcRankScaling, RankScalingError, rank_scaling_consistent, require_rank_scaling,
    sector_columns,
};

verus! {

/// Which orbitals a sector's occupied or target index runs over.
#[derive(Clone, Copy, Debug, PartialEq, Eq, Structural)]
pub enum ExchangeSpace {
    Valence,
    Core,
}

/// The pair-column window of one exchange sector.
#[derive(Clone, Copy, Debug, PartialEq, Eq, Structural)]
pub struct ExchangeWindow {
    pub occupied_space: ExchangeSpace,
    pub target_space: ExchangeSpace,
    pub n_k: usize,
    pub n_occupied: usize,
    pub n_target: usize,
}

/// The four windows VV, CV, VC, CC of a frame with `n_k` k-points,
/// `n_valence` valence and `n_core` core orbitals.
pub open spec fn expected_windows(n_k: usize, n_valence: usize, n_core: usize) -> Seq<ExchangeWindow> {
    seq![
        ExchangeWindow { occupied_space: ExchangeSpace::Valence, target_space: ExchangeSpace::Valence, n_k, n_occupied: n_valence, n_target: n_valence },
        ExchangeWindow { occupied_space: ExchangeSpace::Core, target_space: ExchangeSpace::Valence, n_k, n_occupied: n_core, n_target: n_valence },
        ExchangeWindow { occupied_space: ExchangeSpace::Valence, target_space: ExchangeSpace::Core, n_k, n_occupied: n_valence, n_target: n_core },
        ExchangeWindow { occupied_space: ExchangeSpace::Core, target_space: ExchangeSpace::Core, n_k, n_occupied: n_core, n_target: n_core },
    ]
}

/// The four exchange windows of a frame, in the order VV, CV, VC, CC.
pub fn exchange_windows(n_k: usize, n_valence: usize, n_core: usize) -> (w: Vec<ExchangeWindow>)
    ensures
        w@ == expected_windows(n_k, n_valence, n_core),
{
    let w = vec![
        ExchangeWindow { occupied_space: ExchangeSpace::Valence, target_space: ExchangeSpace::Valence, n_k, n_occupied: n_valence, n_target: n_valence },
        ExchangeWindow { occupied_space: ExchangeSpace::Core, target_space: ExchangeSpace::Valence, n_k, n_occupied: n_core, n_target: n_valence },
        ExchangeWindow { occupied_space: ExchangeSpace::Valence, target_space: ExchangeSpace::Core, n_k, n_occupied: n_valence, n_target: n_core },
        ExchangeWindow { occupied_space: ExchangeSpace::Core, target_space: ExchangeSpace::Core, n_k, n_occupied: n_core, n_target: n_core },
    ];
    assert(w@ =~= expected_windows(n_k, n_valence, n_core));
    w
}

/// What the admission reads of the fit's point selection.
#[derive(Debug)]
pub struct SectorSelectionShape {
    /// The selector is the all-q L2 strategy.
    pub strategy_all_q_l2: bool,
    /// The q set, weights and row order are the pooled four-sector labels.
    pub labels_canonical: bool,
    /// The pair-column windows the selection was made over.
    pub windows: Vec<ExchangeWindow>,
    /// Selected rank, points and pivots.
    pub n_mu: usize,
    pub n_points: usize,
    pub n_pivots: usize,
    pub engine: L2EngineKind,
    /// An external parent-grid path `(n_points, n_candidates)`, if that is
    /// the grid path.
    pub external_grid: Option<(usize, usize)>,
}

/// What the admission reads of one transfer record.
#[derive(Debug)]
pub struct SectorRecordShape {
    pub q_index: usize,
    /// The auxiliary layout yields interpolation points.
    pub has_interpolation_points: bool,
    /// Transfer, auxiliary transfer and partition agree with the input.
    pub frame_matches: bool,
    pub n_mu: usize,
    pub aux_dimension: usize,
    pub n_points: usize,
    pub zeta_len: usize,
    /// The four sector windows of the record.
    pub windows: Vec<ExchangeWindow>,
    /// The record's interpolation points are the selection's.
    pub points_match: bool,
    /// Per sector, per vertex: its pair is the one the window decodes at
    /// its column, its layout is the auxiliary one, and it has one
    /// coefficient per auxiliary function.
    pub vertex_ok: Vec<Vec<bool>>,
    /// The record's weighted residuals are finite and nonnegative.
    pub residuals_ok: bool,
}

/// The rank the fit was asked for.
#[derive(Clone, Copy, Debug, PartialEq, Eq, Structural)]
pub enum RankRequest {
    Exact { n_mu: usize },
    /// `threshold_valid`: the threshold is finite and positive.
    Threshold { threshold_valid: bool, n_max: usize },
}

/// What the admission reads of a four-sector fit.
#[derive(Debug)]
pub struct SectorThcShape {
    pub n_records: usize,
    pub records_match_grid: bool,
    pub selection: SectorSelectionShape,
    pub effective_rank: usize,
    pub grid_points: usize,
    pub rank_scaling: SpinorSectorThcRankScaling,
    /// The fit's pooled residuals are finite and nonnegative.
    pub residuals_ok: bool,
    pub records: Vec<SectorRecordShape>,
    pub requested_rank: RankRequest,
}

/// Rejections of a four-sector fit, in the order they are checked.
#[derive(Clone, Copy, Debug, PartialEq, Eq, Structural)]
pub enum SectorThcError {
    Records,
    Selection,
    Engine,
    GridPath,
    Layouts,
    RankScaling,
    Residual,
    Auxiliary { q_index: usize },
    QRecord { q_index: usize },
    InterpolationPoints { q_index: usize },
    Vertex { q_index: usize, sector: usize, column: usize },
    RequestedRank,
}

/// The column counts of the four windows of a frame.
pub open spec fn window_columns(n_k: int, n_valence: int, n_core: int) -> Seq<int> {
    seq![
        sector_columns(n_k, n_valence, n_valence),
        sector_columns(n_k, n_core, n_valence),
        sector_columns(n_k, n_valence, n_core),
        sector_columns(n_k, n_core, n_core),
    ]
}

/// The first vertex of sector `sector` of a record that is not right, if any.
pub open spec fn first_bad_vertex(ok: Seq<bool>, from: int) -> Option<int>
    decreases ok.len() - from,
{
    if from < 0 || from >= ok.len() {
        None
    } else if !ok[from] {
        Some(from)
    } else {
        first_bad_vertex(ok, from + 1)
    }
}

/// The first vertex rejection among sectors `from..4` of a record.
pub open spec fn first_sector_rejection(r: SectorRecordShape, q_index: int, from: int) -> Option<SectorThcError>
    decreases 4 - from,
{
    if from < 0 || from >= 4 {
        None
    } else {
        match first_bad_vertex(r.vertex_ok@[from]@, 0) {
            Some(c) => Some(SectorThcError::Vertex { q_index: q_index as usize, sector: from as usize, column: c as usize }),
            None => first_sector_rejection(r, q_index, from + 1),
        }
    }
}

/// Record `q_index` has the frame's index, transfer, rank, grid, windows
/// and one vertex per window column.
pub open spec fn record_shape_ok(s: SectorThcShape, windows: Seq<ExchangeWindow>, columns: Seq<int>, q_index: int, r: SectorRecordShape) -> bool {
    &&& r.q_index == q_index
    &&& r.frame_matches
    &&& r.n_mu == s.effective_rank
    &&& r.n_mu == r.aux_dimension
    &&& r.n_points == s.grid_points
    &&& r.zeta_len == r.n_points * r.n_mu
    &&& r.windows@ == windows
    &&& r.vertex_ok.len() == 4
    &&& forall|j: int| 0 <= j < 4 ==> #[trigger] r.vertex_ok@[j].len() == columns[j]
}

/// The rejection transfer record `q_index` draws, if any.
pub open spec fn record_rejection(s: SectorThcShape, windows: Seq<ExchangeWindow>, columns: Seq<int>, q_index: int, r: SectorRecordShape) -> Option<SectorThcError> {
    if !r.has_interpolation_points {
        Some(SectorThcError::Auxiliary { q_index: q_index as usize })
    } else if !record_shape_ok(s, windows, columns, q_index, r) {
        Some(SectorThcError::QRecord { q_index: q_index as usize })
    } else if !r.points_match {
        Some(SectorThcError::InterpolationPoints { q_index: q_index as usize })
    } else if first_sector_rejection(r, q_index, 0) is Some {
        first_sector_rejection(r, q_index, 0)
    } else if !r.residuals_ok {
        Some(SectorThcError::Residual)
    } else {
        None
    }
}

/// The first rejection among records `from..`.
pub open spec fn first_record_rejection(s: SectorThcShape, windows: Seq<ExchangeWindow>, columns: Seq<int>, from: int) -> Option<SectorThcError>
    decreases s.records.len() - from,
{
    if from < 0 || from >= s.records.len() {
        None
    } else if record_rejection(s, windows, columns, from, s.records@[from]) is Some {
        record_rejection(s, windows, columns, from, s.records@[from])
    } else {
        first_record_rejection(s, windows, columns, from + 1)
    }
}

/// The requested rank agrees with the effective rank.
pub open spec fn requested_rank_ok(request: RankRequest, effective_rank: usize) -> bool {
    match request {
        RankRequest::Exact { n_mu } => n_mu == effective_rank,
        RankRequest::Threshold { threshold_valid, n_max } => threshold_valid && effective_rank != 0 && effective_rank <= n_max,
    }
}

/// The verdict on a four-sector fit over `n_q` transfers, `n_k`
/// k-points, `n_valence` valence and `n_core` core orbitals.
pub open spec fn sector_thc_verdict(s: SectorThcShape, n_q: int, n_k: usize, n_valence: usize, n_core: usize) -> Result<(), SectorThcError> {
    let windows = expected_windows(n_k, n_valence, n_core);
    let columns = window_columns(n_k as int, n_valence as int, n_core as int);
    let sel = s.selection;
    if s.n_records != n_q || !s.records_match_grid {
        Err(SectorThcError::Records)
    } else if !sel.strategy_all_q_l2 || !sel.labels_canonical || sel.windows@ != windows
        || sel.n_mu != s.effective_rank || sel.n_points != s.effective_rank || sel.n_pivots != s.effective_rank {
        Err(SectorThcError::Selection)
    } else if sel.engine == L2EngineKind::Other {
        Err(SectorThcError::Engine)
    } else if !(sel.external_grid matches Some((p, c)) && p == s.grid_points && c == s.rank_scaling.n_candidates) {
        Err(SectorThcError::GridPath)
    } else if exists|j: int| 0 <= j < 4 && #[trigger] columns[j] > usize::MAX {
        Err(SectorThcError::Layouts)
    } else if !rank_scaling_consistent(s.rank_scaling, n_q, n_k as int, n_valence as int, n_core as int, s.effective_rank as int) {
        Err(SectorThcError::RankScaling)
    } else if !s.residuals_ok {
        Err(SectorThcError::Residual)
    } else {
        match first_record_rejection(s, windows, columns, 0) {
            Some(e) => Err(e),
            None => if requested_rank_ok(s.requested_rank, s.effective_rank) {
                Ok(())
            } else {
                Err(SectorThcError::RequestedRank)
            },
        }
    }
}

fn same_windows(a: &Vec<ExchangeWindow>, b: &Vec<ExchangeWindow>) -> (r: bool)
    ensures
        r == (a@ == b@),
{
    if a.len() != b.len() {
        return false;
    }
    let mut i: usize = 0;
    while i < a.len()
        invariant
            a.len() == b.len(),
            i <= a.len(),
            forall|j: int| 0 <= j < i ==> a@[j] == b@[j],
        decreases a.len() - i,
    {
        if a[i] != b[i] {
            return false;
        }
        i = i + 1;
    }
    assert(a@ =~= b@);
    true
}

fn find_bad_vertex(ok: &Vec<bool>) -> (r: Option<usize>)
    ensures
        match r {
            Some(c) => first_bad_vertex(ok@, 0) == Some(c as int),
            None => first_bad_vertex(ok@, 0) is None,
        },
{
    let mut c: usize = 0;
    while c < ok.len()
        invariant
            c <= ok.len(),
            first_bad_vertex(ok@, 0) == first_bad_vertex(ok@, c as int),
        decreases ok.len() - c,
    {
        if !ok[c] {
            return Some(c);
        }
        c = c + 1;
    }
    None
}

fn check_record(s: &SectorThcShape, windows: &Vec<ExchangeWindow>, columns: &Vec<usize>, q_index: usize, r: &SectorRecordShape) -> (e: Option<SectorThcError>)
    requires
        columns.len() == 4,
    ensures
        e == record_rejection(*s, windows@, columns@.map_values(|c: usize| c as int), q_index as int, *r),
{
    let ghost cols = columns@.map_values(|c: usize| c as int);
    if !r.has_interpolation_points {
        return Some(SectorThcError::Auxiliary { q_index });
    }
    let zeta_ok = match r.n_points.checked_mul(r.n_mu) {
        Some(z) => r.zeta_len == z,
        None => false,
    };
    let mut counts_ok = r.vertex_ok.len() == 4;
    if counts_ok {
        let mut j: usize = 0;
        while j < 4
            invariant
                r.vertex_ok.len() == 4,
                columns.len() == 4,
                cols == columns@.map_values(|c: usize| c as int),
                j <= 4,
                counts_ok <==> forall|j2: int| 0 <= j2 < j ==> #[trigger] r.vertex_ok@[j2].len() == cols[j2],
            decreases 4 - j,
        {
            if r.vertex_ok[j].len() != columns[j] {
                counts_ok = false;
            }
            j = j + 1;
        }
    }
    if r.q_index != q_index || !r.frame_matches || r.n_mu != s.effective_rank || r.n_mu != r.aux_dimension
        || r.n_points != s.grid_points || !zeta_ok || !same_windows(&r.windows, windows) || !counts_ok {
        return Some(SectorThcError::QRecord { q_index });
    }
    if !r.points_match {
        return Some(SectorThcError::InterpolationPoints { q_index });
    }
    let mut sector: usize = 0;
    while sector < 4
        invariant
            r.vertex_ok.len() == 4,
            sector <= 4,
            first_sector_rejection(*r, q_index as int, 0) == first_sector_rejection(*r, q_index as int, sector as int),
            r.has_interpolation_points && r.points_match,
            cols == columns@.map_values(|c: usize| c as int),
            record_shape_ok(*s, windows@, cols, q_index as int, *r),
        decreases 4 - sector,
    {
        match find_bad_vertex(&r.vertex_ok[sector]) {
            Some(c) => {
                return Some(SectorThcError::Vertex { q_index, sector, column: c });
            },
            None => {},
        }
        sector = sector + 1;
    }
    if !r.residuals_ok {
        return Some(SectorThcError::Residual);
    }
    None
}

proof fn lemma_no_bad_vertex(ok: Seq<bool>, from: int)
    requires
        0 <= from,
        first_bad_vertex(ok, from) is None,
    ensures
        forall|c: int| from <= c < ok.len() ==> #[trigger] ok[c],
    decreases ok.len() - from,
{
    if from < ok.len() {
        lemma_no_bad_vertex(ok, from + 1);
    }
}

proof fn lemma_no_sector_rejection(r: SectorRecordShape, q_index: int, from: int)
    requires
        0 <= from <= 4,
        first_sector_rejection(r, q_index, from) is None,
    ensures
        forall|j: int| from <= j < 4 ==> #[trigger] first_bad_vertex(r.vertex_ok@[j]@, 0) is None,
    decreases 4 - from,
{
    if from < 4 {
        lemma_no_sector_rejection(r, q_index, from + 1);
    }
}

proof fn lemma_no_record_rejection(s: SectorThcShape, windows: Seq<ExchangeWindow>, columns: Seq<int>, from: int)
    requires
        0 <= from,
        first_record_rejection(s, windows, columns, from) is None,
    ensures
        forall|q: int| from <= q < s.records.len() ==> #[trigger] record_rejection(s, windows, columns, q, s.records@[q]) is None,
    decreases s.records.len() - from,
{
    if from < s.records.len() {
        lemma_no_record_rejection(s, windows, columns, from + 1);
    }
}

/// An admitted four-sector fit has one record per transfer, an all-q L2
/// selection over the canonical labels and the frame's VV, CV, VC, CC
/// windows whose rank, point and pivot counts are the effective rank, a
/// known engine, an external parent grid of the fit's size, consistent
/// rank accounting and valid residuals; every record `q` carries index
/// `q`, matches the frame, has the effective rank as rank and auxiliary
/// dimension, the grid's points, a `zeta` of points times rank entries,
/// the frame's four windows with one right vertex per window column, the
/// selection's points and valid residuals; and the requested rank is met.
pub proof fn lemma_admitted_sector_thc(s: SectorThcShape, n_q: int, n_k: usize, n_valence: usize, n_core: usize)
    requires
        sector_thc_verdict(s, n_q, n_k, n_valence, n_core) is Ok,
    ensures
        s.n_records == n_q && s.records_match_grid,
        s.selection.strategy_all_q_l2 && s.selection.labels_canonical,
        s.selection.windows@ == expected_windows(n_k, n_valence, n_core),
        s.selection.n_mu == s.effective_rank && s.selection.n_points == s.effective_rank && s.selection.n_pivots == s.effective_rank,
        s.selection.engine != L2EngineKind::Other,
        s.selection.external_grid == Some((s.grid_points, s.rank_scaling.n_candidates)),
        rank_scaling_consistent(s.rank_scaling, n_q, n_k as int, n_valence as int, n_core as int, s.effective_rank as int),
        s.residuals_ok,
        forall|q: int| 0 <= q < s.records.len() ==> {
            let r = #[trigger] s.records@[q];
            &&& r.has_interpolation_points && r.frame_matches && r.points_match && r.residuals_ok
            &&& r.q_index == q
            &&& r.n_mu == s.effective_rank && r.aux_dimension == s.effective_rank
            &&& r.n_points == s.grid_points && r.zeta_len == r.n_points * r.n_mu
            &&& r.windows@ == expected_windows(n_k, n_valence, n_core)
            &&& r.vertex_ok.len() == 4
            &&& r.vertex_ok@[0].len() == n_k * n_valence * n_valence
            &&& r.vertex_ok@[1].len() == n_k * n_core * n_valence
            &&& r.vertex_ok@[2].len() == n_k * n_valence * n_core
            &&& r.vertex_ok@[3].len() == n_k * n_core * n_core
            &&& forall|j: int, c: int| 0 <= j < 4 && 0 <= c < r.vertex_ok@[j].len() ==> #[trigger] r.vertex_ok@[j]@[c]
        },
        match s.requested_rank {
            RankRequest::Exact { n_mu } => n_mu == s.effective_rank,
            RankRequest::Threshold { threshold_valid, n_max } =>
                threshold_valid && s.effective_rank != 0 && s.effective_rank <= n_max,
        },
{
    let windows = expected_windows(n_k, n_valence, n_core);
    let columns = window_columns(n_k as int, n_valence as int, n_core as int);
    lemma_no_record_rejection(s, windows, columns, 0);
    assert forall|q: int| 0 <= q < s.records.len() implies {
        let r = #[trigger] s.records@[q];
        &&& r.has_interpolation_points && r.frame_matches && r.points_match && r.residuals_ok
        &&& r.q_index == q
        &&& r.n_mu == s.effective_rank && r.aux_dimension == s.effective_rank
        &&& r.n_points == s.grid_points && r.zeta_len == r.n_points * r.n_mu
        &&& r.windows@ == expected_windows(n_k, n_valence, n_core)
        &&& r.vertex_ok.len() == 4
        &&& r.vertex_ok@[0].len() == n_k * n_valence * n_valence
        &&& r.vertex_ok@[1].len() == n_k * n_core * n_valence
        &&& r.vertex_ok@[2].len() == n_k * n_valence * n_core
        &&& r.vertex_ok@[3].len() == n_k * n_core * n_core
        &&& forall|j: int, c: int| 0 <= j < 4 && 0 <= c < r.vertex_ok@[j].len() ==> #[trigger] r.vertex_ok@[j]@[c]
    } by {
        let r = s.records@[q];
        assert(record_rejection(s, windows, columns, q, r) is None);
        assert(record_shape_ok(s, windows, columns, q, r));
        assert(r.vertex_ok@[0].len() == columns[0]);
        assert(r.vertex_ok@[1].len() == columns[1]);
        assert(r.vertex_ok@[2].len() == columns[2]);
        assert(r.vertex_ok@[3].len() == columns[3]);
        lemma_no_sector_rejection(r, q, 0);
        assert forall|j: int, c: int| 0 <= j < 4 && 0 <= c < r.vertex_ok@[j].len() implies #[trigger] r.vertex_ok@[j]@[c] by {
            assert(first_bad_vertex(r.vertex_ok@[j]@, 0) is None);
            lemma_no_bad_vertex(r.vertex_ok@[j]@, 0);
        }
    }
}

/// Admit a four-sector THC fit over `n_q` transfers for the MLDUMP v2
/// exchange block; the result is exactly [`sector_thc_verdict`].
pub fn require_sector_thc(s: &SectorThcShape, n_q: usize, n_k: usize, n_valence: usize, n_core: usize) -> (r: Result<(), SectorThcError>)
    requires
        window_columns(n_k as int, n_valence as int, n_core as int)[0] <= usize::MAX
            && window_columns(n_k as int, n_valence as int, n_core as int)[1] <= usize::MAX
            && window_columns(n_k as int, n_valence as int, n_core as int)[2] <= usize::MAX
            && window_columns(n_k as int, n_valence as int, n_core as int)[3] <= usize::MAX
            ==> n_q * (sector_columns(n_k as int, n_valence as int, n_valence as int)
                + sector_columns(n_k as int, n_core as int, n_valence as int)
                + sector_columns(n_k as int, n_valence as int, n_core as int)
                + sector_columns(n_k as int, n_core as int, n_core as int)) <= usize::MAX,
    ensures
        r == sector_thc_verdict(*s, n_q as int, n_k, n_valence, n_core),
{
    let windows = exchange_windows(n_k, n_valence, n_core);
    let ghost columns = window_columns(n_k as int, n_valence as int, n_core as int);
    let sel = &s.selection;
    if s.n_records != n_q || !s.records_match_grid {
        return Err(SectorThcError::Records);
    }
    if !sel.strategy_all_q_l2 || !sel.labels_canonical || !same_windows(&sel.windows, &windows)
        || sel.n_mu != s.effective_rank || sel.n_points != s.effective_rank || sel.n_pivots != s.effective_rank {
        return Err(SectorThcError::Selection);
    }
    if sel.engine == L2EngineKind::Other {
        return Err(SectorThcError::Engine);
    }
    match sel.external_grid {
        Some((p, c)) => if p != s.grid_points || c != s.rank_scaling.n_candidates {
            return Err(SectorThcError::GridPath);
        },
        None => {
            return Err(SectorThcError::GridPath);
        },
    }
    let scaling = require_rank_scaling(&s.rank_scaling, n_q, n_k, n_valence, n_core, s.effective_rank);
    match scaling {
        Err(RankScalingError::Layouts) => {
            proof {
                assert(exists|j: int| 0 <= j < 4 && #[trigger] columns[j] > usize::MAX) by {
                    if columns[0] > usize::MAX { assert(columns[0] > usize::MAX); }
                    else if columns[1] > usize::MAX { assert(columns[1] > usize::MAX); }
                    else if columns[2] > usize::MAX { assert(columns[2] > usize::MAX); }
                    else { assert(columns[3] > usize::MAX); }
                }
            }
            return Err(SectorThcError::Layouts);
        },
        Err(RankScalingError::RankScaling) => {
            return Err(SectorThcError::RankScaling);
        },
        Ok(()) => {},
    }
    if !s.residuals_ok {
        return Err(SectorThcError::Residual);
    }
    let rs = &s.rank_scaling;
    let cols = vec![rs.vv_columns_per_q, rs.cv_columns_per_q, rs.vc_columns_per_q, rs.cc_columns_per_q];
    assert(cols@.map_values(|c: usize| c as int) =~= columns);
    let mut q: usize = 0;
    while q < s.records.len()
        invariant
            windows@ == expected_windows(n_k, n_valence, n_core),
            cols.len() == 4,
            cols@.map_values(|c: usize| c as int) == columns,
            columns == window_columns(n_k as int, n_valence as int, n_core as int),
            sector_thc_verdict(*s, n_q as int, n_k, n_valence, n_core) == (match first_record_rejection(*s, windows@, columns, 0) {
                Some(e) => Err(e),
                None => if requested_rank_ok(s.requested_rank, s.effective_rank) { Ok(()) } else { Err(SectorThcError::RequestedRank) },
            }),
            q <= s.records.len(),
            first_record_rejection(*s, windows@, columns, 0) == first_record_rejection(*s, windows@, columns, q as int),
        decreases s.records.len() - q,
    {
        match check_record(s, &windows, &cols, q, &s.records[q]) {
            Some(e) => {
                return Err(e);
            },
            None => {},
        }
        q = q + 1;
    }
    let ok = match s.requested_rank {
        RankRequest::Exact { n_mu } => n_mu == s.effective_rank,
        RankRequest::Threshold { threshold_valid, n_max } => threshold_valid && s.effective_rank != 0 && s.effective_rank <= n_max,
    };
    if ok {
        Ok(())
    } else {
        Err(SectorThcError::RequestedRank)
    }
}

} // verus!
