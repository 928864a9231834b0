//! Integer tables of the MLDUMP export: index conversions, the Pauli row
//! map, THC vertex and parent-grid region tables, and the THC engine code.
use vstd::prelude::*;

verus! {

/// Number of Pauli components of a spinor plane-wave row block.
pub const N_PAULI: usize = 2;

/// An index as the interchange's signed 64-bit integer; the index must fit.
pub fn index_i64(value: usize) -> (r: i64)
    requires
        value <= i64::MAX,
    ensures
        r == value,
{
    value as i64
}

/// An index as a signed 64-bit integer, or `i64::MIN` when it does not fit.
pub fn index_i64_or_min(value: usize) -> (r: i64)
    ensures
        value <= i64::MAX ==> r == value,
        value > i64::MAX ==> r == i64::MIN,
{
    if (value as u64) <= 0x7fff_ffff_ffff_ffffu64 {
        value as i64
    } else {
        i64::MIN
    }
}

/// Pauli plane-wave row map of one k-point: rows `pauli * n_pw + pw` with
/// the Pauli component slow and the plane-wave index fast.
#[derive(Debug, PartialEq, Eq)]
pub struct PauliTables {
    pub n_row: usize,
    pub row_index: Vec<i64>,
    pub pauli_component: Vec<i64>,
    pub plane_wave_index: Vec<i64>,
}

/// Table entry `v` as stored: itself when it fits `i64`, else `i64::MIN`.
pub open spec fn stored(v: int) -> i64 {
    if v <= i64::MAX {
        v as i64
    } else {
        i64::MIN
    }
}

/// The row map of `n_pw` plane waves per Pauli component: row `r` has
/// Pauli component `r / n_pw` and plane-wave index `r % n_pw`.
pub fn pauli_row_map(n_pw: usize) -> (t: PauliTables)
    requires
        N_PAULI * n_pw <= usize::MAX,
    ensures
        t.n_row == N_PAULI * n_pw,
        t.row_index.len() == t.n_row,
        t.pauli_component.len() == t.n_row,
        t.plane_wave_index.len() == t.n_row,
        forall|r: int| 0 <= r < t.n_row ==> {
            &&& #[trigger] t.row_index@[r] == stored(r)
            &&& t.pauli_component@[r] == stored(r / n_pw as int)
            &&& t.plane_wave_index@[r] == stored(r % n_pw as int)
        },
{
    let n_row = N_PAULI * n_pw;
    let mut row_index: Vec<i64> = Vec::new();
    let mut pauli_component: Vec<i64> = Vec::new();
    let mut plane_wave_index: Vec<i64> = Vec::new();
    let mut pauli: usize = 0;
    while pauli < N_PAULI
        invariant
            pauli <= N_PAULI,
            n_row == N_PAULI * n_pw,
            row_index.len() == pauli * n_pw,
            pauli_component.len() == pauli * n_pw,
            plane_wave_index.len() == pauli * n_pw,
            forall|r: int| 0 <= r < row_index.len() ==> {
                &&& #[trigger] row_index@[r] == stored(r)
                &&& pauli_component@[r] == stored(r / n_pw as int)
                &&& plane_wave_index@[r] == stored(r % n_pw as int)
            },
        decreases N_PAULI - pauli,
    {
        let mut pw: usize = 0;
        while pw < n_pw
            invariant
                pauli < N_PAULI,
                pw <= n_pw,
                n_row == N_PAULI * n_pw,
                row_index.len() == pauli * n_pw + pw,
                pauli_component.len() == pauli * n_pw + pw,
                plane_wave_index.len() == pauli * n_pw + pw,
                forall|r: int| 0 <= r < row_index.len() ==> {
                    &&& #[trigger] row_index@[r] == stored(r)
                    &&& pauli_component@[r] == stored(r / n_pw as int)
                    &&& plane_wave_index@[r] == stored(r % n_pw as int)
                },
            decreases n_pw - pw,
        {
            let r = pauli * n_pw + pw;
            proof {
                assert(pauli * n_pw + pw < N_PAULI * n_pw) by (nonlinear_arith)
                    requires
                        pauli < N_PAULI,
                        pw < n_pw,
                ;
                assert((r as int) / (n_pw as int) == pauli && (r as int) % (n_pw as int) == pw) by (nonlinear_arith)
                    requires
                        r == pauli * n_pw + pw,
                        0 <= pw < n_pw,
                        pauli >= 0,
                ;
            }
            let ghost ri0 = row_index@;
            let ghost pc0 = pauli_component@;
            let ghost pw0 = plane_wave_index@;
            row_index.push(index_i64_or_min(r));
            pauli_component.push(index_i64_or_min(pauli));
            plane_wave_index.push(index_i64_or_min(pw));
            proof {
                assert forall|r2: int| 0 <= r2 < row_index.len() implies {
                    &&& #[trigger] row_index@[r2] == stored(r2)
                    &&& pauli_component@[r2] == stored(r2 / n_pw as int)
                    &&& plane_wave_index@[r2] == stored(r2 % n_pw as int)
                } by {
                    if r2 < ri0.len() {
                        assert(row_index@[r2] == ri0[r2]);
                        assert(pauli_component@[r2] == pc0[r2]);
                        assert(plane_wave_index@[r2] == pw0[r2]);
                    } else {
                        assert(r2 == r);
                    }
                }
            }
            pw = pw + 1;
        }
        proof {
            assert((pauli + 1) * n_pw == pauli * n_pw + n_pw) by (nonlinear_arith);
        }
        pauli = pauli + 1;
    }
    PauliTables { n_row, row_index, pauli_component, plane_wave_index }
}

/// Vertex identity table of one THC transfer record: each vertex's column
/// and its Bloch pair `(k, left, right)`, three entries per vertex.
#[derive(Debug, PartialEq, Eq)]
pub struct ThcVertexTable {
    pub n_vertex: usize,
    pub column: Vec<i64>,
    pub k_left_right: Vec<i64>,
}

/// The Bloch pair `(k, left, right)` a vertex carries.
pub open spec fn bloch(pair: Option<(usize, usize, usize)>) -> (usize, usize, usize) {
    match pair {
        Some(p) => p,
        None => (0, 0, 0),
    }
}

/// The first vertex that is not a Bloch pair.
pub open spec fn first_non_bloch(pairs: Seq<Option<(usize, usize, usize)>>, i: int) -> bool {
    &&& 0 <= i < pairs.len()
    &&& pairs[i] is None
    &&& forall|j: int| 0 <= j < i ==> (#[trigger] pairs[j]) is Some
}

/// The vertex table of a record whose vertices carry the given pairs
/// (`None` for a pair that is not a Bloch pair), or the position of the
/// first vertex that is not one.
pub fn thc_vertex_table(pairs: &Vec<Option<(usize, usize, usize)>>) -> (r: Result<ThcVertexTable, usize>)
    requires
        pairs.len() <= i64::MAX,
        forall|i: int| 0 <= i < pairs.len() ==> ((#[trigger] pairs@[i]) matches Some(p) ==> p.0 <= i64::MAX && p.1 <= i64::MAX && p.2 <= i64::MAX),
    ensures
        match r {
            Err(i) => first_non_bloch(pairs@, i as int),
            Ok(t) => {
                &&& forall|i: int| 0 <= i < pairs.len() ==> (#[trigger] pairs@[i]) is Some
                &&& t.n_vertex == pairs.len()
                &&& t.column.len() == pairs.len()
                &&& t.k_left_right.len() == 3 * pairs.len()
                &&& forall|i: int| 0 <= i < pairs.len() ==> {
                    &&& #[trigger] t.column@[i] == i
                    &&& t.k_left_right@[3 * i] == bloch(pairs@[i]).0
                    &&& t.k_left_right@[3 * i + 1] == bloch(pairs@[i]).1
                    &&& t.k_left_right@[3 * i + 2] == bloch(pairs@[i]).2
                }
            },
        },
{
    let mut column: Vec<i64> = Vec::new();
    let mut k_left_right: Vec<i64> = Vec::new();
    let mut i: usize = 0;
    while i < pairs.len()
        invariant
            i <= pairs.len() <= i64::MAX,
            forall|j: int| 0 <= j < pairs.len() ==> ((#[trigger] pairs@[j]) matches Some(p) ==> p.0 <= i64::MAX && p.1 <= i64::MAX && p.2 <= i64::MAX),
            forall|j: int| 0 <= j < i ==> (#[trigger] pairs@[j]) is Some,
            column.len() == i,
            k_left_right.len() == 3 * i,
            forall|j: int| 0 <= j < i ==> {
                &&& #[trigger] column@[j] == j
                &&& k_left_right@[3 * j] == bloch(pairs@[j]).0
                &&& k_left_right@[3 * j + 1] == bloch(pairs@[j]).1
                &&& k_left_right@[3 * j + 2] == bloch(pairs@[j]).2
            },
        decreases pairs.len() - i,
    {
        match pairs[i] {
            None => {
                return Err(i);
            },
            Some((k, left, right)) => {
                let ghost before = k_left_right@;
                column.push(i as i64);
                k_left_right.push(k as i64);
                k_left_right.push(left as i64);
                k_left_right.push(right as i64);
                proof {
                    assert forall|j: int| 0 <= j < i + 1 implies {
                        &&& #[trigger] column@[j] == j
                        &&& k_left_right@[3 * j] == bloch(pairs@[j]).0
                        &&& k_left_right@[3 * j + 1] == bloch(pairs@[j]).1
                        &&& k_left_right@[3 * j + 2] == bloch(pairs@[j]).2
                    } by {
                        if j < i {
                            assert(k_left_right@[3 * j] == before[3 * j]);
                            assert(k_left_right@[3 * j + 1] == before[3 * j + 1]);
                            assert(k_left_right@[3 * j + 2] == before[3 * j + 2]);
                        }
                    }
                }
            },
        }
        i = i + 1;
    }
    Ok(ThcVertexTable { n_vertex: pairs.len(), column, k_left_right })
}

/// The L2 engine a THC selection was made with.
#[derive(Clone, Copy, Debug, PartialEq, Eq, Structural)]
pub enum L2EngineKind {
    FullColumnPivotedQr,
    FullPivotedCholesky,
    /// Any other engine of the selector.
    Other,
}

/// The engines the MLDUMP THC block can record.
#[derive(Clone, Copy, Debug, PartialEq, Eq, Structural)]
pub enum ThcEngineCode {
    Qrcp,
    PivotedCholesky,
}

/// A THC selection the MLDUMP THC block cannot record.
#[derive(Clone, Copy, Debug, PartialEq, Eq, Structural)]
pub enum ThcSelectionError {
    /// The selection is not the all-q L2 strategy.
    UnsupportedStrategy,
    /// The engine is neither full column-pivoted QR nor pivoted Cholesky.
    UnsupportedEngine,
}

/// The engine code of a THC selection: the strategy must be all-q L2 and
/// the engine one of the two full pivoted engines, checked in that order.
pub fn thc_engine_code(strategy_all_q_l2: bool, engine: L2EngineKind) -> (r: Result<ThcEngineCode, ThcSelectionError>)
    ensures
        !strategy_all_q_l2 ==> r == Err::<ThcEngineCode, ThcSelectionError>(ThcSelectionError::UnsupportedStrategy),
        strategy_all_q_l2 ==> r == match engine {
            L2EngineKind::FullColumnPivotedQr => Ok::<ThcEngineCode, ThcSelectionError>(ThcEngineCode::Qrcp),
            L2EngineKind::FullPivotedCholesky => Ok(ThcEngineCode::PivotedCholesky),
            L2EngineKind::Other => Err(ThcSelectionError::UnsupportedEngine),
        },
{
    if !strategy_all_q_l2 {
        return Err(ThcSelectionError::UnsupportedStrategy);
    }
    match engine {
        L2EngineKind::FullColumnPivotedQr => Ok(ThcEngineCode::Qrcp),
        L2EngineKind::FullPivotedCholesky => Ok(ThcEngineCode::PivotedCholesky),
        L2EngineKind::Other => Err(ThcSelectionError::UnsupportedEngine),
    }
}

/// The region of one parent-grid point.
#[derive(Clone, Copy, Debug, PartialEq, Eq, Structural)]
pub enum GridRegion {
    MuffinTin { site: usize, radial_index: usize },
    Interstitial,
}

/// Region columns of the parent-grid table: per point, whether it lies in
/// a muffin tin, and its site and radial index there (the interstitial
/// sentinel elsewhere).
#[derive(Debug, PartialEq, Eq)]
pub struct GridRegionTable {
    pub muffin_tin: Vec<bool>,
    pub site_index: Vec<i64>,
    pub radial_index: Vec<i64>,
}

/// Every muffin-tin point's site and radial index fit `i64`.
pub open spec fn regions_fit(regions: Seq<GridRegion>) -> bool {
    forall|i: int| 0 <= i < regions.len() ==> match #[trigger] regions[i] {
        GridRegion::MuffinTin { site, radial_index } => site <= i64::MAX && radial_index <= i64::MAX,
        GridRegion::Interstitial => true,
    }
}

/// Row `i` of the region table is point `i`'s region.
pub open spec fn region_row(t: GridRegionTable, regions: Seq<GridRegion>, sentinel: i64, i: int) -> bool {
    match regions[i] {
        GridRegion::MuffinTin { site, radial_index } =>
            t.muffin_tin@[i] && t.site_index@[i] == site && t.radial_index@[i] == radial_index,
        GridRegion::Interstitial =>
            !t.muffin_tin@[i] && t.site_index@[i] == sentinel && t.radial_index@[i] == sentinel,
    }
}

/// The region columns of the parent-grid table, one row per point in grid
/// order, `sentinel` standing for the site and radial index of an
/// interstitial point.
pub fn grid_region_table(regions: &Vec<GridRegion>, sentinel: i64) -> (t: GridRegionTable)
    requires
        regions_fit(regions@),
    ensures
        t.muffin_tin.len() == regions.len(),
        t.site_index.len() == regions.len(),
        t.radial_index.len() == regions.len(),
        forall|i: int| 0 <= i < regions.len() ==> #[trigger] region_row(t, regions@, sentinel, i),
{
    let mut t = GridRegionTable { muffin_tin: Vec::new(), site_index: Vec::new(), radial_index: Vec::new() };
    let mut i: usize = 0;
    while i < regions.len()
        invariant
            i <= regions.len(),
            regions_fit(regions@),
            t.muffin_tin.len() == i && t.site_index.len() == i && t.radial_index.len() == i,
            forall|j: int| 0 <= j < i ==> #[trigger] region_row(t, regions@, sentinel, j),
        decreases regions.len() - i,
    {
        let ghost before = t;
        match regions[i] {
            GridRegion::MuffinTin { site, radial_index } => {
                t.muffin_tin.push(true);
                t.site_index.push(index_i64(site));
                t.radial_index.push(index_i64(radial_index));
            },
            GridRegion::Interstitial => {
                t.muffin_tin.push(false);
                t.site_index.push(sentinel);
                t.radial_index.push(sentinel);
            },
        }
        proof {
            assert forall|j: int| 0 <= j < i + 1 implies #[trigger] region_row(t, regions@, sentinel, j) by {
                if j < i {
                    assert(region_row(before, regions@, sentinel, j));
                }
            }
        }
        i = i + 1;
    }
    t
}

/// Indices as the interchange's signed 64-bit integers, in order; every
/// index must fit.
pub fn index_table(values: &Vec<usize>) -> (t: Vec<i64>)
    requires
        forall|i: int| 0 <= i < values.len() ==> #[trigger] values@[i] <= i64::MAX,
    ensures
        t.len() == values.len(),
        forall|i: int| 0 <= i < values.len() ==> #[trigger] t@[i] == values@[i],
{
    let mut t: Vec<i64> = Vec::new();
    let mut i: usize = 0;
    while i < values.len()
        invariant
            i <= values.len(),
            forall|j: int| 0 <= j < values.len() ==> #[trigger] values@[j] <= i64::MAX,
            t.len() == i,
            forall|j: int| 0 <= j < i ==> #[trigger] t@[j] == values@[j],
        decreases values.len() - i,
    {
        t.push(index_i64(values[i]));
        i = i + 1;
    }
    t
}

} // verus!
