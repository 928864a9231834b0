//! Integer preflight of the scalar CoQui-native Cholesky export: the
//! per-transfer `k - q` maps flattened to the `qk_to_kmq` table, the
//! k-major vertex columns, and the 32-bit header dimensions.
use vstd::prelude::*;

verus! {

/// What the preflight reads of one transfer `q`: its `k - q` map entries
/// `(k_index, kq_index)` in k order, whether its Cartesian `q` is finite,
/// and for each vertex column whether it is the k-major Bloch pair that the
/// record layout decodes there, with one coefficient per auxiliary function.
#[derive(Debug)]
pub struct CoquiQShape {
    pub k_minus_q: Vec<(usize, usize)>,
    pub q_finite: bool,
    pub vertex_ok: Vec<bool>,
}

/// Rejections of the per-transfer preflight.
#[derive(Clone, Copy, Debug, PartialEq, Eq, Structural)]
pub enum CoquiMapError {
    KMap { q_index: usize, k_index: usize },
    NonFiniteBody { q_index: usize },
    VertexColumn { q_index: usize, column: usize },
}

/// A header dimension that does not fit `i32`.
#[derive(Clone, Copy, Debug, PartialEq, Eq, Structural)]
pub enum CoquiHeaderError {
    /// No transfer has a positive factor row.
    EmptyFactor,
    Np,
    NKpts,
    NBnd,
}

/// The 32-bit header dimensions `(Np, nkpts, nbnd)`.
#[derive(Clone, Copy, Debug, PartialEq, Eq, Structural)]
pub struct CoquiHeaderDims {
    pub np: i32,
    pub nkpts: i32,
    pub nbnd: i32,
}

// ---------------------------------------------------------------------
// Specification.

/// Entry `k` of a map is in order and in bounds and its target fits `i32`.
pub open spec fn k_entry_ok(n_k: int, map: Seq<(usize, usize)>, k: int) -> bool {
    map[k].0 == k && map[k].1 < n_k && map[k].1 <= i32::MAX
}

/// `k` is the first bad entry of a map.
pub open spec fn first_bad_k(n_k: int, map: Seq<(usize, usize)>, k: int) -> bool {
    &&& 0 <= k < map.len()
    &&& !k_entry_ok(n_k, map, k)
    &&& forall|k2: int| 0 <= k2 < k ==> #[trigger] k_entry_ok(n_k, map, k2)
}

/// `column` is the first column that is not the expected Bloch pair.
pub open spec fn first_bad_column(ok: Seq<bool>, column: int) -> bool {
    &&& 0 <= column < ok.len()
    &&& !ok[column]
    &&& forall|c2: int| 0 <= c2 < column ==> #[trigger] ok[c2]
}

/// The first rejection of transfer `q_index`, if any.
pub open spec fn q_error(n_k: usize, n_columns: usize, q: CoquiQShape, q_index: usize) -> Option<CoquiMapError> {
    let map = q.k_minus_q@;
    let ok = q.vertex_ok@;
    if map.len() != n_k {
        Some(CoquiMapError::KMap { q_index, k_index: 0 })
    } else if !q.q_finite {
        Some(CoquiMapError::NonFiniteBody { q_index })
    } else if exists|k: int| #[trigger] first_bad_k(n_k as int, map, k) {
        Some(CoquiMapError::KMap { q_index, k_index: (choose|k: int| #[trigger] first_bad_k(n_k as int, map, k)) as usize })
    } else if ok.len() != n_columns {
        Some(CoquiMapError::VertexColumn { q_index, column: ok.len() as usize })
    } else if exists|c: int| #[trigger] first_bad_column(ok, c) {
        Some(CoquiMapError::VertexColumn { q_index, column: (choose|c: int| #[trigger] first_bad_column(ok, c)) as usize })
    } else {
        None
    }
}

/// `iq` is the first rejected transfer.
pub open spec fn first_bad_q(n_k: usize, n_columns: usize, qs: Seq<CoquiQShape>, iq: int) -> bool {
    &&& 0 <= iq < qs.len()
    &&& q_error(n_k, n_columns, qs[iq], iq as usize) is Some
    &&& forall|i2: int| 0 <= i2 < iq ==> (#[trigger] q_error(n_k, n_columns, qs[i2], i2 as usize)) is None
}

// ---------------------------------------------------------------------
// Implementation.

/// The first rejection of one transfer, if any.
fn check_q(n_k: usize, n_columns: usize, q: &CoquiQShape, q_index: usize) -> (r: Option<CoquiMapError>)
    ensures
        r == q_error(n_k, n_columns, *q, q_index),
{
    if q.k_minus_q.len() != n_k {
        return Some(CoquiMapError::KMap { q_index, k_index: 0 });
    }
    if !q.q_finite {
        return Some(CoquiMapError::NonFiniteBody { q_index });
    }
    let mut k: usize = 0;
    while k < n_k
        invariant
            k <= n_k == q.k_minus_q.len(),
            q.q_finite,
            forall|k2: int| 0 <= k2 < k ==> #[trigger] k_entry_ok(n_k as int, q.k_minus_q@, k2),
        decreases n_k - k,
    {
        let (k_index, kq_index) = q.k_minus_q[k];
        if k_index != k || kq_index >= n_k || kq_index > 0x7fff_ffff {
            proof {
                let map = q.k_minus_q@;
                assert(first_bad_k(n_k as int, map, k as int));
                let c = choose|k2: int| #[trigger] first_bad_k(n_k as int, map, k2);
                if c < k {
                    assert(k_entry_ok(n_k as int, map, c));
                } else if c > k {
                    assert(k_entry_ok(n_k as int, map, k as int));
                }
            }
            return Some(CoquiMapError::KMap { q_index, k_index: k });
        }
        k = k + 1;
    }
    proof {
        assert forall|k2: int| !first_bad_k(n_k as int, q.k_minus_q@, k2) by {
            if 0 <= k2 < n_k {
                assert(k_entry_ok(n_k as int, q.k_minus_q@, k2));
            }
        }
    }
    if q.vertex_ok.len() != n_columns {
        return Some(CoquiMapError::VertexColumn { q_index, column: q.vertex_ok.len() });
    }
    let mut c: usize = 0;
    while c < n_columns
        invariant
            c <= n_columns == q.vertex_ok.len(),
            q.q_finite,
            n_k == q.k_minus_q.len(),
            forall|k2: int| 0 <= k2 < n_k ==> #[trigger] k_entry_ok(n_k as int, q.k_minus_q@, k2),
            forall|c2: int| 0 <= c2 < c ==> #[trigger] q.vertex_ok@[c2],
        decreases n_columns - c,
    {
        if !q.vertex_ok[c] {
            proof {
                let ok = q.vertex_ok@;
                assert(first_bad_column(ok, c as int));
                let f = choose|c2: int| #[trigger] first_bad_column(ok, c2);
                if f < c {
                    assert(ok[f]);
                } else if f > c {
                    assert(ok[c as int]);
                }
            }
            return Some(CoquiMapError::VertexColumn { q_index, column: c });
        }
        c = c + 1;
    }
    None
}

/// Check every transfer in order and flatten the maps: entry `q * n_k + k`
/// of the table is the `k - q` index of k-point `k` at transfer `q`.
pub fn coqui_k_minus_q_table(n_k: usize, n_columns: usize, qs: &Vec<CoquiQShape>) -> (r: Result<Vec<i32>, CoquiMapError>)
    ensures
        match r {
            Err(e) => exists|iq: int| #[trigger] first_bad_q(n_k, n_columns, qs@, iq) && q_error(n_k, n_columns, qs@[iq], iq as usize) == Some(e),
            Ok(table) => {
                &&& forall|iq: int| 0 <= iq < qs.len() ==> (#[trigger] q_error(n_k, n_columns, qs@[iq], iq as usize)) is None
                &&& table.len() == qs.len() * n_k
                &&& forall|iq: int, k: int| 0 <= iq < qs.len() && 0 <= k < n_k ==> #[trigger] table@[iq * n_k + k] == qs@[iq].k_minus_q@[k].1
            },
        },
        (exists|iq: int| #[trigger] first_bad_q(n_k, n_columns, qs@, iq)) <==> r is Err,
{
    let mut table: Vec<i32> = Vec::new();
    let mut iq: usize = 0;
    while iq < qs.len()
        invariant
            iq <= qs.len(),
            forall|i2: int| 0 <= i2 < iq ==> (#[trigger] q_error(n_k, n_columns, qs@[i2], i2 as usize)) is None,
            table.len() == iq * n_k,
            forall|i2: int, k: int| 0 <= i2 < iq && 0 <= k < n_k ==> #[trigger] table@[i2 * n_k + k] == qs@[i2].k_minus_q@[k].1,
        decreases qs.len() - iq,
    {
        let q = &qs[iq];
        match check_q(n_k, n_columns, q, iq) {
            Some(e) => {
                proof {
                    assert(first_bad_q(n_k, n_columns, qs@, iq as int));
                }
                return Err(e);
            },
            None => {},
        }
        let mut k: usize = 0;
        let ghost base = table@;
        proof {
            assert((iq + 1) * n_k == iq * n_k + n_k) by (nonlinear_arith);
            assert(q.k_minus_q@.len() == n_k);
            assert forall|k2: int| 0 <= k2 < n_k implies k_entry_ok(n_k as int, q.k_minus_q@, k2) by {
                if !k_entry_ok(n_k as int, q.k_minus_q@, k2) {
                    assert(exists|k3: int| #[trigger] first_bad_k(n_k as int, q.k_minus_q@, k3)) by {
                        lemma_some_bad_gives_first(n_k as int, q.k_minus_q@, k2);
                    }
                }
            }
        }
        while k < n_k
            invariant
                iq < qs.len(),
                *q == qs@[iq as int],
                k <= n_k == q.k_minus_q.len(),
                forall|k2: int| 0 <= k2 < n_k ==> #[trigger] k_entry_ok(n_k as int, q.k_minus_q@, k2),
                table.len() == iq * n_k + k,
                base.len() == iq * n_k,
                forall|x: int| 0 <= x < base.len() ==> #[trigger] table@[x] == base[x],
                forall|k2: int| 0 <= k2 < k ==> #[trigger] table@[iq * n_k + k2] == q.k_minus_q@[k2].1,
            decreases n_k - k,
        {
            let kq = q.k_minus_q[k].1;
            assert(k_entry_ok(n_k as int, q.k_minus_q@, k as int));
            table.push(kq as i32);
            k = k + 1;
        }
        proof {
            assert forall|i2: int, k2: int| 0 <= i2 < iq + 1 && 0 <= k2 < n_k implies #[trigger] table@[i2 * n_k + k2] == qs@[i2].k_minus_q@[k2].1 by {
                if i2 < iq {
                    assert(i2 * n_k + k2 < iq * n_k) by (nonlinear_arith)
                        requires 0 <= i2 < iq, 0 <= k2 < n_k;
                    assert(table@[i2 * n_k + k2] == base[i2 * n_k + k2]);
                }
            }
        }
        iq = iq + 1;
    }
    proof {
        assert forall|i: int| !first_bad_q(n_k, n_columns, qs@, i) by {}
    }
    Ok(table)
}

/// A bad entry means a first bad entry exists.
proof fn lemma_some_bad_gives_first(n_k: int, map: Seq<(usize, usize)>, k: int)
    requires
        0 <= k < map.len(),
        !k_entry_ok(n_k, map, k),
    ensures
        exists|k3: int| #[trigger] first_bad_k(n_k, map, k3),
    decreases k,
{
    if forall|k2: int| 0 <= k2 < k ==> #[trigger] k_entry_ok(n_k, map, k2) {
        assert(first_bad_k(n_k, map, k));
    } else {
        let k2 = choose|k2: int| 0 <= k2 < k && !#[trigger] k_entry_ok(n_k, map, k2);
        lemma_some_bad_gives_first(n_k, map, k2);
    }
}

/// The header dimensions: `np` is the largest factor rank over the
/// transfers and must be positive; each of `np`, `n_k` and `n_band` must
/// fit `i32`, checked in that order.
pub fn coqui_header_dims(np: usize, n_k: usize, n_band: usize) -> (r: Result<CoquiHeaderDims, CoquiHeaderError>)
    ensures
        np == 0 ==> r == Err::<CoquiHeaderDims, CoquiHeaderError>(CoquiHeaderError::EmptyFactor),
        np > 0 && np > i32::MAX ==> r == Err::<CoquiHeaderDims, CoquiHeaderError>(CoquiHeaderError::Np),
        0 < np <= i32::MAX && n_k > i32::MAX ==> r == Err::<CoquiHeaderDims, CoquiHeaderError>(CoquiHeaderError::NKpts),
        0 < np <= i32::MAX && n_k <= i32::MAX && n_band > i32::MAX ==> r == Err::<CoquiHeaderDims, CoquiHeaderError>(CoquiHeaderError::NBnd),
        0 < np <= i32::MAX && n_k <= i32::MAX && n_band <= i32::MAX ==> r == Ok::<CoquiHeaderDims, CoquiHeaderError>(CoquiHeaderDims { np: np as i32, nkpts: n_k as i32, nbnd: n_band as i32 }),
{
    if np == 0 {
        return Err(CoquiHeaderError::EmptyFactor);
    }
    if np > 0x7fff_ffff {
        return Err(CoquiHeaderError::Np);
    }
    if n_k > 0x7fff_ffff {
        return Err(CoquiHeaderError::NKpts);
    }
    if n_band > 0x7fff_ffff {
        return Err(CoquiHeaderError::NBnd);
    }
    Ok(CoquiHeaderDims { np: np as i32, nkpts: n_k as i32, nbnd: n_band as i32 })
}

/// The largest factor rank over the transfers (0 when there is none):
/// the `Np` of the header.
pub open spec fn is_max_rank(ranks: Seq<usize>, np: usize) -> bool {
    &&& forall|i: int| 0 <= i < ranks.len() ==> #[trigger] ranks[i] <= np
    &&& (ranks.len() == 0 ==> np == 0)
    &&& (ranks.len() > 0 ==> exists|i: int| 0 <= i < ranks.len() && #[trigger] ranks[i] == np)
}

/// The largest of the per-transfer factor ranks, 0 when there is none.
pub fn max_factor_rank(ranks: &Vec<usize>) -> (np: usize)
    ensures
        is_max_rank(ranks@, np),
{
    let mut np: usize = 0;
    let mut i: usize = 0;
    while i < ranks.len()
        invariant
            i <= ranks.len(),
            forall|j: int| 0 <= j < i ==> #[trigger] ranks@[j] <= np,
            i == 0 ==> np == 0,
            i > 0 ==> exists|j: int| 0 <= j < i && #[trigger] ranks@[j] == np,
        decreases ranks.len() - i,
    {
        if ranks[i] > np {
            np = ranks[i];
        }
        i = i + 1;
    }
    np
}

/// The header dimensions of a factorization with the given per-transfer
/// ranks: `Np` is the largest rank (see [`coqui_header_dims`]).
pub fn coqui_factor_dims(ranks: &Vec<usize>, n_k: usize, n_band: usize) -> (r: Result<CoquiHeaderDims, CoquiHeaderError>)
    ensures
        exists|np: usize| #[trigger] is_max_rank(ranks@, np) && (
            (np == 0 ==> r == Err::<CoquiHeaderDims, CoquiHeaderError>(CoquiHeaderError::EmptyFactor))
            && (np > 0 && np > i32::MAX ==> r == Err::<CoquiHeaderDims, CoquiHeaderError>(CoquiHeaderError::Np))
            && (0 < np <= i32::MAX && n_k > i32::MAX ==> r == Err::<CoquiHeaderDims, CoquiHeaderError>(CoquiHeaderError::NKpts))
            && (0 < np <= i32::MAX && n_k <= i32::MAX && n_band > i32::MAX ==> r == Err::<CoquiHeaderDims, CoquiHeaderError>(CoquiHeaderError::NBnd))
            && (0 < np <= i32::MAX && n_k <= i32::MAX && n_band <= i32::MAX ==> r == Ok::<CoquiHeaderDims, CoquiHeaderError>(CoquiHeaderDims { np: np as i32, nkpts: n_k as i32, nbnd: n_band as i32 }))),
{
    let np = max_factor_rank(ranks);
    coqui_header_dims(np, n_k, n_band)
}

/// What the transfer-independent part of the preflight reads: whether the
/// THC selector is the all-q L2 strategy with a full pivoted engine, the
/// frozen orbitals' k-points and band window, the pair-column layout's
/// k-points and bands, and whether every Cartesian k-point is finite.
#[derive(Debug)]
pub struct CoquiFrameShape {
    pub strategy_all_q_l2: bool,
    pub engine_full_pivoted: bool,
    pub n_k: usize,
    pub n_band: usize,
    pub pair_n_k: usize,
    pub pair_n_orb: usize,
    pub k_points_finite: bool,
}

/// Rejections of the preflight before any factorization, in order.
#[derive(Clone, Copy, Debug, PartialEq, Eq, Structural)]
pub enum CoquiPreflightError {
    UnsupportedStrategy,
    UnsupportedEngine,
    IncompatibleInputs,
    PairColumnOverflow,
    Transfer(CoquiMapError),
}

/// The checks before the factorization: strategy, engine, pair layout,
/// pair-column count `n_k n_band^2`, finite k-points, then every transfer
/// (see [`coqui_k_minus_q_table`]); on success the flattened `qk_to_kmq`
/// table and the number of pair columns.
pub fn coqui_transfer_checks(frame: &CoquiFrameShape, qs: &Vec<CoquiQShape>) -> (r: Result<(Vec<i32>, usize), CoquiPreflightError>)
    ensures
        !frame.strategy_all_q_l2 ==> r == Err::<(Vec<i32>, usize), CoquiPreflightError>(CoquiPreflightError::UnsupportedStrategy),
        frame.strategy_all_q_l2 && !frame.engine_full_pivoted
            ==> r == Err::<(Vec<i32>, usize), CoquiPreflightError>(CoquiPreflightError::UnsupportedEngine),
        frame.strategy_all_q_l2 && frame.engine_full_pivoted
            && (frame.pair_n_k != frame.n_k || frame.pair_n_orb != frame.n_band)
            ==> r == Err::<(Vec<i32>, usize), CoquiPreflightError>(CoquiPreflightError::IncompatibleInputs),
        frame.strategy_all_q_l2 && frame.engine_full_pivoted && frame.pair_n_k == frame.n_k && frame.pair_n_orb == frame.n_band
            && frame.n_k * frame.n_band * frame.n_band > usize::MAX
            ==> r == Err::<(Vec<i32>, usize), CoquiPreflightError>(CoquiPreflightError::PairColumnOverflow),
        frame.strategy_all_q_l2 && frame.engine_full_pivoted && frame.pair_n_k == frame.n_k && frame.pair_n_orb == frame.n_band
            && frame.n_k * frame.n_band * frame.n_band <= usize::MAX && !frame.k_points_finite
            ==> r == Err::<(Vec<i32>, usize), CoquiPreflightError>(CoquiPreflightError::IncompatibleInputs),
        frame.strategy_all_q_l2 && frame.engine_full_pivoted && frame.pair_n_k == frame.n_k && frame.pair_n_orb == frame.n_band
            && frame.n_k * frame.n_band * frame.n_band <= usize::MAX && frame.k_points_finite ==> {
            let n_columns = (frame.n_k * frame.n_band * frame.n_band) as usize;
            match r {
                Err(CoquiPreflightError::Transfer(e)) => exists|iq: int| #[trigger] first_bad_q(frame.n_k, n_columns, qs@, iq)
                    && q_error(frame.n_k, n_columns, qs@[iq], iq as usize) == Some(e),
                Err(_) => false,
                Ok((table, c)) => {
                    &&& c == n_columns
                    &&& forall|iq: int| 0 <= iq < qs.len() ==> (#[trigger] q_error(frame.n_k, n_columns, qs@[iq], iq as usize)) is None
                    &&& table.len() == qs.len() * frame.n_k
                    &&& forall|iq: int, k: int| 0 <= iq < qs.len() && 0 <= k < frame.n_k
                        ==> #[trigger] table@[iq * frame.n_k + k] == qs@[iq].k_minus_q@[k].1
                },
            }
        },
{
    if !frame.strategy_all_q_l2 {
        return Err(CoquiPreflightError::UnsupportedStrategy);
    }
    if !frame.engine_full_pivoted {
        return Err(CoquiPreflightError::UnsupportedEngine);
    }
    let n_k = frame.n_k;
    let n_band = frame.n_band;
    if frame.pair_n_k != n_k || frame.pair_n_orb != n_band {
        return Err(CoquiPreflightError::IncompatibleInputs);
    }
    let n_columns = match n_k.checked_mul(n_band) {
        None => {
            assert(n_k * n_band * n_band > usize::MAX) by (nonlinear_arith)
                requires
                    n_k * n_band > usize::MAX,
                    n_k <= usize::MAX,
                    n_band >= 0,
            ;
            return Err(CoquiPreflightError::PairColumnOverflow);
        },
        Some(a) => match a.checked_mul(n_band) {
            None => {
                return Err(CoquiPreflightError::PairColumnOverflow);
            },
            Some(c) => c,
        },
    };
    if !frame.k_points_finite {
        return Err(CoquiPreflightError::IncompatibleInputs);
    }
    match coqui_k_minus_q_table(n_k, n_columns, qs) {
        Err(e) => Err(CoquiPreflightError::Transfer(e)),
        Ok(table) => Ok((table, n_columns)),
    }
}

} // verus!
