//! Scalar APW/LO site-coordinate identity shared by the scalar mixed-product
//! and THC stages.
//!
//! Site-projection rows are the APW `u` (`n = 0`) and `udot` (`n = 1`)
//! functions interleaved in contiguous `lm` order, then the site's local
//! orbitals in `(l, m, ordinal)` order with `n = 2 + ordinal`.
use vstd::prelude::*;

verus! {

/// `ProductRadial.n` of the scalar linearization function `u`.
pub const SCALAR_RADIAL_U: usize = 0;

/// `ProductRadial.n` of the energy derivative `udot`.
pub const SCALAR_RADIAL_UDOT: usize = 1;

/// First local-orbital `ProductRadial.n`; later ordinals follow.
pub const SCALAR_RADIAL_LO0: usize = 2;

/// Whether a product orbital belongs to the valence or to the core.
#[derive(Clone, Copy, Debug, PartialEq, Eq, Structural)]
pub enum ProductOrbitalKind {
    Valence,
    Core,
}

/// Identity of one scalar product radial: site, kind, `l`, radial ordinal
/// `n` and collinear spin.
#[derive(Clone, Copy, Debug, PartialEq, Eq, Structural)]
pub struct ProductRadialId {
    pub site: usize,
    pub kind: ProductOrbitalKind,
    pub l: u32,
    pub n: usize,
    pub spin: u8,
}

/// Angular momentum pair of a combined `lm` index.
#[derive(Clone, Copy, Debug, PartialEq, Eq, Structural)]
pub struct Lm {
    pub l: u32,
    pub m: i32,
}

/// `lm` index of `(l, m)`: `l^2 + l + m`.
pub open spec fn spec_lm_index(l: int, m: int) -> int {
    l * l + l + m
}

/// The `(l, m)` of a combined index: the unique `l` with
/// `l^2 <= index < (l + 1)^2`, and `m = index - l^2 - l`.
pub open spec fn is_lm_of(index: int, l: int, m: int) -> bool {
    &&& 0 <= l
    &&& l * l <= index < (l + 1) * (l + 1)
    &&& m == index - l * l - l
}

/// Split a combined `lm` index (`l` slow, `m` ascending from `-l`); the
/// index must lie below `(2^31)^2`, where `l` and `m` fit 32 bits.
pub fn lm_from_index(index: usize) -> (lm: Lm)
    requires
        index < 0x4000_0000_0000_0000,
    ensures
        is_lm_of(index as int, lm.l as int, lm.m as int),
        index == spec_lm_index(lm.l as int, lm.m as int),
        -(lm.l as int) <= lm.m <= lm.l,
{
    let idx: u64 = index as u64;
    let mut l: u64 = 0;
    while (l + 1) * (l + 1) <= idx
        invariant
            idx < 0x4000_0000_0000_0000,
            l * l <= idx,
            l < 0x8000_0000,
            (l + 1) * (l + 1) <= 0x4000_0000_0000_0000,
        decreases idx - l,
    {
        assert((l + 1) <= (l + 1) * (l + 1)) by (nonlinear_arith)
            requires
                l >= 0,
        ;
        assert(l + 1 < 0x8000_0000) by (nonlinear_arith)
            requires
                (l + 1) * (l + 1) <= idx,
                idx < 0x4000_0000_0000_0000,
                l >= 0,
        ;
        l = l + 1;
        assert((l + 1) * (l + 1) <= 0x4000_0000_0000_0000) by (nonlinear_arith)
            requires
                l < 0x8000_0000,
                l >= 0,
        ;
    }
    assert(l * l <= 0x3fff_ffff_0000_0001) by (nonlinear_arith)
        requires
            l < 0x8000_0000,
            l >= 0,
    ;
    let m: i64 = (idx as i64) - ((l * l) as i64) - (l as i64);
    assert(m <= l) by (nonlinear_arith)
        requires
            idx < (l + 1) * (l + 1),
            m == idx - l * l - l,
    ;
    Lm { l: l as u32, m: m as i32 }
}

/// Start of the `l` block of a local-orbital layout with `counts[l']`
/// orbitals per `l'`: `sum_{l' < l} (2l' + 1) counts[l']`.
pub open spec fn lo_block_start(counts: Seq<usize>, l: int) -> int
    decreases l,
{
    if l <= 0 {
        0
    } else {
        lo_block_start(counts, l - 1) + (2 * (l - 1) + 1) * counts[l - 1]
    }
}

/// Total number of local-orbital rows of a layout.
pub open spec fn lo_total(counts: Seq<usize>) -> int {
    lo_block_start(counts, counts.len() as int)
}

/// `(l, m, ordinal)` is the local orbital at `local_index` of the layout:
/// its `l` block is nonempty, `m` is in `-l..=l`, the ordinal is below the
/// block's count, and the row is `start(l) + (m + l) count + ordinal`.
pub open spec fn is_lo_row(counts: Seq<usize>, local_index: int, l: int, m: int, ordinal: int) -> bool {
    &&& 0 <= l < counts.len()
    &&& counts[l] > 0
    &&& -l <= m <= l
    &&& 0 <= ordinal < counts[l]
    &&& local_index == lo_block_start(counts, l) + (m + l) * counts[l] + ordinal
}

proof fn lemma_block_start_monotone(counts: Seq<usize>, a: int, b: int)
    requires
        0 <= a <= b <= counts.len(),
    ensures
        lo_block_start(counts, a) <= lo_block_start(counts, b),
    decreases b - a,
{
    if a < b {
        lemma_block_start_monotone(counts, a, b - 1);
        assert((2 * (b - 1) + 1) * counts[b - 1] >= 0) by (nonlinear_arith)
            requires
                b >= 1,
                counts[b - 1] >= 0,
        ;
    }
}

/// Invert a local-orbital row to `(l, m, ordinal)`, or `None` past the last
/// row of the layout.
pub fn lo_quantum_numbers(counts: &Vec<usize>, local_index: usize) -> (r: Option<(u32, i32, usize)>)
    requires
        counts.len() <= 0x7fff_ffff,
        lo_total(counts@) <= usize::MAX,
    ensures
        match r {
            Some((l, m, ordinal)) => is_lo_row(counts@, local_index as int, l as int, m as int, ordinal as int),
            None => local_index >= lo_total(counts@),
        },
{
    let mut remaining: usize = local_index;
    let mut l: usize = 0;
    while l < counts.len()
        invariant
            l <= counts.len(),
            counts.len() <= 0x7fff_ffff,
            lo_total(counts@) <= usize::MAX,
            local_index >= lo_block_start(counts@, l as int),
            remaining == local_index - lo_block_start(counts@, l as int),
        decreases counts.len() - l,
    {
        let count = counts[l];
        proof {
            lemma_block_start_monotone(counts@, l as int + 1, counts.len() as int);
            lemma_block_start_monotone(counts@, 0, l as int);
            assert(lo_block_start(counts@, l as int + 1) == lo_block_start(counts@, l as int) + (2 * l + 1) * count);
            assert((2 * l + 1) * count >= 0) by (nonlinear_arith)
                requires
                    l >= 0,
                    count >= 0,
            ;
        }
        if count != 0 {
            let stride = (2 * l + 1) * count;
            if remaining < stride {
                let m_block = remaining / count;
                let n = remaining % count;
                proof {
                    assert(remaining == m_block * count + n) by (nonlinear_arith)
                        requires
                            count > 0,
                            m_block == remaining / count,
                            n == remaining % count,
                    ;
                    assert(m_block < 2 * l + 1) by (nonlinear_arith)
                        requires
                            count > 0,
                            m_block == remaining / count,
                            remaining < (2 * l + 1) * count,
                    ;
                }
                let m: i64 = m_block as i64 - l as i64;
                return Some((l as u32, m as i32, n));
            }
            remaining = remaining - stride;
        }
        l = l + 1;
    }
    None
}

/// Per-site shape of a compiled scalar basis: the number of `lm` matching
/// coefficients of the site's first augmentation wave (zero when the site
/// has none) and the site's local-orbital counts by `l`, when present.
#[derive(Clone, Debug)]
pub struct ScalarSiteShape {
    pub lm_count: usize,
    pub lo_counts_by_l: Option<Vec<usize>>,
}

/// The shape is small enough for 32-bit `l`, `m` and for its row count.
pub open spec fn site_shape_fits(shape: ScalarSiteShape) -> bool {
    &&& shape.lm_count <= 0x4000_0000_0000_0000
    &&& 2 * shape.lm_count <= usize::MAX
    &&& shape.lo_counts_by_l matches Some(counts) ==> {
        &&& counts.len() <= 0x7fff_ffff
        &&& lo_total(counts@) < usize::MAX - 1
    }
}

/// The radial identity and `m` of site-projection row `coord`.
pub open spec fn is_site_coordinate(
    shape: ScalarSiteShape,
    site: usize,
    spin: u8,
    coord: int,
    id: ProductRadialId,
    m: int,
) -> bool {
    &&& id.site == site
    &&& id.kind == ProductOrbitalKind::Valence
    &&& id.spin == spin
    &&& if coord < 2 * shape.lm_count {
        &&& is_lm_of(coord / 2, id.l as int, m)
        &&& id.n == (if coord % 2 == 0 { SCALAR_RADIAL_U } else { SCALAR_RADIAL_UDOT })
    } else {
        &&& shape.lo_counts_by_l matches Some(counts)
        &&& id.n >= SCALAR_RADIAL_LO0
        &&& is_lo_row(counts@, coord - 2 * shape.lm_count, id.l as int, m, id.n - SCALAR_RADIAL_LO0)
    }
}

/// Map a scalar site-projection row of site `site` to its product radial
/// and `m`; `None` when the row lies past the site's last local orbital or
/// the site has no local-orbital layout.
pub fn site_coordinate(shape: &ScalarSiteShape, site: usize, spin: u8, coord: usize) -> (r: Option<(ProductRadialId, i32)>)
    requires
        site_shape_fits(*shape),
    ensures
        match r {
            Some((id, m)) => is_site_coordinate(*shape, site, spin, coord as int, id, m as int),
            None => {
                &&& coord >= 2 * shape.lm_count
                &&& shape.lo_counts_by_l matches Some(counts) ==> coord - 2 * shape.lm_count >= lo_total(counts@)
            },
        },
{
    let n_lm = shape.lm_count;
    if coord < 2 * n_lm {
        let lm = lm_from_index(coord / 2);
        let n = if coord % 2 == 0 { SCALAR_RADIAL_U } else { SCALAR_RADIAL_UDOT };
        return Some((ProductRadialId { site, kind: ProductOrbitalKind::Valence, l: lm.l, n, spin }, lm.m));
    }
    match &shape.lo_counts_by_l {
        None => None,
        Some(counts) => {
            match lo_quantum_numbers(counts, coord - 2 * n_lm) {
                None => None,
                Some((l, m, ordinal)) => {
                    assert(ordinal < counts@[l as int]);
                    assert(counts@[l as int] <= lo_total(counts@)) by {
                        lemma_count_below_total(counts@, l as int);
                    }
                    Some((ProductRadialId { site, kind: ProductOrbitalKind::Valence, l, n: SCALAR_RADIAL_LO0 + ordinal, spin }, m))
                },
            }
        },
    }
}

proof fn lemma_count_below_total(counts: Seq<usize>, l: int)
    requires
        0 <= l < counts.len(),
    ensures
        counts[l] <= lo_total(counts),
{
    lemma_block_start_monotone(counts, l + 1, counts.len() as int);
    assert((2 * l + 1) * counts[l] >= counts[l]) by (nonlinear_arith)
        requires
            l >= 0,
            counts[l] >= 0,
    ;
    lemma_block_start_monotone(counts, 0, l);
}

} // verus!
