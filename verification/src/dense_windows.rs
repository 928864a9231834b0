//! Band windows of dense column-major coefficient matrices: the leading
//! bands of an eigensolution, band selections laid out row-major for the
//! pair contractions and the MLDUMP orbital block, and the two spin halves
//! of a second-variation eigenvector matrix.
//!
//! Entries are opaque values of any `Copy` type (complex amplitudes in
//! practice); only their positions are computed here.
use vstd::prelude::*;

verus! {

/// A dense `rows x columns` matrix stored column-major: entry `(r, c)` is
/// `values[c * rows + r]`.
#[derive(Debug)]
pub struct DenseMatrix<T> {
    pub rows: usize,
    pub columns: usize,
    pub values: Vec<T>,
}

impl<T> DenseMatrix<T> {
    /// The storage holds exactly `rows * columns` entries.
    pub open spec fn wf(&self) -> bool {
        self.values.len() == self.rows * self.columns
    }

    /// Entry `(r, c)`.
    pub open spec fn entry(&self, r: int, c: int) -> T {
        self.values@[c * self.rows + r]
    }
}

/// Flat position of cell `(r, j)` of a row-major layout of the given width.
pub open spec fn cell(r: int, width: int, j: int) -> int {
    r * width + j
}

/// The matrix has fewer bands than the window asks for.
#[derive(Clone, Copy, Debug, PartialEq, Eq, Structural)]
pub struct InconsistentBandCount;

proof fn lemma_cell_below(r: int, width: int, j: int, limit: int)
    requires
        0 <= r < limit,
        0 <= j < width,
    ensures
        0 <= cell(r, width, j) < limit * width,
{
    assert(r * width + j < (r + 1) * width) by (nonlinear_arith)
        requires
            0 <= j < width,
    ;
    assert((r + 1) * width <= limit * width) by (nonlinear_arith)
        requires
            r + 1 <= limit,
            0 <= width,
    ;
    assert(0 <= r * width) by (nonlinear_arith)
        requires
            0 <= r,
            0 <= width,
    ;
}

proof fn lemma_column_major_index(r: int, c: int, rows: int, columns: int)
    requires
        0 <= r < rows,
        0 <= c < columns,
    ensures
        0 <= c * rows + r < rows * columns,
{
    lemma_cell_below(c, rows, r, columns);
    assert(columns * rows == rows * columns) by (nonlinear_arith);
}

/// The first `n_orb` bands (columns) of a matrix, or
/// [`InconsistentBandCount`] when it has fewer.
pub fn leading_bands<T: Copy>(m: &DenseMatrix<T>, n_orb: usize) -> (r: Result<DenseMatrix<T>, InconsistentBandCount>)
    requires
        m.wf(),
    ensures
        match r {
            Ok(w) => {
                &&& n_orb <= m.columns
                &&& w.rows == m.rows
                &&& w.columns == n_orb
                &&& w.wf()
                &&& w.values@ == m.values@.subrange(0, m.rows * n_orb)
                &&& forall|i: int, c: int| 0 <= i < m.rows && 0 <= c < n_orb ==> #[trigger] w.entry(i, c) == m.entry(i, c)
            },
            Err(_) => m.columns < n_orb,
        },
{
    if m.columns < n_orb {
        return Err(InconsistentBandCount);
    }
    proof {
        assert(m.rows * n_orb <= m.rows * m.columns) by (nonlinear_arith)
            requires
                n_orb <= m.columns,
        ;
    }
    let count: usize = m.rows * n_orb;
    let mut values: Vec<T> = Vec::new();
    let mut i: usize = 0;
    while i < count
        invariant
            m.wf(),
            count == m.rows * n_orb,
            count <= m.values.len(),
            i <= count,
            values@ == m.values@.subrange(0, i as int),
        decreases count - i,
    {
        values.push(m.values[i]);
        i = i + 1;
        assert(values@ =~= m.values@.subrange(0, i as int));
    }
    let w = DenseMatrix { rows: m.rows, columns: n_orb, values };
    assert forall|i: int, c: int| 0 <= i < m.rows && 0 <= c < n_orb implies #[trigger] w.entry(i, c) == m.entry(i, c) by {
        lemma_column_major_index(i, c, m.rows as int, n_orb as int);
    }
    Ok(w)
}

/// The entries of the first `row_count` rows at the given bands, row-major
/// with one row per matrix row and one column per listed band.
pub fn select_plane_wave_bands<T: Copy>(m: &DenseMatrix<T>, row_count: usize, bands: &Vec<usize>) -> (out: Vec<T>)
    requires
        m.wf(),
        row_count <= m.rows,
        forall|j: int| 0 <= j < bands.len() ==> #[trigger] bands@[j] < m.columns,
        row_count * bands.len() <= usize::MAX,
    ensures
        out.len() == row_count * bands.len(),
        forall|r: int, j: int| 0 <= r < row_count && 0 <= j < bands.len()
            ==> out@[#[trigger] cell(r, bands.len() as int, j)] == m.entry(r, bands@[j] as int),
{
    let width: usize = bands.len();
    let mut out: Vec<T> = Vec::new();
    let mut r: usize = 0;
    while r < row_count
        invariant
            m.wf(),
            row_count <= m.rows,
            width == bands.len(),
            forall|j: int| 0 <= j < bands.len() ==> #[trigger] bands@[j] < m.columns,
            r <= row_count,
            out.len() == r * width,
            forall|r2: int, j2: int| 0 <= r2 < r && 0 <= j2 < width
                ==> out@[#[trigger] cell(r2, width as int, j2)] == m.entry(r2, bands@[j2] as int),
        decreases row_count - r,
    {
        let mut j: usize = 0;
        while j < width
            invariant
                m.wf(),
                r < row_count <= m.rows,
                width == bands.len(),
                forall|j: int| 0 <= j < bands.len() ==> #[trigger] bands@[j] < m.columns,
                j <= width,
                out.len() == r * width + j,
                forall|r2: int, j2: int| 0 <= r2 < r && 0 <= j2 < width
                    ==> out@[#[trigger] cell(r2, width as int, j2)] == m.entry(r2, bands@[j2] as int),
                forall|j2: int| 0 <= j2 < j
                    ==> out@[#[trigger] cell(r as int, width as int, j2)] == m.entry(r as int, bands@[j2] as int),
            decreases width - j,
        {
            let c: usize = bands[j];
            proof { lemma_column_major_index(r as int, c as int, m.rows as int, m.columns as int); }
            let ghost before = out@;
            out.push(m.values[c * m.rows + r]);
            proof {
                assert forall|r2: int, j2: int| 0 <= r2 < r && 0 <= j2 < width
                    implies out@[#[trigger] cell(r2, width as int, j2)] == m.entry(r2, bands@[j2] as int) by {
                    lemma_cell_below(r2, width as int, j2, r as int);
                    assert(out@[cell(r2, width as int, j2)] == before[cell(r2, width as int, j2)]);
                }
                assert forall|j2: int| 0 <= j2 < j + 1
                    implies out@[#[trigger] cell(r as int, width as int, j2)] == m.entry(r as int, bands@[j2] as int) by {
                    if j2 < j {
                        assert(out@[cell(r as int, width as int, j2)] == before[cell(r as int, width as int, j2)]);
                    }
                }
            }
            j = j + 1;
        }
        proof {
            assert((r + 1) * width == r * width + width) by (nonlinear_arith);
            assert((r + 1) * width <= row_count * width) by (nonlinear_arith)
                requires
                    r + 1 <= row_count,
            ;
        }
        r = r + 1;
    }
    out
}

/// The entries of every row at the given bands, row-major (one row per
/// matrix row, one column per listed band).
pub fn select_site_bands<T: Copy>(m: &DenseMatrix<T>, bands: &Vec<usize>) -> (out: Vec<T>)
    requires
        m.wf(),
        forall|j: int| 0 <= j < bands.len() ==> #[trigger] bands@[j] < m.columns,
        m.rows * bands.len() <= usize::MAX,
    ensures
        out.len() == m.rows * bands.len(),
        forall|r: int, j: int| 0 <= r < m.rows && 0 <= j < bands.len()
            ==> out@[#[trigger] cell(r, bands.len() as int, j)] == m.entry(r, bands@[j] as int),
{
    select_plane_wave_bands(m, m.rows, bands)
}

/// The leading `n_orb` bands of every row, row-major (`n_orb` entries per
/// row), or [`InconsistentBandCount`] when the matrix has fewer bands.
pub fn flatten_eigenvectors<T: Copy>(m: &DenseMatrix<T>, n_orb: usize) -> (r: Result<Vec<T>, InconsistentBandCount>)
    requires
        m.wf(),
    ensures
        match r {
            Ok(out) => {
                &&& n_orb <= m.columns
                &&& out.len() == m.rows * n_orb
                &&& forall|i: int, b: int| 0 <= i < m.rows && 0 <= b < n_orb
                    ==> out@[#[trigger] cell(i, n_orb as int, b)] == m.entry(i, b)
            },
            Err(_) => m.columns < n_orb,
        },
{
    if m.columns < n_orb {
        return Err(InconsistentBandCount);
    }
    proof {
        assert(m.rows * n_orb <= m.rows * m.columns) by (nonlinear_arith)
            requires
                n_orb <= m.columns,
        ;
    }
    let mut bands: Vec<usize> = Vec::new();
    let mut b: usize = 0;
    while b < n_orb
        invariant
            b <= n_orb,
            bands.len() == b,
            forall|j: int| 0 <= j < b ==> #[trigger] bands@[j] == j,
        decreases n_orb - b,
    {
        bands.push(b);
        b = b + 1;
    }
    let out = select_plane_wave_bands(m, m.rows, &bands);
    Ok(out)
}

/// The two spin halves of a second-variation eigenvector matrix: rows
/// `spin * (rows / 2) + row` for `row < rows / 2`, every band kept, each
/// half column-major.
pub fn split_second_variation<T: Copy>(m: &DenseMatrix<T>) -> (halves: (DenseMatrix<T>, DenseMatrix<T>))
    requires
        m.wf(),
    ensures
        halves.0.rows == m.rows / 2 && halves.1.rows == m.rows / 2,
        halves.0.columns == m.columns && halves.1.columns == m.columns,
        halves.0.wf() && halves.1.wf(),
        forall|i: int, c: int| 0 <= i < m.rows / 2 && 0 <= c < m.columns
            ==> #[trigger] halves.0.entry(i, c) == m.entry(i, c),
        forall|i: int, c: int| 0 <= i < m.rows / 2 && 0 <= c < m.columns
            ==> #[trigger] halves.1.entry(i, c) == m.entry(m.rows / 2 + i, c),
{
    let up = spin_half(m, 0);
    let down = spin_half(m, 1);
    (up, down)
}

fn spin_half<T: Copy>(m: &DenseMatrix<T>, spin: usize) -> (h: DenseMatrix<T>)
    requires
        m.wf(),
        spin < 2,
    ensures
        h.rows == m.rows / 2,
        h.columns == m.columns,
        h.wf(),
        forall|i: int, c: int| 0 <= i < m.rows / 2 && 0 <= c < m.columns
            ==> #[trigger] h.entry(i, c) == m.entry(spin * (m.rows / 2) + i, c),
{
    let half: usize = m.rows / 2;
    proof {
        assert(half * m.columns <= m.rows * m.columns) by (nonlinear_arith)
            requires
                half <= m.rows,
        ;
    }
    let mut values: Vec<T> = Vec::new();
    let mut c: usize = 0;
    while c < m.columns
        invariant
            m.wf(),
            spin < 2,
            half == m.rows / 2,
            c <= m.columns,
            values.len() == c * half,
            forall|c2: int, i2: int| 0 <= c2 < c && 0 <= i2 < half
                ==> values@[#[trigger] cell(c2, half as int, i2)] == m.entry(spin * half + i2, c2),
        decreases m.columns - c,
    {
        let mut i: usize = 0;
        while i < half
            invariant
                m.wf(),
                spin < 2,
                half == m.rows / 2,
                c < m.columns,
                i <= half,
                values.len() == c * half + i,
                forall|c2: int, i2: int| 0 <= c2 < c && 0 <= i2 < half
                    ==> values@[#[trigger] cell(c2, half as int, i2)] == m.entry(spin * half + i2, c2),
                forall|i2: int| 0 <= i2 < i
                    ==> values@[#[trigger] cell(c as int, half as int, i2)] == m.entry(spin * half + i2, c as int),
            decreases half - i,
        {
            assert(spin * half + i < m.rows) by (nonlinear_arith)
                requires
                    spin < 2,
                    0 <= i < half,
                    half == m.rows / 2,
            ;
            let row: usize = spin * half + i;
            proof { lemma_column_major_index(row as int, c as int, m.rows as int, m.columns as int); }
            let ghost before = values@;
            values.push(m.values[c * m.rows + row]);
            proof {
                assert forall|c2: int, i2: int| 0 <= c2 < c && 0 <= i2 < half
                    implies values@[#[trigger] cell(c2, half as int, i2)] == m.entry(spin * half + i2, c2) by {
                    lemma_cell_below(c2, half as int, i2, c as int);
                    assert(values@[cell(c2, half as int, i2)] == before[cell(c2, half as int, i2)]);
                }
                assert forall|i2: int| 0 <= i2 < i + 1
                    implies values@[#[trigger] cell(c as int, half as int, i2)] == m.entry(spin * half + i2, c as int) by {
                    if i2 < i {
                        assert(values@[cell(c as int, half as int, i2)] == before[cell(c as int, half as int, i2)]);
                    }
                }
            }
            i = i + 1;
        }
        proof {
            assert((c + 1) * half == c * half + half) by (nonlinear_arith);
            assert((c + 1) * half <= m.columns * half) by (nonlinear_arith)
                requires
                    c + 1 <= m.columns,
            ;
        }
        c = c + 1;
    }
    let h = DenseMatrix { rows: half, columns: m.columns, values };
    proof {
        assert(half * m.columns == m.columns * half) by (nonlinear_arith);
        assert forall|i: int, c2: int| 0 <= i < half && 0 <= c2 < m.columns
            implies #[trigger] h.entry(i, c2) == m.entry(spin * half + i, c2) by {
            assert(h.entry(i, c2) == values@[cell(c2, half as int, i)]);
        }
    }
    h
}

} // verus!
