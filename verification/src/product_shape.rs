//! Shape validation of a frozen spinor product input: one entry per k-point
//! in every per-k table, a leading band window shared with the pair-column
//! layout, and per k-point eigenvectors that match the compiled basis and
//! the window; and the admission of a q slice of such inputs, one per
//! transfer, sharing one frozen frame.
use vstd::prelude::*;
use crate::selection::SpinorBandWindow;
use crate::q_map::CanonicalQMapError;

verus! {

/// Shape of one k-point of a frozen spinor product input.
#[derive(Clone, Copy, Debug, PartialEq, Eq, Structural)]
pub struct SpinorKPointShape {
    /// Rows and columns of the k-point's eigenvector matrix.
    pub eigenvector_rows: usize,
    pub eigenvector_columns: usize,
    /// Dimension of the k-point's compiled basis.
    pub basis_dimension: usize,
}

/// What the validation reads of a frozen spinor product input.
#[derive(Debug)]
pub struct SpinorProductShape {
    /// The product source passed its own validation.
    pub source_valid: bool,
    /// The source's transfer equals that of its interstitial pair support.
    pub transfer_q_matches: bool,
    /// Number of k-points of the frozen orbitals.
    pub n_k: usize,
    /// Per k-point eigenvector and basis shapes.
    pub k_points: Vec<SpinorKPointShape>,
    /// Per k-point number of stored orbital energies.
    pub energy_counts: Vec<usize>,
    /// Number of per-k compiled bases.
    pub basis_count: usize,
    /// Per k-point number of available solved bands.
    pub available_bands: Vec<usize>,
    /// The `k - q` map entries `(k_index, kq_index)`.
    pub k_minus_q: Vec<(usize, usize)>,
    /// The common band window.
    pub band_window: SpinorBandWindow,
    /// k-points and bands of the pair-column layout.
    pub pair_n_k: usize,
    pub pair_n_orb: usize,
}

/// Rejections of a frozen spinor product input, in the order they are checked.
#[derive(Clone, Copy, Debug, PartialEq, Eq, Structural)]
pub enum SpinorProductShapeError {
    /// The product source failed its own validation.
    Source,
    /// The source and its pair support disagree on the transfer.
    TransferQMismatch,
    /// A per-k table does not have one entry per k-point, or a k-point's
    /// shapes disagree with its basis, the window or the `k - q` map.
    KSliceMismatch,
    /// The window does not start at band 0 or differs from the layout's.
    InconsistentBandCount,
    /// The window holds no band.
    EmptyKPointSet,
    /// The pair-column count `n_k n_orb^2` does not fit `usize`.
    PairColumnOverflow,
}

/// Every per-k table has one entry per k-point, and there is one.
pub open spec fn k_tables_complete(s: SpinorProductShape) -> bool {
    &&& s.n_k != 0
    &&& s.k_points.len() == s.n_k
    &&& s.energy_counts.len() == s.n_k
    &&& s.basis_count == s.n_k
    &&& s.available_bands.len() == s.n_k
    &&& s.k_minus_q.len() == s.n_k
    &&& s.pair_n_k == s.n_k
}

/// k-point `k` agrees with its basis, the window and the `k - q` map.
pub open spec fn k_point_consistent(s: SpinorProductShape, k: int) -> bool {
    let n_orb = s.band_window.count;
    let p = s.k_points@[k];
    &&& p.eigenvector_rows == p.basis_dimension
    &&& p.eigenvector_columns == n_orb
    &&& s.energy_counts@[k] == n_orb
    &&& s.available_bands@[k] >= n_orb
    &&& s.k_minus_q@[k].0 == k
    &&& s.k_minus_q@[k].1 < s.n_k
}

/// The verdict on a frozen spinor product input.
pub open spec fn spinor_product_verdict(s: SpinorProductShape) -> Result<(), SpinorProductShapeError> {
    let n_orb = s.band_window.count;
    if !s.source_valid {
        Err(SpinorProductShapeError::Source)
    } else if !s.transfer_q_matches {
        Err(SpinorProductShapeError::TransferQMismatch)
    } else if !k_tables_complete(s) {
        Err(SpinorProductShapeError::KSliceMismatch)
    } else if s.band_window.start != 0 || s.pair_n_orb != n_orb {
        Err(SpinorProductShapeError::InconsistentBandCount)
    } else if n_orb == 0 {
        Err(SpinorProductShapeError::EmptyKPointSet)
    } else if s.n_k * n_orb * n_orb > usize::MAX {
        Err(SpinorProductShapeError::PairColumnOverflow)
    } else if exists|k: int| 0 <= k < s.n_k && !#[trigger] k_point_consistent(s, k) {
        Err(SpinorProductShapeError::KSliceMismatch)
    } else {
        Ok(())
    }
}

/// An accepted spinor product input has, at every k-point, one stored
/// energy and one eigenvector column per window band, at least as many
/// available bands, eigenvector rows matching its basis, and a `k - q`
/// entry that keeps `k` and maps into the mesh; its window starts at band
/// 0 and matches the pair layout, and every per-k table has one entry per
/// k-point.
pub proof fn lemma_accepted_product_shape(s: SpinorProductShape)
    requires
        spinor_product_verdict(s) is Ok,
    ensures
        s.source_valid && s.transfer_q_matches,
        s.n_k > 0,
        s.k_points.len() == s.n_k && s.energy_counts.len() == s.n_k && s.available_bands.len() == s.n_k,
        s.k_minus_q.len() == s.n_k && s.basis_count == s.n_k && s.pair_n_k == s.n_k,
        s.band_window.start == 0 && s.band_window.count > 0 && s.pair_n_orb == s.band_window.count,
        forall|k: int| #![trigger s.energy_counts@[k]] 0 <= k < s.n_k ==> s.energy_counts@[k] == s.band_window.count,
        forall|k: int| #![trigger s.k_points@[k]] 0 <= k < s.n_k ==> s.k_points@[k].eigenvector_columns == s.band_window.count
            && s.k_points@[k].eigenvector_rows == s.k_points@[k].basis_dimension,
        forall|k: int| #![trigger s.available_bands@[k]] 0 <= k < s.n_k ==> s.available_bands@[k] >= s.band_window.count,
        forall|k: int| #![trigger s.k_minus_q@[k]] 0 <= k < s.n_k ==> s.k_minus_q@[k].0 == k && s.k_minus_q@[k].1 < s.n_k,
{
    assert(k_tables_complete(s));
    assert forall|k: int| 0 <= k < s.n_k implies #[trigger] k_point_consistent(s, k) by {}
    assert forall|k: int| #![trigger s.energy_counts@[k]] 0 <= k < s.n_k implies s.energy_counts@[k] == s.band_window.count by {
        assert(k_point_consistent(s, k));
    }
    assert forall|k: int| #![trigger s.k_points@[k]] 0 <= k < s.n_k implies s.k_points@[k].eigenvector_columns == s.band_window.count
        && s.k_points@[k].eigenvector_rows == s.k_points@[k].basis_dimension by {
        assert(k_point_consistent(s, k));
    }
    assert forall|k: int| #![trigger s.available_bands@[k]] 0 <= k < s.n_k implies s.available_bands@[k] >= s.band_window.count by {
        assert(k_point_consistent(s, k));
    }
    assert forall|k: int| #![trigger s.k_minus_q@[k]] 0 <= k < s.n_k implies s.k_minus_q@[k].0 == k && s.k_minus_q@[k].1 < s.n_k by {
        assert(k_point_consistent(s, k));
    }
}

/// A spinor product input is accepted whenever its source and transfer are
/// valid, every per-k table has one entry per k-point, the window starts
/// at band 0, holds a band and matches the pair layout, the pair columns
/// fit `usize`, and every k-point stores one energy and one eigenvector
/// column per window band, has enough bands, eigenvector rows matching its
/// basis and a `k - q` entry that keeps `k` inside the mesh. Under the
/// same table and window conditions, one k-point with another number of
/// stored energies than window bands rejects the input as a k-slice
/// mismatch.
pub proof fn lemma_product_shape_acceptance(s: SpinorProductShape)
    ensures
        ({
            &&& s.source_valid && s.transfer_q_matches
            &&& s.n_k > 0
            &&& s.k_points.len() == s.n_k && s.energy_counts.len() == s.n_k && s.available_bands.len() == s.n_k
            &&& s.k_minus_q.len() == s.n_k && s.basis_count == s.n_k && s.pair_n_k == s.n_k
            &&& s.band_window.start == 0 && s.band_window.count > 0 && s.pair_n_orb == s.band_window.count
            &&& s.n_k * s.band_window.count * s.band_window.count <= usize::MAX
            &&& forall|k: int| 0 <= k < s.n_k ==> {
                let p = #[trigger] s.k_points@[k];
                &&& p.eigenvector_rows == p.basis_dimension
                &&& p.eigenvector_columns == s.band_window.count
                &&& s.energy_counts@[k] == s.band_window.count
                &&& s.available_bands@[k] >= s.band_window.count
                &&& s.k_minus_q@[k].0 == k
                &&& s.k_minus_q@[k].1 < s.n_k
            }
        }) ==> spinor_product_verdict(s) == Ok::<(), SpinorProductShapeError>(()),
        ({
            &&& s.source_valid && s.transfer_q_matches
            &&& s.n_k > 0
            &&& s.k_points.len() == s.n_k && s.energy_counts.len() == s.n_k && s.available_bands.len() == s.n_k
            &&& s.k_minus_q.len() == s.n_k && s.basis_count == s.n_k && s.pair_n_k == s.n_k
            &&& s.band_window.start == 0 && s.band_window.count > 0 && s.pair_n_orb == s.band_window.count
            &&& s.n_k * s.band_window.count * s.band_window.count <= usize::MAX
            &&& exists|k: int| 0 <= k < s.n_k && #[trigger] s.energy_counts@[k] != s.band_window.count
        }) ==> spinor_product_verdict(s) == Err::<(), SpinorProductShapeError>(SpinorProductShapeError::KSliceMismatch),
{
    if exists|k: int| 0 <= k < s.n_k && #[trigger] s.energy_counts@[k] != s.band_window.count {
        let k = choose|k: int| 0 <= k < s.n_k && #[trigger] s.energy_counts@[k] != s.band_window.count;
        assert(!k_point_consistent(s, k));
    }
}

/// Validate the shape of a frozen spinor product input; the result is
/// exactly [`spinor_product_verdict`].
pub fn validate_spinor_product_shape(s: &SpinorProductShape) -> (r: Result<(), SpinorProductShapeError>)
    ensures
        r == spinor_product_verdict(*s),
        r is Ok ==> s.energy_counts.len() == s.n_k
            && forall|k: int| #![trigger s.energy_counts@[k]] 0 <= k < s.n_k ==> s.energy_counts@[k] == s.band_window.count,
        r is Ok ==> forall|k: int| #![trigger s.k_points@[k]] 0 <= k < s.n_k ==> s.k_points@[k].eigenvector_columns == s.band_window.count
            && s.k_points@[k].eigenvector_rows == s.k_points@[k].basis_dimension,
{
    proof { if spinor_product_verdict(*s) is Ok { lemma_accepted_product_shape(*s); } }
    if !s.source_valid {
        return Err(SpinorProductShapeError::Source);
    }
    if !s.transfer_q_matches {
        return Err(SpinorProductShapeError::TransferQMismatch);
    }
    let n_k = s.n_k;
    if n_k == 0 || s.k_points.len() != n_k || s.energy_counts.len() != n_k || s.basis_count != n_k
        || s.available_bands.len() != n_k || s.k_minus_q.len() != n_k || s.pair_n_k != n_k {
        return Err(SpinorProductShapeError::KSliceMismatch);
    }
    let n_orb = s.band_window.count;
    if s.band_window.start != 0 || s.pair_n_orb != n_orb {
        return Err(SpinorProductShapeError::InconsistentBandCount);
    }
    if n_orb == 0 {
        return Err(SpinorProductShapeError::EmptyKPointSet);
    }
    match n_k.checked_mul(n_orb) {
        None => {
            assert(n_k * n_orb * n_orb > usize::MAX) by (nonlinear_arith)
                requires
                    n_k * n_orb > usize::MAX,
                    n_orb >= 1,
            ;
            return Err(SpinorProductShapeError::PairColumnOverflow);
        },
        Some(a) => match a.checked_mul(n_orb) {
            None => {
                return Err(SpinorProductShapeError::PairColumnOverflow);
            },
            Some(_) => {},
        },
    }
    assert(n_k * n_orb * n_orb <= usize::MAX);
    let mut k: usize = 0;
    while k < n_k
        invariant
            n_k == s.n_k,
            n_orb == s.band_window.count,
            k_tables_complete(*s),
            s.source_valid && s.transfer_q_matches,
            s.band_window.start == 0 && s.pair_n_orb == n_orb && n_orb != 0,
            s.n_k * n_orb * n_orb <= usize::MAX,
            k <= n_k,
            forall|k2: int| 0 <= k2 < k ==> #[trigger] k_point_consistent(*s, k2),
        decreases n_k - k,
    {
        let p = s.k_points[k];
        let (k_index, kq_index) = s.k_minus_q[k];
        if p.eigenvector_rows != p.basis_dimension || p.eigenvector_columns != n_orb
            || s.energy_counts[k] != n_orb || s.available_bands[k] < n_orb
            || k_index != k || kq_index >= n_k {
            proof {
                assert(!k_point_consistent(*s, k as int));
            }
            return Err(SpinorProductShapeError::KSliceMismatch);
        }
        k = k + 1;
    }
    Ok(())
}

/// One input of a q slice: its shape, whether its frozen frame (orbitals,
/// pair columns, partition, radials, core table, reciprocal lattice) equals
/// that of the slice's first input, and the verdict of its canonical
/// `k - q` map validation.
#[derive(Debug)]
pub struct QSliceEntry {
    pub shape: SpinorProductShape,
    pub same_frame_as_first: bool,
    pub map_verdict: Result<(), CanonicalQMapError>,
}

/// Rejections of a q slice of frozen spinor product inputs.
#[derive(Clone, Copy, Debug, PartialEq, Eq, Structural)]
pub enum SpinorQSliceError {
    EmptySlice,
    IncompleteQSlice { actual: usize, expected: usize },
    IncompatibleInputs,
    NonFiniteQSlice,
    CanonicalQMismatch { q_index: usize },
    KMinusQWrap { q_index: usize, k_index: usize },
}

/// A canonical-map failure of input `q_index` as a slice rejection.
pub open spec fn slice_map_error(e: CanonicalQMapError, q_index: int) -> SpinorQSliceError {
    match e {
        CanonicalQMapError::NonFiniteQSlice => SpinorQSliceError::NonFiniteQSlice,
        CanonicalQMapError::CanonicalQMismatch => SpinorQSliceError::CanonicalQMismatch { q_index: q_index as usize },
        CanonicalQMapError::IncompatibleMap => SpinorQSliceError::IncompatibleInputs,
        CanonicalQMapError::KMinusQWrap { k_index } => SpinorQSliceError::KMinusQWrap { q_index: q_index as usize, k_index },
    }
}

/// The rejection input `q_index` draws in a slice over `n_k` k-points, if
/// any: a later input's own shape, then its frame and map length, then its
/// canonical map.
pub open spec fn slice_entry_rejection(n_k: int, q_index: int, e: QSliceEntry) -> Option<SpinorQSliceError> {
    if q_index > 0 && spinor_product_verdict(e.shape) is Err {
        Some(SpinorQSliceError::IncompatibleInputs)
    } else if !e.same_frame_as_first || e.shape.k_minus_q.len() != n_k {
        Some(SpinorQSliceError::IncompatibleInputs)
    } else {
        match e.map_verdict {
            Ok(()) => None,
            Err(m) => Some(slice_map_error(m, q_index)),
        }
    }
}

/// The first rejection among inputs `from..` of a slice.
pub open spec fn first_slice_rejection(n_k: int, entries: Seq<QSliceEntry>, from: int) -> Option<SpinorQSliceError>
    decreases entries.len() - from,
{
    if from < 0 || from >= entries.len() {
        None
    } else if slice_entry_rejection(n_k, from, entries[from]) is Some {
        slice_entry_rejection(n_k, from, entries[from])
    } else {
        first_slice_rejection(n_k, entries, from + 1)
    }
}

/// The verdict on a q slice: it is nonempty, its first input is valid, it
/// has one input per k-point of the first, and then every input in order
/// passes [`slice_entry_rejection`].
pub open spec fn q_slice_verdict(entries: Seq<QSliceEntry>) -> Result<(), SpinorQSliceError> {
    if entries.len() == 0 {
        Err(SpinorQSliceError::EmptySlice)
    } else if spinor_product_verdict(entries[0].shape) is Err {
        Err(SpinorQSliceError::IncompatibleInputs)
    } else if entries.len() != entries[0].shape.n_k {
        Err(SpinorQSliceError::IncompleteQSlice { actual: entries.len() as usize, expected: entries[0].shape.n_k })
    } else {
        match first_slice_rejection(entries[0].shape.n_k as int, entries, 0) {
            Some(e) => Err(e),
            None => Ok(()),
        }
    }
}

proof fn lemma_slice_entries_clear(n_k: int, entries: Seq<QSliceEntry>, from: int)
    requires
        0 <= from,
    ensures
        first_slice_rejection(n_k, entries, from) is None
            <==> forall|q: int| from <= q < entries.len() ==> #[trigger] slice_entry_rejection(n_k, q, entries[q]) is None,
    decreases entries.len() - from,
{
    if from < entries.len() {
        lemma_slice_entries_clear(n_k, entries, from + 1);
        if first_slice_rejection(n_k, entries, from + 1) is None {
            assert forall|q: int| from <= q < entries.len() && slice_entry_rejection(n_k, from, entries[from]) is None
                implies #[trigger] slice_entry_rejection(n_k, q, entries[q]) is None by {
                if q > from {
                    assert(from + 1 <= q);
                }
            }
        }
    }
}

/// A q slice is admitted exactly when it is nonempty, holds one input per
/// k-point of its first input, and every input has a valid shape, shares
/// the first input's frame, has one `k - q` entry per k-point and passes
/// its canonical map validation. An empty slice is rejected as empty; a
/// slice with a valid first input and another number of inputs than its
/// k-points is rejected as incomplete, naming both counts.
pub proof fn lemma_q_slice_admission(entries: Seq<QSliceEntry>)
    ensures
        q_slice_verdict(entries) is Ok <==> {
            &&& entries.len() > 0
            &&& entries.len() == entries[0].shape.n_k
            &&& forall|q: int| 0 <= q < entries.len() ==> {
                let e = #[trigger] entries[q];
                &&& spinor_product_verdict(e.shape) is Ok
                &&& e.same_frame_as_first
                &&& e.shape.k_minus_q.len() == entries[0].shape.n_k
                &&& e.map_verdict is Ok
            }
        },
        entries.len() == 0 ==> q_slice_verdict(entries) == Err::<(), SpinorQSliceError>(SpinorQSliceError::EmptySlice),
        entries.len() > 0 && spinor_product_verdict(entries[0].shape) is Ok && entries.len() != entries[0].shape.n_k
            ==> q_slice_verdict(entries) == Err::<(), SpinorQSliceError>(SpinorQSliceError::IncompleteQSlice {
                actual: entries.len() as usize,
                expected: entries[0].shape.n_k,
            }),
{
    if entries.len() > 0 {
        let n_k = entries[0].shape.n_k as int;
        lemma_slice_entries_clear(n_k, entries, 0);
        if spinor_product_verdict(entries[0].shape) is Ok {
            if q_slice_verdict(entries) is Ok {
                assert forall|q: int| 0 <= q < entries.len() implies {
                    let e = #[trigger] entries[q];
                    &&& spinor_product_verdict(e.shape) is Ok
                    &&& e.same_frame_as_first
                    &&& e.shape.k_minus_q.len() == entries[0].shape.n_k
                    &&& e.map_verdict is Ok
                } by {
                    assert(slice_entry_rejection(n_k, q, entries[q]) is None);
                }
            }
            if entries.len() == entries[0].shape.n_k && forall|q: int| 0 <= q < entries.len() ==> {
                let e = #[trigger] entries[q];
                &&& spinor_product_verdict(e.shape) is Ok
                &&& e.same_frame_as_first
                &&& e.shape.k_minus_q.len() == entries[0].shape.n_k
                &&& e.map_verdict is Ok
            } {
                assert forall|q: int| 0 <= q < entries.len() implies #[trigger] slice_entry_rejection(n_k, q, entries[q]) is None by {
                    let e = entries[q];
                    assert(spinor_product_verdict(e.shape) is Ok);
                }
                assert(q_slice_verdict(entries) is Ok);
            }
        } else {
            let e0 = entries[0];
            assert(!(spinor_product_verdict(e0.shape) is Ok));
        }
    }
}

fn slice_map_error_exec(e: CanonicalQMapError, q_index: usize) -> (r: SpinorQSliceError)
    ensures
        r == slice_map_error(e, q_index as int),
{
    match e {
        CanonicalQMapError::NonFiniteQSlice => SpinorQSliceError::NonFiniteQSlice,
        CanonicalQMapError::CanonicalQMismatch => SpinorQSliceError::CanonicalQMismatch { q_index },
        CanonicalQMapError::IncompatibleMap => SpinorQSliceError::IncompatibleInputs,
        CanonicalQMapError::KMinusQWrap { k_index } => SpinorQSliceError::KMinusQWrap { q_index, k_index },
    }
}

/// Admit a q slice of frozen spinor product inputs (one per transfer,
/// transfer `q_index` at position `q_index`); the result is exactly
/// [`q_slice_verdict`].
pub fn require_spinor_q_slice(entries: &Vec<QSliceEntry>) -> (r: Result<(), SpinorQSliceError>)
    ensures
        r == q_slice_verdict(entries@),
{
    if entries.len() == 0 {
        return Err(SpinorQSliceError::EmptySlice);
    }
    if validate_spinor_product_shape(&entries[0].shape).is_err() {
        return Err(SpinorQSliceError::IncompatibleInputs);
    }
    let n_k = entries[0].shape.n_k;
    if entries.len() != n_k {
        return Err(SpinorQSliceError::IncompleteQSlice { actual: entries.len(), expected: n_k });
    }
    let mut iq: usize = 0;
    while iq < entries.len()
        invariant
            entries.len() == n_k,
            n_k == entries@[0].shape.n_k,
            spinor_product_verdict(entries@[0].shape) is Ok,
            iq <= entries.len(),
            first_slice_rejection(n_k as int, entries@, 0) == first_slice_rejection(n_k as int, entries@, iq as int),
        decreases entries.len() - iq,
    {
        let entry = &entries[iq];
        if iq > 0 && validate_spinor_product_shape(&entry.shape).is_err() {
            return Err(SpinorQSliceError::IncompatibleInputs);
        }
        if !entry.same_frame_as_first || entry.shape.k_minus_q.len() != n_k {
            return Err(SpinorQSliceError::IncompatibleInputs);
        }
        match entry.map_verdict {
            Ok(()) => {},
            Err(m) => {
                return Err(slice_map_error_exec(m, iq));
            },
        }
        iq = iq + 1;
    }
    Ok(())
}

/// One input of a scalar Coulomb q slice: whether its frozen frame
/// (orbitals, pair columns, partition, radials, reciprocal lattice) equals
/// that of the first input, and its `k - q` map entries `(k_index, kq_index)`.
#[derive(Debug)]
pub struct ScalarSliceEntry {
    pub same_frame_as_first: bool,
    pub k_minus_q: Vec<(usize, usize)>,
}

/// Rejections of a scalar Coulomb q slice.
#[derive(Clone, Copy, Debug, PartialEq, Eq, Structural)]
pub enum ScalarSliceError {
    EmptySlice,
    IncompleteQSlice { actual: usize, expected: usize },
    IncompatibleInputs,
}

/// The target of the first map entry for k-point `k`, if any.
pub open spec fn first_target(maps: Seq<(usize, usize)>, k: int, from: int) -> Option<usize>
    decreases maps.len() - from,
{
    if from < 0 || from >= maps.len() {
        None
    } else if maps[from].0 == k {
        Some(maps[from].1)
    } else {
        first_target(maps, k, from + 1)
    }
}

/// The rejection input `q_index` draws: a different frame or map length,
/// no map entry for k-point `q_index`, or a target of that entry that is
/// not the Gamma point (the input is then not the transfer `k_{q_index}`).
pub open spec fn scalar_slice_entry_rejection(gamma_points: Seq<bool>, q_index: int, e: ScalarSliceEntry) -> Option<ScalarSliceError> {
    let n_k = gamma_points.len();
    if !e.same_frame_as_first || e.k_minus_q.len() != n_k {
        Some(ScalarSliceError::IncompatibleInputs)
    } else {
        match first_target(e.k_minus_q@, q_index, 0) {
            None => Some(ScalarSliceError::IncompatibleInputs),
            Some(t) => if gamma_points[t as int] {
                None
            } else {
                Some(ScalarSliceError::IncompleteQSlice { actual: q_index as usize, expected: n_k as usize })
            },
        }
    }
}

/// The first rejection among inputs `from..` of a scalar slice.
pub open spec fn first_scalar_slice_rejection(gamma_points: Seq<bool>, entries: Seq<ScalarSliceEntry>, from: int) -> Option<ScalarSliceError>
    decreases entries.len() - from,
{
    if from < 0 || from >= entries.len() {
        None
    } else if scalar_slice_entry_rejection(gamma_points, from, entries[from]) is Some {
        scalar_slice_entry_rejection(gamma_points, from, entries[from])
    } else {
        first_scalar_slice_rejection(gamma_points, entries, from + 1)
    }
}

/// The verdict on a scalar Coulomb q slice over the first input's k-points
/// (`gamma_points[k]`: k-point `k` is the Gamma point).
pub open spec fn scalar_slice_verdict(gamma_points: Seq<bool>, entries: Seq<ScalarSliceEntry>) -> Result<(), ScalarSliceError> {
    if entries.len() == 0 {
        Err(ScalarSliceError::EmptySlice)
    } else if entries.len() != gamma_points.len() {
        Err(ScalarSliceError::IncompleteQSlice { actual: entries.len() as usize, expected: gamma_points.len() as usize })
    } else {
        match first_scalar_slice_rejection(gamma_points, entries, 0) {
            Some(e) => Err(e),
            None => Ok(()),
        }
    }
}

/// The first map entry for k-point `k`, if any, targets one of the `n_k`
/// k-points.
pub open spec fn target_in_mesh(maps: Seq<(usize, usize)>, k: int, n_k: int) -> bool {
    match first_target(maps, k, 0) {
        Some(t) => t < n_k,
        None => true,
    }
}

proof fn lemma_first_target(maps: Seq<(usize, usize)>, k: int, from: int)
    requires
        0 <= from,
    ensures
        first_target(maps, k, from) is None <==> forall|j: int| from <= j < maps.len() ==> (#[trigger] maps[j]).0 != k,
        forall|j: int| from <= j < maps.len() && (#[trigger] maps[j]).0 == k
            && (forall|i: int| from <= i < j ==> maps[i].0 != k)
            ==> first_target(maps, k, from) == Some(maps[j].1),
    decreases maps.len() - from,
{
    if from < maps.len() {
        lemma_first_target(maps, k, from + 1);
        assert forall|j: int| from <= j < maps.len() && (#[trigger] maps[j]).0 == k
            && (forall|i: int| from <= i < j ==> maps[i].0 != k)
            implies first_target(maps, k, from) == Some(maps[j].1) by {
            if j > from {
                assert(maps[from].0 != k);
                assert forall|i: int| from + 1 <= i < j implies maps[i].0 != k by {}
            }
        }
        if forall|j: int| from <= j < maps.len() ==> (#[trigger] maps[j]).0 != k {
            assert(maps[from].0 != k);
        }
    }
}

proof fn lemma_scalar_entries_clear(gamma_points: Seq<bool>, entries: Seq<ScalarSliceEntry>, from: int)
    requires
        0 <= from,
    ensures
        first_scalar_slice_rejection(gamma_points, entries, from) is None
            <==> forall|q: int| from <= q < entries.len() ==> #[trigger] scalar_slice_entry_rejection(gamma_points, q, entries[q]) is None,
    decreases entries.len() - from,
{
    if from < entries.len() {
        lemma_scalar_entries_clear(gamma_points, entries, from + 1);
        if first_scalar_slice_rejection(gamma_points, entries, from + 1) is None {
            assert forall|q: int| from <= q < entries.len() && scalar_slice_entry_rejection(gamma_points, from, entries[from]) is None
                implies #[trigger] scalar_slice_entry_rejection(gamma_points, q, entries[q]) is None by {
                if q > from {
                    assert(from + 1 <= q);
                }
            }
        }
    }
}

/// A scalar Coulomb slice is admitted exactly when it holds one input per
/// k-point (and at least one), and every input `q` shares the first
/// input's frame, has one `k - q` entry per k-point, and has an entry for
/// k-point `q` whose first occurrence sends it to the Gamma point.
pub proof fn lemma_scalar_slice_admission(gamma_points: Seq<bool>, entries: Seq<ScalarSliceEntry>)
    ensures
        scalar_slice_verdict(gamma_points, entries) is Ok <==> {
            &&& entries.len() > 0
            &&& entries.len() == gamma_points.len()
            &&& forall|q: int| 0 <= q < entries.len() ==> {
                let e = #[trigger] entries[q];
                &&& e.same_frame_as_first
                &&& e.k_minus_q.len() == gamma_points.len()
                &&& exists|j: int| 0 <= j < e.k_minus_q.len() && (#[trigger] e.k_minus_q@[j]).0 == q
                    && (forall|i: int| 0 <= i < j ==> e.k_minus_q@[i].0 != q)
                    && gamma_points[e.k_minus_q@[j].1 as int]
            }
        },
        entries.len() == 0 ==> scalar_slice_verdict(gamma_points, entries) == Err::<(), ScalarSliceError>(ScalarSliceError::EmptySlice),
        entries.len() > 0 && entries.len() != gamma_points.len()
            ==> scalar_slice_verdict(gamma_points, entries) == Err::<(), ScalarSliceError>(ScalarSliceError::IncompleteQSlice {
                actual: entries.len() as usize,
                expected: gamma_points.len() as usize,
            }),
{
    lemma_scalar_entries_clear(gamma_points, entries, 0);
    assert forall|q: int| 0 <= q < entries.len() implies (#[trigger] scalar_slice_entry_rejection(gamma_points, q, entries[q]) is None <==> {
        let e = entries[q];
        &&& e.same_frame_as_first
        &&& e.k_minus_q.len() == gamma_points.len()
        &&& exists|j: int| 0 <= j < e.k_minus_q.len() && (#[trigger] e.k_minus_q@[j]).0 == q
            && (forall|i: int| 0 <= i < j ==> e.k_minus_q@[i].0 != q)
            && gamma_points[e.k_minus_q@[j].1 as int]
    }) by {
        let e = entries[q];
        let maps = e.k_minus_q@;
        lemma_first_target(maps, q, 0);
        if e.same_frame_as_first && e.k_minus_q.len() == gamma_points.len() {
            match first_target(maps, q, 0) {
                None => {
                    if exists|j: int| 0 <= j < e.k_minus_q.len() && (#[trigger] e.k_minus_q@[j]).0 == q
                        && (forall|i: int| 0 <= i < j ==> e.k_minus_q@[i].0 != q)
                        && gamma_points[e.k_minus_q@[j].1 as int] {
                        let j = choose|j: int| 0 <= j < e.k_minus_q.len() && (#[trigger] e.k_minus_q@[j]).0 == q
                            && (forall|i: int| 0 <= i < j ==> e.k_minus_q@[i].0 != q)
                            && gamma_points[e.k_minus_q@[j].1 as int];
                        assert(maps[j].0 == q);
                    }
                },
                Some(t) => {
                    let j0 = choose|j: int| 0 <= j < maps.len() && #[trigger] maps[j].0 == q;
                    assert(exists|j: int| 0 <= j < maps.len() && #[trigger] maps[j].0 == q) by {
                        if forall|j: int| 0 <= j < maps.len() ==> (#[trigger] maps[j]).0 != q {
                            assert(first_target(maps, q, 0) is None);
                        }
                    }
                    let jm = lemma_least_occurrence(maps, q, j0);
                    assert(first_target(maps, q, 0) == Some(maps[jm].1));
                    if exists|j: int| 0 <= j < e.k_minus_q.len() && (#[trigger] e.k_minus_q@[j]).0 == q
                        && (forall|i: int| 0 <= i < j ==> e.k_minus_q@[i].0 != q)
                        && gamma_points[e.k_minus_q@[j].1 as int] {
                        let j = choose|j: int| 0 <= j < e.k_minus_q.len() && (#[trigger] e.k_minus_q@[j]).0 == q
                            && (forall|i: int| 0 <= i < j ==> e.k_minus_q@[i].0 != q)
                            && gamma_points[e.k_minus_q@[j].1 as int];
                        if j < jm { assert(maps[j].0 != q); }
                        if jm < j { assert(e.k_minus_q@[jm].0 != q); }
                    }
                    if gamma_points[t as int] {
                        assert(e.k_minus_q@[jm].0 == q);
                    }
                },
            }
        }
    }
    if scalar_slice_verdict(gamma_points, entries) is Ok {
        assert forall|q: int| 0 <= q < entries.len() implies {
            let e = #[trigger] entries[q];
            &&& e.same_frame_as_first
            &&& e.k_minus_q.len() == gamma_points.len()
            &&& exists|j: int| 0 <= j < e.k_minus_q.len() && (#[trigger] e.k_minus_q@[j]).0 == q
                && (forall|i: int| 0 <= i < j ==> e.k_minus_q@[i].0 != q)
                && gamma_points[e.k_minus_q@[j].1 as int]
        } by {
            assert(scalar_slice_entry_rejection(gamma_points, q, entries[q]) is None);
        }
    }
    if entries.len() > 0 && entries.len() == gamma_points.len() && forall|q: int| 0 <= q < entries.len() ==> {
        let e = #[trigger] entries[q];
        &&& e.same_frame_as_first
        &&& e.k_minus_q.len() == gamma_points.len()
        &&& exists|j: int| 0 <= j < e.k_minus_q.len() && (#[trigger] e.k_minus_q@[j]).0 == q
            && (forall|i: int| 0 <= i < j ==> e.k_minus_q@[i].0 != q)
            && gamma_points[e.k_minus_q@[j].1 as int]
    } {
        assert forall|q: int| 0 <= q < entries.len() implies #[trigger] scalar_slice_entry_rejection(gamma_points, q, entries[q]) is None by {
            let e = entries[q];
        }
        assert(scalar_slice_verdict(gamma_points, entries) is Ok);
    }
}

/// The least index at or below `j` of an entry for k-point `k`.
proof fn lemma_least_occurrence(maps: Seq<(usize, usize)>, k: int, j: int) -> (m: int)
    requires
        0 <= j < maps.len(),
        maps[j].0 == k,
    ensures
        0 <= m <= j,
        maps[m].0 == k,
        forall|i: int| 0 <= i < m ==> maps[i].0 != k,
    decreases j,
{
    if exists|i: int| 0 <= i < j && #[trigger] maps[i].0 == k {
        let i = choose|i: int| 0 <= i < j && #[trigger] maps[i].0 == k;
        lemma_least_occurrence(maps, k, i)
    } else {
        j
    }
}

fn find_target(maps: &Vec<(usize, usize)>, k: usize) -> (r: Option<usize>)
    ensures
        r == first_target(maps@, k as int, 0),
{
    let mut j: usize = 0;
    while j < maps.len()
        invariant
            j <= maps.len(),
            first_target(maps@, k as int, 0) == first_target(maps@, k as int, j as int),
        decreases maps.len() - j,
    {
        if maps[j].0 == k {
            return Some(maps[j].1);
        }
        j = j + 1;
    }
    None
}

/// Admit the q slice of a scalar Coulomb build: one input per k-point of
/// the first, all in one frame, input `q_index` being the transfer whose
/// `k - q` map sends k-point `q_index` to Gamma. The result is exactly
/// [`scalar_slice_verdict`]. The input the scan reaches must map its
/// k-point into the mesh (the Gamma verdict is read there).
pub fn require_scalar_coulomb_slice(gamma_points: &Vec<bool>, entries: &Vec<ScalarSliceEntry>) -> (r: Result<(), ScalarSliceError>)
    requires
        entries.len() == gamma_points.len() ==> forall|i: int| 0 <= i < entries.len()
            && (forall|j: int| 0 <= j < i ==> scalar_slice_entry_rejection(gamma_points@, j, #[trigger] entries@[j]) is None)
            && entries@[i].same_frame_as_first && entries@[i].k_minus_q.len() == gamma_points.len()
            ==> #[trigger] target_in_mesh(entries@[i].k_minus_q@, i, gamma_points.len() as int),
    ensures
        r == scalar_slice_verdict(gamma_points@, entries@),
{
    if entries.len() == 0 {
        return Err(ScalarSliceError::EmptySlice);
    }
    let n_k = gamma_points.len();
    if entries.len() != n_k {
        return Err(ScalarSliceError::IncompleteQSlice { actual: entries.len(), expected: n_k });
    }
    let mut iq: usize = 0;
    while iq < entries.len()
        invariant
            entries.len() == n_k,
            n_k == gamma_points.len(),
            forall|i: int| 0 <= i < entries.len()
                && (forall|j: int| 0 <= j < i ==> scalar_slice_entry_rejection(gamma_points@, j, #[trigger] entries@[j]) is None)
                && entries@[i].same_frame_as_first && entries@[i].k_minus_q.len() == gamma_points.len()
                ==> #[trigger] target_in_mesh(entries@[i].k_minus_q@, i, gamma_points.len() as int),
            forall|j: int| 0 <= j < iq ==> scalar_slice_entry_rejection(gamma_points@, j, #[trigger] entries@[j]) is None,
            iq <= entries.len(),
            first_scalar_slice_rejection(gamma_points@, entries@, 0) == first_scalar_slice_rejection(gamma_points@, entries@, iq as int),
        decreases entries.len() - iq,
    {
        let entry = &entries[iq];
        if !entry.same_frame_as_first || entry.k_minus_q.len() != n_k {
            return Err(ScalarSliceError::IncompatibleInputs);
        }
        match find_target(&entry.k_minus_q, iq) {
            None => {
                return Err(ScalarSliceError::IncompatibleInputs);
            },
            Some(t) => {
                assert(first_target(entries@[iq as int].k_minus_q@, iq as int, 0) == Some(t));
                assert(target_in_mesh(entries@[iq as int].k_minus_q@, iq as int, gamma_points.len() as int));
                if !gamma_points[t] {
                    return Err(ScalarSliceError::IncompleteQSlice { actual: iq, expected: n_k });
                }
            },
        }
        iq = iq + 1;
    }
    Ok(())
}

} // verus!
