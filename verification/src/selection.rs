//! Band windows, pair columns and band-pair selections of the frozen
//! product inputs, and the column accounting of the four-sector spinor THC.
use vstd::prelude::*;
use vstd::arithmetic::div_mod::lemma_fundamental_div_mod_converse;
use vstd::std_specs::iter::IteratorSpec;
use std::collections::BTreeSet;
use crate::ordered_keys::{
    usize_keys_ordered, pair_keys_ordered, lemma_usize_keys_ordered, lemma_pair_keys_ordered,
    lemma_increasing_usize, lemma_increasing_pairs,
};

verus! {

broadcast use vstd::std_specs::btree::group_btree_axioms;

/// Common leading band window of a scalar product input: the lowest
/// `count` eigenpairs, starting at `start` (always 0).
#[derive(Clone, Copy, Debug, PartialEq, Eq, Structural)]
pub struct ScalarBandWindow {
    pub start: usize,
    pub count: usize,
}

/// Common leading band window of a spinor product input: the lowest
/// `count` eigenpairs, starting at `start` (always 0).
#[derive(Clone, Copy, Debug, PartialEq, Eq, Structural)]
pub struct SpinorBandWindow {
    pub start: usize,
    pub count: usize,
}

/// Rejections while forming a common band window.
#[derive(Clone, Copy, Debug, PartialEq, Eq, Structural)]
pub enum BandWindowError {
    /// Spin up and down solved a different number of bands at one k-point.
    CollinearBandCount { up: usize, down: usize },
    /// No k-point, or a k-point without bands.
    EmptyKPointSet,
}

/// Smallest entry of a nonempty sequence.
pub open spec fn seq_min(s: Seq<usize>) -> usize
    decreases s.len(),
{
    if s.len() <= 1 {
        s[0]
    } else {
        let m = seq_min(s.drop_last());
        if s.last() < m { s.last() } else { m }
    }
}

/// Common window of a spinor solve from its per-k band counts: the lowest
/// count over all k-points, which must be positive.
pub fn spinor_band_window(available_bands: &Vec<usize>) -> (r: Result<SpinorBandWindow, BandWindowError>)
    ensures
        available_bands.len() == 0 ==> r == Err::<SpinorBandWindow, BandWindowError>(BandWindowError::EmptyKPointSet),
        available_bands.len() > 0 ==> if seq_min(available_bands@) == 0 {
            r == Err::<SpinorBandWindow, BandWindowError>(BandWindowError::EmptyKPointSet)
        } else {
            r == Ok::<SpinorBandWindow, BandWindowError>(SpinorBandWindow { start: 0, count: seq_min(available_bands@) })
        },
{
    let mut n_orb: Option<usize> = None;
    let mut i: usize = 0;
    while i < available_bands.len()
        invariant
            i <= available_bands.len(),
            i == 0 ==> n_orb is None,
            i > 0 ==> n_orb == Some(seq_min(available_bands@.take(i as int))),
        decreases available_bands.len() - i,
    {
        proof {
            assert(available_bands@.take(i as int + 1).drop_last() =~= available_bands@.take(i as int));
            assert(available_bands@.take(i as int + 1).last() == available_bands@[i as int]);
        }
        let here = available_bands[i];
        n_orb = match n_orb {
            None => Some(here),
            Some(m) => Some(if here < m { here } else { m }),
        };
        i = i + 1;
    }
    assert(available_bands@.take(available_bands.len() as int) =~= available_bands@);
    match n_orb {
        Some(count) => {
            if count > 0 {
                Ok(SpinorBandWindow { start: 0, count })
            } else {
                Err(BandWindowError::EmptyKPointSet)
            }
        },
        None => Err(BandWindowError::EmptyKPointSet),
    }
}

/// First k-point whose up and down band counts differ, if any.
pub open spec fn first_mismatch(up: Seq<usize>, down: Seq<usize>, k: int) -> bool {
    &&& 0 <= k < up.len()
    &&& up[k] != down[k]
    &&& forall|j: int| 0 <= j < k ==> up[j] == down[j]
}

/// Common window of a collinear scalar solve: both spins must solve the
/// same number of bands at every k-point, and the window keeps the lowest
/// count over all k-points, which must be positive.
pub fn scalar_band_window(up: &Vec<usize>, down: &Vec<usize>) -> (r: Result<ScalarBandWindow, BandWindowError>)
    requires
        up.len() == down.len(),
    ensures
        (exists|k: int| #[trigger] first_mismatch(up@, down@, k)) ==> exists|k: int| #[trigger] first_mismatch(up@, down@, k)
            && r == Err::<ScalarBandWindow, BandWindowError>(BandWindowError::CollinearBandCount { up: up@[k], down: down@[k] }),
        !(exists|k: int| #[trigger] first_mismatch(up@, down@, k)) ==> {
            &&& up.len() == 0 ==> r == Err::<ScalarBandWindow, BandWindowError>(BandWindowError::EmptyKPointSet)
            &&& up.len() > 0 && seq_min(up@) == 0 ==> r == Err::<ScalarBandWindow, BandWindowError>(BandWindowError::EmptyKPointSet)
            &&& up.len() > 0 && seq_min(up@) > 0 ==> r == Ok::<ScalarBandWindow, BandWindowError>(ScalarBandWindow { start: 0, count: seq_min(up@) as usize })
        },
{
    let mut i: usize = 0;
    while i < up.len()
        invariant
            i <= up.len(),
            up.len() == down.len(),
            forall|j: int| 0 <= j < i ==> up@[j] == down@[j],
        decreases up.len() - i,
    {
        if up[i] != down[i] {
            proof {
                assert(first_mismatch(up@, down@, i as int));
                assert forall|k: int| #[trigger] first_mismatch(up@, down@, k) implies k == i by {
                    if k < i {
                    } else if k > i {
                        assert(up@[i as int] == down@[i as int]);
                    }
                }
            }
            return Err(BandWindowError::CollinearBandCount { up: up[i], down: down[i] });
        }
        i = i + 1;
    }
    match spinor_band_window(up) {
        Ok(window) => Ok(ScalarBandWindow { start: window.start, count: window.count }),
        Err(e) => Err(e),
    }
}

/// Pair-column index `k n_orb^2 + i n_orb + j` of left band `i` (at `k - q`)
/// and right band `j` (at `k`).
pub open spec fn spec_pair_column(n_orb: int, k: int, left: int, right: int) -> int {
    k * n_orb * n_orb + left * n_orb + right
}

/// Pair-column index of a selection inside an `n_k x n_orb x n_orb` layout.
pub fn pair_column(n_k: usize, n_orb: usize, k: usize, left: usize, right: usize) -> (c: usize)
    requires
        k < n_k,
        left < n_orb,
        right < n_orb,
        n_k * n_orb * n_orb <= usize::MAX,
    ensures
        c == spec_pair_column(n_orb as int, k as int, left as int, right as int),
        c < n_k * n_orb * n_orb,
{
    proof {
        assert(k * n_orb * n_orb + left * n_orb + right < n_k * n_orb * n_orb) by (nonlinear_arith)
            requires
                k < n_k,
                left < n_orb,
                right < n_orb,
        ;
        assert(k * n_orb * n_orb <= n_k * n_orb * n_orb) by (nonlinear_arith)
            requires
                k < n_k,
        ;
        assert(left * n_orb <= n_orb * n_orb) by (nonlinear_arith)
            requires
                left < n_orb,
        ;
        assert(k * n_orb <= k * n_orb * n_orb) by (nonlinear_arith)
            requires
                n_orb >= 1,
                k >= 0,
        ;
    }
    k * n_orb * n_orb + left * n_orb + right
}

/// Distinct band pairs never share a pair column: in a layout of `n_orb`
/// bands, the column `k n_orb^2 + i n_orb + j` determines `(k, i, j)`.
pub proof fn lemma_pair_column_injective(n_orb: int, k1: int, left1: int, right1: int, k2: int, left2: int, right2: int)
    requires
        n_orb > 0,
        k1 >= 0,
        k2 >= 0,
        0 <= left1 < n_orb,
        0 <= left2 < n_orb,
        0 <= right1 < n_orb,
        0 <= right2 < n_orb,
        spec_pair_column(n_orb, k1, left1, right1) == spec_pair_column(n_orb, k2, left2, right2),
    ensures
        k1 == k2,
        left1 == left2,
        right1 == right2,
{
    let c = spec_pair_column(n_orb, k1, left1, right1);
    assert(c == (k1 * n_orb + left1) * n_orb + right1) by (nonlinear_arith)
        requires
            c == spec_pair_column(n_orb, k1, left1, right1),
    ;
    assert(c == (k2 * n_orb + left2) * n_orb + right2) by (nonlinear_arith)
        requires
            c == spec_pair_column(n_orb, k2, left2, right2),
    ;
    lemma_fundamental_div_mod_converse(c, n_orb, k1 * n_orb + left1, right1);
    lemma_fundamental_div_mod_converse(c, n_orb, k2 * n_orb + left2, right2);
    let q = k1 * n_orb + left1;
    lemma_fundamental_div_mod_converse(q, n_orb, k1, left1);
    lemma_fundamental_div_mod_converse(q, n_orb, k2, left2);
}

/// One same-spin band pair at one k-point.
#[derive(Clone, Copy, Debug, PartialEq, Eq, Structural)]
pub struct ScalarMpbSelection {
    pub spin: u8,
    pub k: usize,
    pub left_band: usize,
    pub right_band: usize,
}

/// Pauli-spinor band-pair selection for SOC second variation.
#[derive(Clone, Copy, Debug, PartialEq, Eq, Structural)]
pub struct SecondVariationMpbSelection {
    pub k: usize,
    pub left_band: usize,
    pub right_band: usize,
}

/// Shape of one spin channel of a frozen scalar product input: its spin,
/// the number of band columns of each k-point's eigenvectors and the number
/// of per-k compiled bases.
#[derive(Debug)]
pub struct ScalarChannelShape {
    pub spin: u8,
    pub eigenvector_columns: Vec<usize>,
    pub basis_count: usize,
}

/// Shape of a frozen scalar product input as the mixed-product bridge reads it.
#[derive(Debug)]
pub struct ScalarInputShape {
    pub n_k: usize,
    pub band_window: ScalarBandWindow,
    pub pair_n_k: usize,
    pub pair_n_orb: usize,
    pub k_minus_q_len: usize,
    pub channels: Vec<ScalarChannelShape>,
    pub second_variation: bool,
}

/// Rejections of the scalar mixed-product bridge's inputs.
#[derive(Clone, Copy, Debug, PartialEq, Eq, Structural)]
pub enum ScalarMpbError {
    EmptySelection,
    InvalidSelection { spin: u8, k: usize, left_band: usize, right_band: usize },
    IncompatiblePairLayout,
    RequiresSecondVariation,
}

/// The pair-column layout matches the frozen orbitals.
pub open spec fn layout_compatible(shape: ScalarInputShape) -> bool {
    let n_orb = shape.band_window.count;
    &&& shape.band_window.start == 0
    &&& shape.pair_n_k == shape.n_k
    &&& shape.pair_n_orb == n_orb
    &&& shape.k_minus_q_len == shape.n_k
    &&& forall|c: int| 0 <= c < shape.channels.len() ==> {
        &&& (#[trigger] shape.channels@[c]).eigenvector_columns.len() == shape.n_k
        &&& shape.channels@[c].basis_count == shape.n_k
        &&& forall|k: int| 0 <= k < shape.n_k ==> #[trigger] shape.channels@[c].eigenvector_columns@[k] == n_orb
    }
}

/// A selection names an existing spin channel, k-point and window bands.
pub open spec fn selection_valid(shape: ScalarInputShape, s: ScalarMpbSelection) -> bool {
    &&& exists|c: int| 0 <= c < shape.channels.len() && (#[trigger] shape.channels@[c]).spin == s.spin
    &&& s.k < shape.n_k
    &&& s.left_band < shape.band_window.count
    &&& s.right_band < shape.band_window.count
}

/// Whether the pair-column layout matches the frozen orbitals.
pub fn require_compatible_layout(shape: &ScalarInputShape) -> (r: Result<(), ScalarMpbError>)
    ensures
        r is Ok <==> layout_compatible(*shape),
        r is Err ==> r == Err::<(), ScalarMpbError>(ScalarMpbError::IncompatiblePairLayout),
{
    let n_k = shape.n_k;
    let n_orb = shape.band_window.count;
    if !(shape.band_window.start == 0 && shape.pair_n_k == n_k && shape.pair_n_orb == n_orb && shape.k_minus_q_len == n_k) {
        return Err(ScalarMpbError::IncompatiblePairLayout);
    }
    let mut c: usize = 0;
    while c < shape.channels.len()
        invariant
            c <= shape.channels.len(),
            n_k == shape.n_k,
            n_orb == shape.band_window.count,
            forall|c2: int| 0 <= c2 < c ==> {
                &&& (#[trigger] shape.channels@[c2]).eigenvector_columns.len() == shape.n_k
                &&& shape.channels@[c2].basis_count == shape.n_k
                &&& forall|k: int| 0 <= k < shape.n_k ==> #[trigger] shape.channels@[c2].eigenvector_columns@[k] == n_orb
            },
        decreases shape.channels.len() - c,
    {
        let channel = &shape.channels[c];
        if channel.eigenvector_columns.len() != n_k || channel.basis_count != n_k {
            assert(!layout_compatible(*shape)) by {
                let ch = shape.channels@[c as int];
                assert(ch.eigenvector_columns.len() != shape.n_k || ch.basis_count != shape.n_k);
            }
            return Err(ScalarMpbError::IncompatiblePairLayout);
        }
        let mut k: usize = 0;
        while k < n_k
            invariant
                k <= n_k,
                n_k == shape.n_k,
                n_orb == shape.band_window.count,
                c < shape.channels.len(),
                *channel == shape.channels@[c as int],
                channel.eigenvector_columns.len() == n_k,
                forall|k2: int| 0 <= k2 < k ==> #[trigger] channel.eigenvector_columns@[k2] == n_orb,
            decreases n_k - k,
        {
            if channel.eigenvector_columns[k] != n_orb {
                assert(shape.channels@[c as int].eigenvector_columns@[k as int] != n_orb);
                return Err(ScalarMpbError::IncompatiblePairLayout);
            }
            k = k + 1;
        }
        c = c + 1;
    }
    Ok(())
}

/// Whether one selection names an existing spin channel, k-point and
/// window bands.
pub fn require_selection(shape: &ScalarInputShape, selection: ScalarMpbSelection) -> (r: Result<(), ScalarMpbError>)
    ensures
        r is Ok <==> selection_valid(*shape, selection),
        r is Err ==> r == Err::<(), ScalarMpbError>(ScalarMpbError::InvalidSelection {
            spin: selection.spin,
            k: selection.k,
            left_band: selection.left_band,
            right_band: selection.right_band,
        }),
{
    let mut has_spin = false;
    let mut c: usize = 0;
    while c < shape.channels.len()
        invariant
            c <= shape.channels.len(),
            has_spin == exists|c2: int| 0 <= c2 < c && (#[trigger] shape.channels@[c2]).spin == selection.spin,
        decreases shape.channels.len() - c,
    {
        if shape.channels[c].spin == selection.spin {
            has_spin = true;
        }
        c = c + 1;
    }
    let n_orb = shape.band_window.count;
    if has_spin && selection.k < shape.n_k && selection.left_band < n_orb && selection.right_band < n_orb {
        Ok(())
    } else {
        Err(ScalarMpbError::InvalidSelection {
            spin: selection.spin,
            k: selection.k,
            left_band: selection.left_band,
            right_band: selection.right_band,
        })
    }
}

/// The scalar MPB bridge's admission of a selection list: nonempty, a
/// compatible layout, then every selection valid (the first invalid one is
/// reported).
pub fn require_scalar_mpb_inputs(shape: &ScalarInputShape, selections: &Vec<ScalarMpbSelection>) -> (r: Result<(), ScalarMpbError>)
    ensures
        selections.len() == 0 ==> r == Err::<(), ScalarMpbError>(ScalarMpbError::EmptySelection),
        selections.len() > 0 && !layout_compatible(*shape) ==> r == Err::<(), ScalarMpbError>(ScalarMpbError::IncompatiblePairLayout),
        selections.len() > 0 && layout_compatible(*shape) ==> match r {
            Ok(()) => forall|i: int| 0 <= i < selections.len() ==> selection_valid(*shape, #[trigger] selections@[i]),
            Err(e) => exists|i: int| 0 <= i < selections.len() && !selection_valid(*shape, #[trigger] selections@[i])
                && (forall|j: int| 0 <= j < i ==> selection_valid(*shape, #[trigger] selections@[j]))
                && e == (ScalarMpbError::InvalidSelection {
                    spin: selections@[i].spin,
                    k: selections@[i].k,
                    left_band: selections@[i].left_band,
                    right_band: selections@[i].right_band,
                }),
        },
{
    if selections.len() == 0 {
        return Err(ScalarMpbError::EmptySelection);
    }
    match require_compatible_layout(shape) {
        Ok(()) => {},
        Err(e) => return Err(e),
    }
    let mut i: usize = 0;
    while i < selections.len()
        invariant
            i <= selections.len(),
            selections.len() > 0,
            layout_compatible(*shape),
            forall|j: int| 0 <= j < i ==> selection_valid(*shape, #[trigger] selections@[j]),
        decreases selections.len() - i,
    {
        match require_selection(shape, selections[i]) {
            Ok(()) => {},
            Err(e) => {
                assert(!selection_valid(*shape, selections@[i as int]));
                return Err(e);
            },
        }
        i = i + 1;
    }
    Ok(())
}

/// One Pauli-spinor band pair at one k-point of the spinor mixed-product
/// bridge.
#[derive(Clone, Copy, Debug, PartialEq, Eq, Structural)]
pub struct SpinorMpbSelection {
    pub k: usize,
    pub left_band: usize,
    pub right_band: usize,
}

/// Shape of a frozen spinor product input as the spinor mixed-product
/// bridge reads it: per k-point, the eigenvectors' columns and rows and the
/// dimension of the compiled basis.
#[derive(Debug)]
pub struct SpinorInputShape {
    pub n_k: usize,
    pub band_window: SpinorBandWindow,
    pub pair_n_k: usize,
    pub pair_n_orb: usize,
    pub k_minus_q_len: usize,
    pub eigenvector_shapes: Vec<(usize, usize)>,
    pub basis_dimensions: Vec<usize>,
}

/// Rejections of the spinor mixed-product bridge's inputs.
#[derive(Clone, Copy, Debug, PartialEq, Eq, Structural)]
pub enum SpinorMpbError {
    IncompatiblePairLayout,
    InvalidSelection { k: usize, left_band: usize, right_band: usize },
}

/// The spinor pair-column layout matches the frozen orbitals: the window
/// starts at band 0, the layout has one block per k-point and window band,
/// and every k-point's eigenvectors have one column per window band and one
/// row per basis function.
pub open spec fn spinor_layout_compatible(shape: SpinorInputShape) -> bool {
    let n_orb = shape.band_window.count;
    &&& shape.band_window.start == 0
    &&& shape.pair_n_k == shape.n_k
    &&& shape.pair_n_orb == n_orb
    &&& shape.k_minus_q_len == shape.n_k
    &&& shape.eigenvector_shapes.len() == shape.n_k
    &&& shape.basis_dimensions.len() == shape.n_k
    &&& forall|k: int| 0 <= k < shape.n_k ==> (#[trigger] shape.eigenvector_shapes@[k]).0 == n_orb
        && shape.eigenvector_shapes@[k].1 == shape.basis_dimensions@[k]
}

/// Whether the spinor pair-column layout matches the frozen orbitals.
pub fn require_spinor_compatible_layout(shape: &SpinorInputShape) -> (r: Result<(), SpinorMpbError>)
    ensures
        r is Ok <==> spinor_layout_compatible(*shape),
        r is Err ==> r == Err::<(), SpinorMpbError>(SpinorMpbError::IncompatiblePairLayout),
{
    let n_k = shape.n_k;
    let n_orb = shape.band_window.count;
    if !(shape.band_window.start == 0 && shape.pair_n_k == n_k && shape.pair_n_orb == n_orb
        && shape.k_minus_q_len == n_k && shape.eigenvector_shapes.len() == n_k
        && shape.basis_dimensions.len() == n_k) {
        return Err(SpinorMpbError::IncompatiblePairLayout);
    }
    let mut k: usize = 0;
    while k < n_k
        invariant
            k <= n_k == shape.n_k,
            n_orb == shape.band_window.count,
            shape.eigenvector_shapes.len() == n_k,
            shape.basis_dimensions.len() == n_k,
            forall|k2: int| 0 <= k2 < k ==> (#[trigger] shape.eigenvector_shapes@[k2]).0 == n_orb
                && shape.eigenvector_shapes@[k2].1 == shape.basis_dimensions@[k2],
        decreases n_k - k,
    {
        let (columns, rows) = shape.eigenvector_shapes[k];
        if columns != n_orb || rows != shape.basis_dimensions[k] {
            return Err(SpinorMpbError::IncompatiblePairLayout);
        }
        k = k + 1;
    }
    Ok(())
}

/// Whether a spinor selection names an existing k-point and window bands.
pub fn require_spinor_selection(shape: &SpinorInputShape, selection: SpinorMpbSelection) -> (r: Result<(), SpinorMpbError>)
    ensures
        selection.k < shape.n_k && selection.left_band < shape.band_window.count && selection.right_band < shape.band_window.count
            ==> r == Ok::<(), SpinorMpbError>(()),
        !(selection.k < shape.n_k && selection.left_band < shape.band_window.count && selection.right_band < shape.band_window.count)
            ==> r == Err::<(), SpinorMpbError>(SpinorMpbError::InvalidSelection {
                k: selection.k,
                left_band: selection.left_band,
                right_band: selection.right_band,
            }),
{
    let n_orb = shape.band_window.count;
    if selection.k < shape.n_k && selection.left_band < n_orb && selection.right_band < n_orb {
        Ok(())
    } else {
        Err(SpinorMpbError::InvalidSelection { k: selection.k, left_band: selection.left_band, right_band: selection.right_band })
    }
}

/// The two Pauli components of each second-variation selection, in order:
/// spin 0 then spin 1 of the same k-point and bands.
pub fn second_variation_component_selections(selections: &Vec<SecondVariationMpbSelection>) -> (r: Vec<ScalarMpbSelection>)
    requires
        2 * selections.len() <= usize::MAX,
    ensures
        r.len() == 2 * selections.len(),
        forall|i: int, spin: int| 0 <= i < selections.len() && 0 <= spin < 2 ==> #[trigger] r@[2 * i + spin] == (ScalarMpbSelection {
            spin: spin as u8,
            k: selections@[i].k,
            left_band: selections@[i].left_band,
            right_band: selections@[i].right_band,
        }),
{
    let mut out: Vec<ScalarMpbSelection> = Vec::new();
    let mut i: usize = 0;
    while i < selections.len()
        invariant
            i <= selections.len(),
            2 * selections.len() <= usize::MAX,
            out.len() == 2 * i,
            forall|i2: int, spin: int| 0 <= i2 < i && 0 <= spin < 2 ==> #[trigger] out@[2 * i2 + spin] == (ScalarMpbSelection {
                spin: spin as u8,
                k: selections@[i2].k,
                left_band: selections@[i2].left_band,
                right_band: selections@[i2].right_band,
            }),
        decreases selections.len() - i,
    {
        let s = selections[i];
        out.push(ScalarMpbSelection { spin: 0, k: s.k, left_band: s.left_band, right_band: s.right_band });
        out.push(ScalarMpbSelection { spin: 1, k: s.k, left_band: s.left_band, right_band: s.right_band });
        i = i + 1;
    }
    out
}

/// The band of a selection on the left (`k - q`) or right (`k`) side.
pub open spec fn band_of(s: ScalarMpbSelection, left: bool) -> usize {
    if left {
        s.left_band
    } else {
        s.right_band
    }
}

/// Strictly increasing, hence free of repeats.
pub open spec fn strictly_increasing(v: Seq<usize>) -> bool {
    forall|i: int, j: int| 0 <= i < j < v.len() ==> #[trigger] v[i] < #[trigger] v[j]
}

/// Some selection of `(spin, k)` names `band` on the given side.
pub open spec fn selects_band(selections: Seq<ScalarMpbSelection>, spin: u8, k: usize, left: bool, band: usize) -> bool {
    exists|i: int| 0 <= i < selections.len() && (#[trigger] selections[i]).spin == spin && selections[i].k == k && band_of(selections[i], left) == band
}

/// The distinct bands, ascending, that the selections of `(spin, k)` name
/// on the left (`left`) or right side, gathered in an ordered set.
pub fn selected_bands(selections: &Vec<ScalarMpbSelection>, spin: u8, k: usize, left: bool) -> (bands: Vec<usize>)
    ensures
        strictly_increasing(bands@),
        forall|b: usize| bands@.contains(b) <==> selects_band(selections@, spin, k, left, b),
{
    proof { lemma_usize_keys_ordered(); }
    let mut set: BTreeSet<usize> = BTreeSet::new();
    let mut i: usize = 0;
    while i < selections.len()
        invariant
            i <= selections.len(),
            usize_keys_ordered(),
            forall|b: usize| set@.contains(b) <==> selects_band(selections@.take(i as int), spin, k, left, b),
        decreases selections.len() - i,
    {
        let s = selections[i];
        if s.spin == spin && s.k == k {
            let band = if left { s.left_band } else { s.right_band };
            set.insert(band);
        }
        proof {
            let t = selections@.take(i as int);
            let t1 = selections@.take(i as int + 1);
            assert forall|b: usize| set@.contains(b) <==> selects_band(t1, spin, k, left, b) by {
                if selects_band(t1, spin, k, left, b) {
                    let j = choose|j: int| 0 <= j < t1.len() && (#[trigger] t1[j]).spin == spin && t1[j].k == k && band_of(t1[j], left) == b;
                    if j < i {
                        assert(t[j] == t1[j]);
                        assert(selects_band(t, spin, k, left, b));
                    }
                }
                if selects_band(t, spin, k, left, b) {
                    let j = choose|j: int| 0 <= j < t.len() && (#[trigger] t[j]).spin == spin && t[j].k == k && band_of(t[j], left) == b;
                    assert(t1[j] == t[j]);
                }
                if s.spin == spin && s.k == k && band_of(s, left) == b {
                    assert(t1[i as int] == s);
                }
            }
        }
        i = i + 1;
    }
    proof {
        assert(selections@.take(selections.len() as int) =~= selections@);
    }
    let mut bands: Vec<usize> = Vec::new();
    let ghost keys = set.iter().remaining();
    proof { lemma_increasing_usize(keys); }
    for b in it: set.iter()
        invariant
            keys == it.seq(),
            bands@ == it.seq().unref().take(it.index() as int),
    {
        bands.push(*b);
    }
    proof {
        assert(bands@ =~= keys.unref());
        assert(keys.unref().to_set() == set@);
        assert forall|b: usize| bands@.contains(b) <==> set@.contains(b) by {
            assert(bands@.contains(b) <==> bands@.to_set().contains(b));
        }
        assert forall|x: int, y: int| 0 <= x < y < bands.len() implies #[trigger] bands@[x] < #[trigger] bands@[y] by {
            assert(*keys[x] < *keys[y]);
        }
    }
    bands
}

/// Order of `(spin, k)` groups: by spin, then k-point.
pub open spec fn group_lt(a: (u8, usize), b: (u8, usize)) -> bool {
    a.0 < b.0 || (a.0 == b.0 && a.1 < b.1)
}

/// Strictly increasing `(spin, k)` groups.
pub open spec fn groups_sorted(v: Seq<(u8, usize)>) -> bool {
    forall|i: int, j: int| 0 <= i < j < v.len() ==> group_lt(#[trigger] v[i], #[trigger] v[j])
}

/// Some selection is at `(spin, k)`.
pub open spec fn selects_group(selections: Seq<ScalarMpbSelection>, group: (u8, usize)) -> bool {
    exists|i: int| 0 <= i < selections.len() && (#[trigger] selections[i]).spin == group.0 && selections[i].k == group.1
}

/// The distinct `(spin, k)` groups of the selections, ascending, gathered
/// in an ordered set.
pub fn selection_groups(selections: &Vec<ScalarMpbSelection>) -> (groups: Vec<(u8, usize)>)
    ensures
        groups_sorted(groups@),
        forall|g: (u8, usize)| groups@.contains(g) <==> selects_group(selections@, g),
{
    proof { lemma_pair_keys_ordered(); }
    let mut set: BTreeSet<(u8, usize)> = BTreeSet::new();
    let mut i: usize = 0;
    while i < selections.len()
        invariant
            i <= selections.len(),
            pair_keys_ordered(),
            forall|g: (u8, usize)| set@.contains(g) <==> selects_group(selections@.take(i as int), g),
        decreases selections.len() - i,
    {
        let s = selections[i];
        set.insert((s.spin, s.k));
        proof {
            let t = selections@.take(i as int);
            let t1 = selections@.take(i as int + 1);
            assert forall|g: (u8, usize)| set@.contains(g) <==> selects_group(t1, g) by {
                if selects_group(t1, g) {
                    let j = choose|j: int| 0 <= j < t1.len() && (#[trigger] t1[j]).spin == g.0 && t1[j].k == g.1;
                    if j < i {
                        assert(t[j] == t1[j]);
                        assert(selects_group(t, g));
                    } else {
                        assert(g == (s.spin, s.k));
                    }
                }
                if selects_group(t, g) {
                    let j = choose|j: int| 0 <= j < t.len() && (#[trigger] t[j]).spin == g.0 && t[j].k == g.1;
                    assert(t1[j] == t[j]);
                }
                if g == (s.spin, s.k) {
                    assert(t1[i as int] == s);
                }
            }
        }
        i = i + 1;
    }
    proof {
        assert(selections@.take(selections.len() as int) =~= selections@);
    }
    let mut groups: Vec<(u8, usize)> = Vec::new();
    let ghost keys = set.iter().remaining();
    proof { lemma_increasing_pairs(keys); }
    for g in it: set.iter()
        invariant
            keys == it.seq(),
            groups@ == it.seq().unref().take(it.index() as int),
    {
        groups.push(*g);
    }
    proof {
        assert(groups@ =~= keys.unref());
        assert(keys.unref().to_set() == set@);
        assert forall|g: (u8, usize)| groups@.contains(g) <==> set@.contains(g) by {
            assert(groups@.contains(g) <==> groups@.to_set().contains(g));
        }
        assert forall|x: int, y: int| 0 <= x < y < groups.len() implies group_lt(#[trigger] groups@[x], #[trigger] groups@[y]) by {
            assert(keys[x].0 < keys[y].0 || (keys[x].0 == keys[y].0 && keys[x].1 < keys[y].1));
        }
    }
    groups
}

/// Both Pauli components of a second-variation selection are valid.
pub open spec fn components_valid(shape: ScalarInputShape, s: SecondVariationMpbSelection) -> bool {
    forall|spin: int| 0 <= spin < 2 ==> selection_valid(shape, #[trigger] component(s, spin))
}

/// Pauli component `spin` of a second-variation selection.
pub open spec fn component(s: SecondVariationMpbSelection, spin: int) -> ScalarMpbSelection {
    ScalarMpbSelection { spin: spin as u8, k: s.k, left_band: s.left_band, right_band: s.right_band }
}

/// The second-variation bridge's admission of a selection list: SOC
/// second-variation orbitals, nonempty selections, a compatible layout, and
/// both Pauli components of every selection valid.
pub fn require_second_variation_mpb_inputs(shape: &ScalarInputShape, selections: &Vec<SecondVariationMpbSelection>) -> (r: Result<(), ScalarMpbError>)
    ensures
        !shape.second_variation ==> r == Err::<(), ScalarMpbError>(ScalarMpbError::RequiresSecondVariation),
        shape.second_variation && selections.len() == 0 ==> r == Err::<(), ScalarMpbError>(ScalarMpbError::EmptySelection),
        shape.second_variation && selections.len() > 0 && !layout_compatible(*shape) ==> r == Err::<(), ScalarMpbError>(ScalarMpbError::IncompatiblePairLayout),
        r is Ok <==> {
            &&& shape.second_variation
            &&& selections.len() > 0
            &&& layout_compatible(*shape)
            &&& forall|i: int| 0 <= i < selections.len() ==> components_valid(*shape, #[trigger] selections@[i])
        },
        shape.second_variation && selections.len() > 0 && layout_compatible(*shape) && r is Err ==>
            exists|i: int, sp: int| 0 <= i < selections.len() && 0 <= sp < 2
                && !selection_valid(*shape, #[trigger] component(selections@[i], sp))
                && (forall|j: int| 0 <= j < i ==> components_valid(*shape, #[trigger] selections@[j]))
                && (sp == 1 ==> selection_valid(*shape, component(selections@[i], 0)))
                && r == Err::<(), ScalarMpbError>(ScalarMpbError::InvalidSelection {
                    spin: sp as u8,
                    k: selections@[i].k,
                    left_band: selections@[i].left_band,
                    right_band: selections@[i].right_band,
                }),
{
    if !shape.second_variation {
        return Err(ScalarMpbError::RequiresSecondVariation);
    }
    if selections.len() == 0 {
        return Err(ScalarMpbError::EmptySelection);
    }
    match require_compatible_layout(shape) {
        Ok(()) => {},
        Err(e) => return Err(e),
    }
    let mut i: usize = 0;
    while i < selections.len()
        invariant
            i <= selections.len(),
            shape.second_variation,
            selections.len() > 0,
            layout_compatible(*shape),
            forall|i2: int| 0 <= i2 < i ==> components_valid(*shape, #[trigger] selections@[i2]),
        decreases selections.len() - i,
    {
        let s = selections[i];
        let mut spin: u8 = 0;
        while spin < 2
            invariant
                spin <= 2,
                i < selections.len(),
                shape.second_variation,
                selections.len() > 0,
                layout_compatible(*shape),
                s == selections@[i as int],
                forall|i2: int| 0 <= i2 < i ==> components_valid(*shape, #[trigger] selections@[i2]),
                forall|sp: int| 0 <= sp < spin ==> selection_valid(*shape, #[trigger] component(s, sp)),
            decreases 2 - spin,
        {
            let c = ScalarMpbSelection { spin, k: s.k, left_band: s.left_band, right_band: s.right_band };
            assert(c == component(s, spin as int));
            match require_selection(shape, c) {
                Ok(()) => {},
                Err(e) => {
                    assert(!components_valid(*shape, selections@[i as int]));
                    assert(!selection_valid(*shape, component(selections@[i as int], spin as int)));
                    assert(spin == 1 ==> selection_valid(*shape, component(selections@[i as int], 0)));
                    assert(((spin as int) as u8) == spin);
                    assert(Err::<(), ScalarMpbError>(e) == Err::<(), ScalarMpbError>(ScalarMpbError::InvalidSelection {
                        spin: (spin as int) as u8,
                        k: selections@[i as int].k,
                        left_band: selections@[i as int].left_band,
                        right_band: selections@[i as int].right_band,
                    }));
                    return Err(e);
                },
            }
            spin = spin + 1;
        }
        i = i + 1;
    }
    Ok(())
}

// ---------------------------------------------------------------------
// Four-sector THC column accounting.

/// Explicit column and selector-row accounting for one shared four-sector fit.
#[derive(Clone, Copy, Debug, PartialEq, Eq, Structural)]
pub struct SpinorSectorThcRankScaling {
    pub n_k: usize,
    pub n_valence: usize,
    pub n_core: usize,
    pub n_candidates: usize,
    pub effective_rank: usize,
    pub vv_columns_per_q: usize,
    pub cv_columns_per_q: usize,
    pub vc_columns_per_q: usize,
    pub cc_columns_per_q: usize,
    pub pooled_columns_per_q: usize,
    pub selector_rows: usize,
}

/// Rejections of a rank-scaling record.
#[derive(Clone, Copy, Debug, PartialEq, Eq, Structural)]
pub enum RankScalingError {
    /// A sector's column count does not fit `usize`.
    Layouts,
    /// The record disagrees with the frozen frame.
    RankScaling,
}

/// Columns per transfer of an exchange sector: `n_k n_occupied n_target`.
pub open spec fn sector_columns(n_k: int, n_occupied: int, n_target: int) -> int {
    n_k * n_occupied * n_target
}

/// Columns of one exchange sector, or `None` when they overflow.
pub fn exchange_columns(n_k: usize, n_occupied: usize, n_target: usize) -> (r: Option<usize>)
    ensures
        match r {
            Some(c) => c == sector_columns(n_k as int, n_occupied as int, n_target as int),
            None => sector_columns(n_k as int, n_occupied as int, n_target as int) > usize::MAX,
        },
{
    match n_k.checked_mul(n_occupied) {
        None => {
            if n_target == 0 {
                assert(sector_columns(n_k as int, n_occupied as int, n_target as int) == 0) by (nonlinear_arith)
                    requires
                        n_target == 0,
                ;
                return Some(0);
            }
            assert(n_k * n_occupied * n_target > usize::MAX) by (nonlinear_arith)
                requires
                    n_k * n_occupied > usize::MAX,
                    n_target >= 1,
            ;
            None
        },
        Some(a) => match a.checked_mul(n_target) {
            None => None,
            Some(c) => Some(c),
        },
    }
}

/// The accounting a four-sector fit of `n_q` transfers over `n_k`
/// k-points, `n_valence` valence and `n_core` core orbitals at rank
/// `effective_rank` must record (sectors VV, CV, VC, CC).
pub open spec fn rank_scaling_consistent(
    scaling: SpinorSectorThcRankScaling,
    n_q: int,
    n_k: int,
    n_valence: int,
    n_core: int,
    effective_rank: int,
) -> bool {
    let vv = sector_columns(n_k, n_valence, n_valence);
    let cv = sector_columns(n_k, n_core, n_valence);
    let vc = sector_columns(n_k, n_valence, n_core);
    let cc = sector_columns(n_k, n_core, n_core);
    let pooled = vv + cv + vc + cc;
    &&& scaling.n_k == n_k
    &&& scaling.n_valence == n_valence
    &&& scaling.n_core == n_core
    &&& scaling.effective_rank == effective_rank
    &&& scaling.n_candidates >= scaling.effective_rank
    &&& scaling.vv_columns_per_q == vv
    &&& scaling.cv_columns_per_q == cv
    &&& scaling.vc_columns_per_q == vc
    &&& scaling.cc_columns_per_q == cc
    &&& scaling.pooled_columns_per_q == pooled
    &&& scaling.selector_rows == n_q * pooled
}

/// Check a fit's rank-scaling record against its frozen frame.
pub fn require_rank_scaling(
    scaling: &SpinorSectorThcRankScaling,
    n_q: usize,
    n_k: usize,
    n_valence: usize,
    n_core: usize,
    effective_rank: usize,
) -> (r: Result<(), RankScalingError>)
    requires
        sector_columns(n_k as int, n_valence as int, n_valence as int) <= usize::MAX
            && sector_columns(n_k as int, n_core as int, n_valence as int) <= usize::MAX
            && sector_columns(n_k as int, n_valence as int, n_core as int) <= usize::MAX
            && sector_columns(n_k as int, n_core as int, n_core as int) <= usize::MAX
            ==> n_q * (sector_columns(n_k as int, n_valence as int, n_valence as int)
                + sector_columns(n_k as int, n_core as int, n_valence as int)
                + sector_columns(n_k as int, n_valence as int, n_core as int)
                + sector_columns(n_k as int, n_core as int, n_core as int)) <= usize::MAX,
    ensures
        r is Ok <==> rank_scaling_consistent(*scaling, n_q as int, n_k as int, n_valence as int, n_core as int, effective_rank as int),
        r == Err::<(), RankScalingError>(RankScalingError::Layouts) <==> (
            sector_columns(n_k as int, n_valence as int, n_valence as int) > usize::MAX
            || sector_columns(n_k as int, n_core as int, n_valence as int) > usize::MAX
            || sector_columns(n_k as int, n_valence as int, n_core as int) > usize::MAX
            || sector_columns(n_k as int, n_core as int, n_core as int) > usize::MAX),
{
    let vv = match exchange_columns(n_k, n_valence, n_valence) { Some(c) => c, None => return Err(RankScalingError::Layouts) };
    let cv = match exchange_columns(n_k, n_core, n_valence) { Some(c) => c, None => return Err(RankScalingError::Layouts) };
    let vc = match exchange_columns(n_k, n_valence, n_core) { Some(c) => c, None => return Err(RankScalingError::Layouts) };
    let cc = match exchange_columns(n_k, n_core, n_core) { Some(c) => c, None => return Err(RankScalingError::Layouts) };
    let pooled_wide: u128 = vv as u128 + cv as u128 + vc as u128 + cc as u128;
    if pooled_wide > usize::MAX as u128 {
        return Err(RankScalingError::RankScaling);
    }
    let pooled = pooled_wide as usize;
    proof {
        assert(pooled == 0 || n_q * pooled >= n_q) by (nonlinear_arith)
            requires
                pooled >= 0,
                n_q >= 0,
        ;
    }
    if pooled == 0 && scaling.selector_rows != 0 {
        return Err(RankScalingError::RankScaling);
    }
    let rows = n_q * pooled;
    if scaling.n_k != n_k
        || scaling.n_valence != n_valence
        || scaling.n_core != n_core
        || scaling.effective_rank != effective_rank
        || scaling.n_candidates < scaling.effective_rank
        || scaling.vv_columns_per_q != vv
        || scaling.cv_columns_per_q != cv
        || scaling.vc_columns_per_q != vc
        || scaling.cc_columns_per_q != cc
        || scaling.pooled_columns_per_q != pooled
        || scaling.selector_rows != rows
    {
        return Err(RankScalingError::RankScaling);
    }
    Ok(())
}

} // verus!
