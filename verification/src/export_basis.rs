//! Exportability of the compiled spinor bases of an MLDUMP export: every
//! basis describes every site, each site's APW matching lists one
//! canonical channel sequence shared by all plane waves with one
//! coefficient per channel and Pauli component, and each site's compiled
//! geometry binds to the partition and the header.
use vstd::prelude::*;
use crate::kappa::valid_kappa;
use crate::mldump_tables::N_PAULI;
use crate::site_match::{
    ChannelSequenceError, RelativisticChannel, channel_sequence_verdict,
    require_canonical_channel_sequence,
};

verus! {

/// The APW matching of one plane wave at one site: its channels and, per
/// Pauli component present, the number of coefficients.
#[derive(Debug)]
pub struct WaveShape {
    pub channels: Vec<RelativisticChannel>,
    pub coefficient_counts: Vec<usize>,
}

/// What the export checks of one k-point's compiled spinor basis.
#[derive(Debug)]
pub struct ExportBasisShape {
    /// Sites of the basis layout.
    pub layout_site_count: usize,
    /// Sites the basis itself reports.
    pub site_count: usize,
    /// Spatial plane waves of the layout.
    pub spatial_plane_wave_count: usize,
    /// Plane-wave labels of the basis.
    pub plane_wave_count: usize,
    /// Per site, per plane wave, the APW matching.
    pub site_augmentations: Vec<Vec<WaveShape>>,
    /// Number of compiled site geometries.
    pub site_geometry_count: usize,
    /// Per site: the compiled geometry exists and its position and radius
    /// agree with the partition's and the header's.
    pub geometry_bound: Vec<bool>,
}

/// Rejections of a basis for export, in the order they are checked.
#[derive(Clone, Copy, Debug, PartialEq, Eq, Structural)]
pub enum ExportBasisError {
    /// The header lists another number of sites than the partition.
    HeaderSites { expected: usize, actual: usize },
    /// Basis `k` does not describe every partition site.
    BasisSites { k: usize },
    /// The site augmentations or geometries do not match the layout's sites.
    SiteAugmentations,
    /// The basis's plane waves are not the layout's spatial plane waves.
    PlaneWaves { expected: usize, actual: usize },
    /// No APW matching for a site.
    MissingSiteMatch { site: usize },
    /// A site's APW matching does not cover every plane wave.
    SiteMatchPlaneWaves { site: usize, expected: usize, actual: usize },
    /// A site's channels are not in canonical order.
    Channels { site: usize, error: ChannelSequenceError },
    /// A plane wave lists other channels than the first.
    ChannelOrder { site: usize, pw: usize },
    /// A plane wave lacks a Pauli component.
    MissingPauli { site: usize, pw: usize, pauli: usize },
    /// A Pauli component has another number of coefficients than channels.
    CoefficientCount { site: usize, pw: usize, pauli: usize, expected: usize, actual: usize },
    /// A site's compiled geometry does not bind to the partition and header.
    GeometryBinding { k: usize, site: usize },
}

/// Every channel of every plane wave of every site has a valid `kappa`.
pub open spec fn channels_valid(b: ExportBasisShape) -> bool {
    forall|site: int, pw: int, c: int|
        0 <= site < b.site_augmentations.len()
        && 0 <= pw < b.site_augmentations@[site].len()
        && 0 <= c < b.site_augmentations@[site]@[pw].channels.len()
        ==> valid_kappa(#[trigger] b.site_augmentations@[site]@[pw].channels@[c].kappa)
}

/// The channels every plane wave of a site must list: those of its first.
pub open spec fn site_channels(waves: Seq<WaveShape>) -> Seq<RelativisticChannel> {
    if waves.len() > 0 { waves[0].channels@ } else { Seq::empty() }
}

/// The rejection plane wave `pw` of a site draws, if any.
pub open spec fn wave_rejection(site: int, pw: int, channels: Seq<RelativisticChannel>, w: WaveShape) -> Option<ExportBasisError> {
    if w.channels@ != channels {
        Some(ExportBasisError::ChannelOrder { site: site as usize, pw: pw as usize })
    } else if w.coefficient_counts.len() < 1 {
        Some(ExportBasisError::MissingPauli { site: site as usize, pw: pw as usize, pauli: 0 })
    } else if w.coefficient_counts@[0] != channels.len() {
        Some(ExportBasisError::CoefficientCount {
            site: site as usize, pw: pw as usize, pauli: 0,
            expected: channels.len() as usize, actual: w.coefficient_counts@[0],
        })
    } else if w.coefficient_counts.len() < 2 {
        Some(ExportBasisError::MissingPauli { site: site as usize, pw: pw as usize, pauli: 1 })
    } else if w.coefficient_counts@[1] != channels.len() {
        Some(ExportBasisError::CoefficientCount {
            site: site as usize, pw: pw as usize, pauli: 1,
            expected: channels.len() as usize, actual: w.coefficient_counts@[1],
        })
    } else {
        None
    }
}

/// The first rejection among plane waves `from..` of a site.
pub open spec fn first_wave_rejection(site: int, channels: Seq<RelativisticChannel>, waves: Seq<WaveShape>, from: int) -> Option<ExportBasisError>
    decreases waves.len() - from,
{
    if from < 0 || from >= waves.len() {
        None
    } else if wave_rejection(site, from, channels, waves[from]) is Some {
        wave_rejection(site, from, channels, waves[from])
    } else {
        first_wave_rejection(site, channels, waves, from + 1)
    }
}

/// The verdict on one site's APW matching in a basis.
pub open spec fn augmentation_verdict(b: ExportBasisShape, site: int) -> Result<(), ExportBasisError> {
    let n_sites = b.layout_site_count;
    let n_pw = b.plane_wave_count;
    if b.site_augmentations.len() != n_sites || b.site_geometry_count != n_sites {
        Err(ExportBasisError::SiteAugmentations)
    } else if n_pw != b.spatial_plane_wave_count {
        Err(ExportBasisError::PlaneWaves { expected: b.spatial_plane_wave_count, actual: n_pw })
    } else if site >= b.site_augmentations.len() {
        Err(ExportBasisError::MissingSiteMatch { site: site as usize })
    } else {
        let waves = b.site_augmentations@[site]@;
        if waves.len() != n_pw {
            Err(ExportBasisError::SiteMatchPlaneWaves { site: site as usize, expected: n_pw, actual: waves.len() as usize })
        } else {
            match channel_sequence_verdict(site_channels(waves)) {
                Err(e) => Err(ExportBasisError::Channels { site: site as usize, error: e }),
                Ok(()) => match first_wave_rejection(site, site_channels(waves), waves, 0) {
                    Some(e) => Err(e),
                    None => Ok(()),
                },
            }
        }
    }
}

/// The rejection site `site` of basis `k` draws: its APW matching, then
/// its geometry binding.
pub open spec fn site_rejection(b: ExportBasisShape, k: int, site: int) -> Option<ExportBasisError> {
    match augmentation_verdict(b, site) {
        Err(e) => Some(e),
        Ok(()) => if site < b.geometry_bound.len() && b.geometry_bound@[site] {
            None
        } else {
            Some(ExportBasisError::GeometryBinding { k: k as usize, site: site as usize })
        },
    }
}

/// The first rejection among sites `from..n_sites` of basis `k`.
pub open spec fn first_site_rejection(b: ExportBasisShape, k: int, n_sites: int, from: int) -> Option<ExportBasisError>
    decreases n_sites - from,
{
    if from < 0 || from >= n_sites {
        None
    } else if site_rejection(b, k, from) is Some {
        site_rejection(b, k, from)
    } else {
        first_site_rejection(b, k, n_sites, from + 1)
    }
}

/// The rejection basis `k` draws over `n_sites` partition sites.
pub open spec fn basis_rejection(b: ExportBasisShape, k: int, n_sites: int) -> Option<ExportBasisError> {
    if b.layout_site_count != n_sites || b.site_augmentations.len() != n_sites
        || b.site_geometry_count != n_sites || b.site_count != n_sites {
        Some(ExportBasisError::BasisSites { k: k as usize })
    } else {
        first_site_rejection(b, k, n_sites, 0)
    }
}

/// The first rejection among bases `from..`.
pub open spec fn first_basis_rejection(bases: Seq<ExportBasisShape>, n_sites: int, from: int) -> Option<ExportBasisError>
    decreases bases.len() - from,
{
    if from < 0 || from >= bases.len() {
        None
    } else if basis_rejection(bases[from], from, n_sites) is Some {
        basis_rejection(bases[from], from, n_sites)
    } else {
        first_basis_rejection(bases, n_sites, from + 1)
    }
}

/// The verdict on the per-k bases of an export over `n_sites` partition
/// sites and a header listing `header_sites` sites.
pub open spec fn bases_verdict(n_sites: int, header_sites: int, bases: Seq<ExportBasisShape>) -> Result<(), ExportBasisError> {
    if header_sites != n_sites {
        Err(ExportBasisError::HeaderSites { expected: n_sites as usize, actual: header_sites as usize })
    } else {
        match first_basis_rejection(bases, n_sites, 0) {
            Some(e) => Err(e),
            None => Ok(()),
        }
    }
}

fn same_channels(a: &Vec<RelativisticChannel>, b: &Vec<RelativisticChannel>) -> (r: bool)
    ensures
        r == (a@ == b@),
{
    if a.len() != b.len() {
        return false;
    }
    let mut i: usize = 0;
    while i < a.len()
        invariant
            a.len() == b.len(),
            i <= a.len(),
            forall|j: int| 0 <= j < i ==> a@[j] == b@[j],
        decreases a.len() - i,
    {
        if a[i] != b[i] {
            return false;
        }
        i = i + 1;
    }
    assert(a@ =~= b@);
    true
}

fn check_wave(site: usize, pw: usize, channels: &Vec<RelativisticChannel>, w: &WaveShape) -> (r: Option<ExportBasisError>)
    ensures
        r == wave_rejection(site as int, pw as int, channels@, *w),
{
    if !same_channels(&w.channels, channels) {
        return Some(ExportBasisError::ChannelOrder { site, pw });
    }
    let mut pauli: usize = 0;
    while pauli < N_PAULI
        invariant
            pauli <= N_PAULI,
            w.channels@ == channels@,
            pauli >= 1 ==> w.coefficient_counts.len() >= 1 && w.coefficient_counts@[0] == channels.len(),
            pauli >= 2 ==> w.coefficient_counts.len() >= 2 && w.coefficient_counts@[1] == channels.len(),
        decreases N_PAULI - pauli,
    {
        if pauli >= w.coefficient_counts.len() {
            return Some(ExportBasisError::MissingPauli { site, pw, pauli });
        }
        if w.coefficient_counts[pauli] != channels.len() {
            return Some(ExportBasisError::CoefficientCount {
                site, pw, pauli, expected: channels.len(), actual: w.coefficient_counts[pauli],
            });
        }
        pauli = pauli + 1;
    }
    None
}

proof fn lemma_no_wave_rejection(site: int, channels: Seq<RelativisticChannel>, waves: Seq<WaveShape>, from: int)
    requires
        0 <= from,
        first_wave_rejection(site, channels, waves, from) is None,
    ensures
        forall|pw: int| from <= pw < waves.len() ==> #[trigger] wave_rejection(site, pw, channels, waves[pw]) is None,
    decreases waves.len() - from,
{
    if from < waves.len() {
        lemma_no_wave_rejection(site, channels, waves, from + 1);
    }
}

/// An exportable site has one APW matching per plane wave, every plane
/// wave lists the first plane wave's channels, and each of its two Pauli
/// components carries one coefficient per channel.
pub proof fn lemma_exportable_site(b: ExportBasisShape, site: int)
    requires
        0 <= site,
        augmentation_verdict(b, site) is Ok,
    ensures
        0 <= site < b.site_augmentations.len(),
        b.site_augmentations@[site].len() == b.plane_wave_count,
        b.plane_wave_count == b.spatial_plane_wave_count,
        forall|pw: int| #![trigger b.site_augmentations@[site]@[pw]] 0 <= pw < b.site_augmentations@[site].len() ==> {
            let w = b.site_augmentations@[site]@[pw];
            let first = b.site_augmentations@[site]@[0];
            &&& w.channels@ == first.channels@
            &&& w.coefficient_counts.len() >= 2
            &&& w.coefficient_counts@[0] == first.channels.len()
            &&& w.coefficient_counts@[1] == first.channels.len()
        },
{
    let waves = b.site_augmentations@[site]@;
    lemma_no_wave_rejection(site, site_channels(waves), waves, 0);
    assert forall|pw: int| #![trigger b.site_augmentations@[site]@[pw]] 0 <= pw < b.site_augmentations@[site].len() implies {
        let w = b.site_augmentations@[site]@[pw];
        let first = b.site_augmentations@[site]@[0];
        &&& w.channels@ == first.channels@
        &&& w.coefficient_counts.len() >= 2
        &&& w.coefficient_counts@[0] == first.channels.len()
        &&& w.coefficient_counts@[1] == first.channels.len()
    } by {
        assert(wave_rejection(site, pw, site_channels(waves), waves[pw]) is None);
    }
}

proof fn lemma_waves_clear(site: int, channels: Seq<RelativisticChannel>, waves: Seq<WaveShape>, from: int)
    requires
        0 <= from,
        forall|pw: int| from <= pw < waves.len() ==> #[trigger] wave_rejection(site, pw, channels, waves[pw]) is None,
    ensures
        first_wave_rejection(site, channels, waves, from) is None,
    decreases waves.len() - from,
{
    if from < waves.len() {
        lemma_waves_clear(site, channels, waves, from + 1);
    }
}

proof fn lemma_first_wave_rejection_at(site: int, channels: Seq<RelativisticChannel>, waves: Seq<WaveShape>, from: int, pw: int)
    requires
        0 <= from <= pw < waves.len(),
        forall|q: int| from <= q < pw ==> #[trigger] wave_rejection(site, q, channels, waves[q]) is None,
        wave_rejection(site, pw, channels, waves[pw]) is Some,
    ensures
        first_wave_rejection(site, channels, waves, from) == wave_rejection(site, pw, channels, waves[pw]),
    decreases pw - from,
{
    if from < pw {
        lemma_first_wave_rejection_at(site, channels, waves, from + 1, pw);
    }
}

/// A site whose layout and plane-wave counts agree, whose first plane wave
/// lists a canonical channel sequence, and whose every plane wave lists
/// those channels with one coefficient per channel in both Pauli
/// components is exportable. When every earlier plane wave is so, a plane
/// wave listing those channels whose Pauli component `pauli` (all earlier
/// components matching) carries another number of coefficients than there
/// are channels rejects the site, naming the site, the plane wave, the
/// component, the channel count and the coefficient count.
pub proof fn lemma_site_coefficient_counts_decide(b: ExportBasisShape, site: int, pw: int, pauli: int)
    requires
        0 <= site < b.site_augmentations.len(),
        b.site_augmentations.len() == b.layout_site_count,
        b.site_geometry_count == b.layout_site_count,
        b.plane_wave_count == b.spatial_plane_wave_count,
        b.site_augmentations@[site].len() == b.plane_wave_count,
        b.plane_wave_count > 0,
        channel_sequence_verdict(b.site_augmentations@[site]@[0].channels@) is Ok,
    ensures
        (forall|q: int| 0 <= q < b.site_augmentations@[site].len() ==> {
            let w = #[trigger] b.site_augmentations@[site]@[q];
            let first = b.site_augmentations@[site]@[0];
            &&& w.channels@ == first.channels@
            &&& w.coefficient_counts.len() >= 2
            &&& w.coefficient_counts@[0] == first.channels.len()
            &&& w.coefficient_counts@[1] == first.channels.len()
        }) ==> augmentation_verdict(b, site) == Ok::<(), ExportBasisError>(()),
        ({
            let waves = b.site_augmentations@[site]@;
            let first = waves[0];
            let w = waves[pw];
            &&& 0 <= pw < waves.len()
            &&& (pauli == 0 || pauli == 1)
            &&& forall|q: int| 0 <= q < pw ==> {
                let v = #[trigger] b.site_augmentations@[site]@[q];
                &&& v.channels@ == first.channels@
                &&& v.coefficient_counts.len() >= 2
                &&& v.coefficient_counts@[0] == first.channels.len()
                &&& v.coefficient_counts@[1] == first.channels.len()
            }
            &&& w.channels@ == first.channels@
            &&& w.coefficient_counts.len() > pauli
            &&& (pauli == 1 ==> w.coefficient_counts@[0] == first.channels.len())
            &&& w.coefficient_counts@[pauli] != first.channels.len()
        }) ==> augmentation_verdict(b, site) == Err::<(), ExportBasisError>(ExportBasisError::CoefficientCount {
            site: site as usize,
            pw: pw as usize,
            pauli: pauli as usize,
            expected: b.site_augmentations@[site]@[0].channels.len(),
            actual: b.site_augmentations@[site]@[pw].coefficient_counts@[pauli],
        }),
{
    let waves = b.site_augmentations@[site]@;
    let channels = site_channels(waves);
    assert(channels == waves[0].channels@);
    if forall|q: int| 0 <= q < b.site_augmentations@[site].len() ==> {
        let w = #[trigger] b.site_augmentations@[site]@[q];
        let first = b.site_augmentations@[site]@[0];
        &&& w.channels@ == first.channels@
        &&& w.coefficient_counts.len() >= 2
        &&& w.coefficient_counts@[0] == first.channels.len()
        &&& w.coefficient_counts@[1] == first.channels.len()
    } {
        assert forall|q: int| 0 <= q < waves.len() implies #[trigger] wave_rejection(site, q, channels, waves[q]) is None by {
            assert(b.site_augmentations@[site]@[q] == waves[q]);
        }
        lemma_waves_clear(site, channels, waves, 0);
    }
    if 0 <= pw < waves.len() && (pauli == 0 || pauli == 1)
        && (forall|q: int| 0 <= q < pw ==> {
            let v = #[trigger] b.site_augmentations@[site]@[q];
            &&& v.channels@ == waves[0].channels@
            &&& v.coefficient_counts.len() >= 2
            &&& v.coefficient_counts@[0] == waves[0].channels.len()
            &&& v.coefficient_counts@[1] == waves[0].channels.len()
        })
        && waves[pw].channels@ == waves[0].channels@
        && waves[pw].coefficient_counts.len() > pauli
        && (pauli == 1 ==> waves[pw].coefficient_counts@[0] == waves[0].channels.len())
        && waves[pw].coefficient_counts@[pauli] != waves[0].channels.len() {
        assert forall|q: int| 0 <= q < pw implies #[trigger] wave_rejection(site, q, channels, waves[q]) is None by {
            assert(b.site_augmentations@[site]@[q] == waves[q]);
        }
        lemma_first_wave_rejection_at(site, channels, waves, 0, pw);
    }
}

proof fn lemma_no_basis_rejection(bases: Seq<ExportBasisShape>, n_sites: int, from: int)
    requires
        0 <= from,
        first_basis_rejection(bases, n_sites, from) is None,
    ensures
        forall|k: int| from <= k < bases.len() ==> #[trigger] basis_rejection(bases[k], k, n_sites) is None,
    decreases bases.len() - from,
{
    if from < bases.len() {
        lemma_no_basis_rejection(bases, n_sites, from + 1);
    }
}

proof fn lemma_no_site_rejection(b: ExportBasisShape, k: int, n_sites: int, from: int)
    requires
        0 <= from,
        first_site_rejection(b, k, n_sites, from) is None,
    ensures
        forall|site: int| from <= site < n_sites ==> #[trigger] site_rejection(b, k, site) is None,
    decreases n_sites - from,
{
    if from < n_sites {
        lemma_no_site_rejection(b, k, n_sites, from + 1);
    }
}

/// An export is accepted only when the header lists the partition's
/// sites and every basis describes exactly those sites (layout,
/// augmentations, geometries and reported sites), with every site's APW
/// matching exportable (see [`lemma_exportable_site`]) and its compiled
/// geometry bound to the partition and header.
pub proof fn lemma_exportable_bases(n_sites: int, header_sites: int, bases: Seq<ExportBasisShape>)
    requires
        bases_verdict(n_sites, header_sites, bases) is Ok,
    ensures
        header_sites == n_sites,
        forall|k: int| 0 <= k < bases.len() ==> {
            let b = #[trigger] bases[k];
            &&& b.layout_site_count == n_sites
            &&& b.site_augmentations.len() == n_sites
            &&& b.site_geometry_count == n_sites
            &&& b.site_count == n_sites
        },
        forall|k: int, site: int| 0 <= k < bases.len() && 0 <= site < n_sites ==> {
            &&& #[trigger] augmentation_verdict(bases[k], site) is Ok
            &&& site < bases[k].geometry_bound.len()
            &&& bases[k].geometry_bound@[site]
        },
{
    lemma_no_basis_rejection(bases, n_sites, 0);
    assert forall|k: int, site: int| 0 <= k < bases.len() && 0 <= site < n_sites implies {
        &&& #[trigger] augmentation_verdict(bases[k], site) is Ok
        &&& site < bases[k].geometry_bound.len()
        &&& bases[k].geometry_bound@[site]
    } by {
        assert(basis_rejection(bases[k], k, n_sites) is None);
        lemma_no_site_rejection(bases[k], k, n_sites, 0);
        assert(site_rejection(bases[k], k, site) is None);
    }
    assert forall|k: int| 0 <= k < bases.len() implies {
        let b = #[trigger] bases[k];
        &&& b.layout_site_count == n_sites
        &&& b.site_augmentations.len() == n_sites
        &&& b.site_geometry_count == n_sites
        &&& b.site_count == n_sites
    } by {
        assert(basis_rejection(bases[k], k, n_sites) is None);
    }
}

/// Check one site's APW matching in a compiled basis for export; the
/// result is exactly [`augmentation_verdict`].
pub fn require_exportable_site_augmentation(b: &ExportBasisShape, site: usize) -> (r: Result<(), ExportBasisError>)
    requires
        channels_valid(*b),
    ensures
        r == augmentation_verdict(*b, site as int),
        r is Ok ==> site < b.site_augmentations.len() && forall|pw: int| #![trigger b.site_augmentations@[site as int]@[pw]]
            0 <= pw < b.site_augmentations@[site as int].len() ==> {
            let w = b.site_augmentations@[site as int]@[pw];
            let first = b.site_augmentations@[site as int]@[0];
            &&& w.channels@ == first.channels@
            &&& w.coefficient_counts.len() >= 2
            &&& w.coefficient_counts@[0] == first.channels.len()
            &&& w.coefficient_counts@[1] == first.channels.len()
        },
{
    proof { if augmentation_verdict(*b, site as int) is Ok { lemma_exportable_site(*b, site as int); } }
    let n_sites = b.layout_site_count;
    if b.site_augmentations.len() != n_sites || b.site_geometry_count != n_sites {
        return Err(ExportBasisError::SiteAugmentations);
    }
    let n_pw = b.plane_wave_count;
    if n_pw != b.spatial_plane_wave_count {
        return Err(ExportBasisError::PlaneWaves { expected: b.spatial_plane_wave_count, actual: n_pw });
    }
    if site >= b.site_augmentations.len() {
        return Err(ExportBasisError::MissingSiteMatch { site });
    }
    let waves = &b.site_augmentations[site];
    if waves.len() != n_pw {
        return Err(ExportBasisError::SiteMatchPlaneWaves { site, expected: n_pw, actual: waves.len() });
    }
    let empty: Vec<RelativisticChannel> = Vec::new();
    let channels: &Vec<RelativisticChannel> = if waves.len() > 0 { &waves[0].channels } else { &empty };
    assert(channels@ == site_channels(waves@));
    proof {
        assert forall|c: int| 0 <= c < channels.len() implies valid_kappa(#[trigger] channels@[c].kappa) by {
            assert(valid_kappa(b.site_augmentations@[site as int]@[0].channels@[c].kappa));
        }
    }
    match require_canonical_channel_sequence(channels) {
        Err(e) => {
            return Err(ExportBasisError::Channels { site, error: e });
        },
        Ok(()) => {},
    }
    let mut pw: usize = 0;
    while pw < waves.len()
        invariant
            site < b.site_augmentations.len(),
            b.site_augmentations.len() == b.layout_site_count,
            b.site_geometry_count == b.layout_site_count,
            b.plane_wave_count == b.spatial_plane_wave_count,
            waves.len() == b.plane_wave_count,
            channel_sequence_verdict(channels@) == Ok::<(), ChannelSequenceError>(()),
            waves@ == b.site_augmentations@[site as int]@,
            channels@ == site_channels(waves@),
            pw <= waves.len(),
            first_wave_rejection(site as int, channels@, waves@, 0) == first_wave_rejection(site as int, channels@, waves@, pw as int),
        decreases waves.len() - pw,
    {
        match check_wave(site, pw, channels, &waves[pw]) {
            Some(e) => {
                return Err(e);
            },
            None => {},
        }
        pw = pw + 1;
    }
    Ok(())
}

/// Check every k-point's compiled basis for export over `n_sites`
/// partition sites and a header listing `header_sites` sites; the result
/// is exactly [`bases_verdict`].
pub fn require_spinor_bases_exportable(n_sites: usize, header_sites: usize, bases: &Vec<ExportBasisShape>) -> (r: Result<(), ExportBasisError>)
    requires
        forall|k: int| 0 <= k < bases.len() ==> channels_valid(#[trigger] bases@[k]),
    ensures
        r == bases_verdict(n_sites as int, header_sites as int, bases@),
{
    if header_sites != n_sites {
        return Err(ExportBasisError::HeaderSites { expected: n_sites, actual: header_sites });
    }
    let mut k: usize = 0;
    while k < bases.len()
        invariant
            header_sites == n_sites,
            forall|k2: int| 0 <= k2 < bases.len() ==> channels_valid(#[trigger] bases@[k2]),
            k <= bases.len(),
            first_basis_rejection(bases@, n_sites as int, 0) == first_basis_rejection(bases@, n_sites as int, k as int),
        decreases bases.len() - k,
    {
        let b = &bases[k];
        if b.layout_site_count != n_sites || b.site_augmentations.len() != n_sites
            || b.site_geometry_count != n_sites || b.site_count != n_sites {
            return Err(ExportBasisError::BasisSites { k });
        }
        let mut site: usize = 0;
        while site < n_sites
            invariant
                header_sites == n_sites,
                k < bases.len(),
                first_basis_rejection(bases@, n_sites as int, 0) == first_basis_rejection(bases@, n_sites as int, k as int),
                b == bases@[k as int],
                channels_valid(*b),
                basis_rejection(*b, k as int, n_sites as int) == first_site_rejection(*b, k as int, n_sites as int, 0),
                first_site_rejection(*b, k as int, n_sites as int, 0) == first_site_rejection(*b, k as int, n_sites as int, site as int),
                site <= n_sites,
            decreases n_sites - site,
        {
            match require_exportable_site_augmentation(b, site) {
                Err(e) => {
                    return Err(e);
                },
                Ok(()) => {},
            }
            if site >= b.geometry_bound.len() || !b.geometry_bound[site] {
                return Err(ExportBasisError::GeometryBinding { k, site });
            }
            site = site + 1;
        }
        k = k + 1;
    }
    Ok(())
}

} // verus!
