//! Admission of a neutral atomic-superposition restart request: the
//! structural checks made before any density or potential is built.
//!
//! The two floating-point conditions of a request (neutral electron count,
//! finite positive plane-wave cutoff) are decided by the caller and enter as
//! verdicts; everything else is checked here.
use vstd::prelude::*;
use crate::channels::{ChannelEnergyGenerator, ScfChannelRecipe};
use crate::workflow::Relativity;

verus! {

/// Radial equation a site's radial basis is generated with.
#[derive(Clone, Copy, Debug, PartialEq, Eq, Structural)]
pub enum RadialEquation {
    ScalarKoellingHarmon,
    FullyRelativisticDirac,
}

/// One site's radial-basis template: the site and its radial equation.
#[derive(Clone, Debug)]
pub struct RadialBasisEntry {
    pub site_id: String,
    pub radial_equation: RadialEquation,
}

/// What the admission of an atomic-snapshot request reads.
#[derive(Debug)]
pub struct AtomicSnapshotRequestShape {
    /// The requested electron count equals the sum of the atomic numbers.
    pub electron_count_is_neutral: bool,
    /// Regular k-mesh divisions along the three reciprocal axes.
    pub k_divisions: [usize; 3],
    /// The plane-wave cutoff is finite and positive.
    pub plane_wave_cutoff_is_valid: bool,
    /// Basis `l_max`.
    pub l_max: u32,
    /// Number of basis channels the request already carries resolved.
    pub resolved_channel_count: usize,
    /// The basis channel recipes of the request.
    pub channels: Vec<ScfChannelRecipe>,
    /// Relativistic treatment of the SCF.
    pub relativity: Relativity,
    /// The radial-basis templates of the geometry.
    pub radial_basis: Vec<RadialBasisEntry>,
}

/// Rejections of an atomic-snapshot request, in the order they are checked.
#[derive(Debug, PartialEq, Eq)]
pub enum AtomicRequestError {
    /// The electron count is not that of the neutral atoms.
    NonNeutralElectronCount,
    /// A k-mesh division is zero.
    ZeroKMeshDivision { axis: usize },
    /// The plane-wave cutoff is not finite and positive.
    InvalidPlaneWaveCutoff,
    /// The basis `l_max` is zero.
    ZeroLMax,
    /// The request already carries resolved basis channels.
    PreResolvedBasis,
    /// A channel asks for energies frozen from a snapshot that does not exist yet.
    FrozenSnapshotGenerator { site: String },
    /// A channel's generator needs bands or a chemical potential.
    SpectralGenerator { site: String, generator: ChannelEnergyGenerator },
    /// A seeded generator has no seed.
    MissingGeneratorSeed { site: String, generator: ChannelEnergyGenerator },
    /// A site's radial basis uses the equation of another relativistic route.
    RadialEquationRoute {
        site: String,
        relativity: Relativity,
        expected: RadialEquation,
        actual: RadialEquation,
    },
}

/// The radial equation a relativistic route builds its basis with.
pub open spec fn expected_radial_equation(relativity: Relativity) -> RadialEquation {
    match relativity {
        Relativity::SpinorFirstVariation => RadialEquation::FullyRelativisticDirac,
        _ => RadialEquation::ScalarKoellingHarmon,
    }
}

/// The rejection a single channel recipe draws, if any.
pub open spec fn channel_rejection(c: ScfChannelRecipe) -> Option<AtomicRequestError> {
    match c.generator {
        ChannelEnergyGenerator::FrozenCheckpoint => Some(AtomicRequestError::FrozenSnapshotGenerator { site: c.site }),
        ChannelEnergyGenerator::BandCog | ChannelEnergyGenerator::FermiOffset =>
            Some(AtomicRequestError::SpectralGenerator { site: c.site, generator: c.generator }),
        ChannelEnergyGenerator::Atomic => None,
        _ => if c.seed is None {
            Some(AtomicRequestError::MissingGeneratorSeed { site: c.site, generator: c.generator })
        } else {
            None
        },
    }
}

/// The rejection a radial-basis entry draws under a relativistic route, if any.
pub open spec fn radial_rejection(relativity: Relativity, e: RadialBasisEntry) -> Option<AtomicRequestError> {
    if e.radial_equation == expected_radial_equation(relativity) {
        None
    } else {
        Some(AtomicRequestError::RadialEquationRoute {
            site: e.site_id,
            relativity,
            expected: expected_radial_equation(relativity),
            actual: e.radial_equation,
        })
    }
}

/// The first rejection among the channel recipes `chans[from..]`, if any.
pub open spec fn first_channel_rejection(chans: Seq<ScfChannelRecipe>, from: int) -> Option<AtomicRequestError>
    decreases chans.len() - from,
{
    if from < 0 || from >= chans.len() {
        None
    } else if channel_rejection(chans[from]) is Some {
        channel_rejection(chans[from])
    } else {
        first_channel_rejection(chans, from + 1)
    }
}

/// The first rejection among the radial-basis entries `entries[from..]`, if any.
pub open spec fn first_radial_rejection(relativity: Relativity, entries: Seq<RadialBasisEntry>, from: int) -> Option<AtomicRequestError>
    decreases entries.len() - from,
{
    if from < 0 || from >= entries.len() {
        None
    } else if radial_rejection(relativity, entries[from]) is Some {
        radial_rejection(relativity, entries[from])
    } else {
        first_radial_rejection(relativity, entries, from + 1)
    }
}

/// The verdict on a whole request: the first failing check in the order
/// neutrality, k mesh (first zero axis), cutoff, `l_max`, resolved
/// channels, channel generators (first failing channel), radial equations
/// (first failing site).
pub open spec fn request_verdict(r: AtomicSnapshotRequestShape) -> Result<(), AtomicRequestError> {
    if !r.electron_count_is_neutral {
        Err(AtomicRequestError::NonNeutralElectronCount)
    } else if r.k_divisions[0] == 0 {
        Err(AtomicRequestError::ZeroKMeshDivision { axis: 0 })
    } else if r.k_divisions[1] == 0 {
        Err(AtomicRequestError::ZeroKMeshDivision { axis: 1 })
    } else if r.k_divisions[2] == 0 {
        Err(AtomicRequestError::ZeroKMeshDivision { axis: 2 })
    } else if !r.plane_wave_cutoff_is_valid {
        Err(AtomicRequestError::InvalidPlaneWaveCutoff)
    } else if r.l_max == 0 {
        Err(AtomicRequestError::ZeroLMax)
    } else if r.resolved_channel_count != 0 {
        Err(AtomicRequestError::PreResolvedBasis)
    } else {
        match first_channel_rejection(r.channels@, 0) {
            Some(e) => Err(e),
            None => match first_radial_rejection(r.relativity, r.radial_basis@, 0) {
                Some(e) => Err(e),
                None => Ok(()),
            },
        }
    }
}

fn check_channel(c: &ScfChannelRecipe) -> (r: Option<AtomicRequestError>)
    ensures
        r == channel_rejection(*c),
{
    match c.generator {
        ChannelEnergyGenerator::FrozenCheckpoint => Some(AtomicRequestError::FrozenSnapshotGenerator { site: c.site.clone() }),
        ChannelEnergyGenerator::BandCog | ChannelEnergyGenerator::FermiOffset =>
            Some(AtomicRequestError::SpectralGenerator { site: c.site.clone(), generator: c.generator }),
        ChannelEnergyGenerator::Atomic => None,
        _ => if c.seed.is_none() {
            Some(AtomicRequestError::MissingGeneratorSeed { site: c.site.clone(), generator: c.generator })
        } else {
            None
        },
    }
}

fn expected_equation(relativity: Relativity) -> (r: RadialEquation)
    ensures
        r == expected_radial_equation(relativity),
{
    match relativity {
        Relativity::SpinorFirstVariation => RadialEquation::FullyRelativisticDirac,
        _ => RadialEquation::ScalarKoellingHarmon,
    }
}

/// What an admitted request is: neutral, with three nonzero k-mesh
/// divisions, a valid cutoff, a positive `l_max`, no pre-resolved channels,
/// no channel whose energies need a snapshot, bands or a chemical
/// potential, a seed for every seeded generator, and every radial basis
/// built with the route's equation. And a neutral request with a zero
/// division is rejected naming its first zero axis.
pub proof fn lemma_admitted_request(r: AtomicSnapshotRequestShape)
    ensures
        request_verdict(r) is Ok ==> {
            &&& r.electron_count_is_neutral
            &&& r.k_divisions[0] != 0 && r.k_divisions[1] != 0 && r.k_divisions[2] != 0
            &&& r.plane_wave_cutoff_is_valid
            &&& r.l_max != 0
            &&& r.resolved_channel_count == 0
            &&& forall|i: int| 0 <= i < r.channels.len() ==> {
                let c = #[trigger] r.channels@[i];
                &&& c.generator != ChannelEnergyGenerator::FrozenCheckpoint
                &&& c.generator != ChannelEnergyGenerator::BandCog
                &&& c.generator != ChannelEnergyGenerator::FermiOffset
                &&& (c.generator == ChannelEnergyGenerator::Explicit || c.generator == ChannelEnergyGenerator::BandCenter
                    || c.generator == ChannelEnergyGenerator::LogDerivative) ==> c.seed is Some
            }
            &&& forall|i: int| 0 <= i < r.radial_basis.len() ==> (#[trigger] r.radial_basis@[i]).radial_equation == (
                if r.relativity == Relativity::SpinorFirstVariation { RadialEquation::FullyRelativisticDirac }
                else { RadialEquation::ScalarKoellingHarmon })
        },
        forall|a: int| 0 <= a < 3 && r.electron_count_is_neutral && #[trigger] r.k_divisions[a] == 0
            && (forall|b: int| 0 <= b < a ==> r.k_divisions[b] != 0)
            ==> request_verdict(r) == Err::<(), AtomicRequestError>(AtomicRequestError::ZeroKMeshDivision { axis: a as usize }),
{
    if request_verdict(r) is Ok {
        lemma_no_channel_rejection(r.channels@, 0);
        lemma_no_radial_rejection(r.relativity, r.radial_basis@, 0);
        assert forall|i: int| 0 <= i < r.channels.len() implies {
            let c = #[trigger] r.channels@[i];
            &&& c.generator != ChannelEnergyGenerator::FrozenCheckpoint
            &&& c.generator != ChannelEnergyGenerator::BandCog
            &&& c.generator != ChannelEnergyGenerator::FermiOffset
            &&& (c.generator == ChannelEnergyGenerator::Explicit || c.generator == ChannelEnergyGenerator::BandCenter
                || c.generator == ChannelEnergyGenerator::LogDerivative) ==> c.seed is Some
        } by {
            assert(channel_rejection(r.channels@[i]) is None);
        }
        assert forall|i: int| 0 <= i < r.radial_basis.len() implies (#[trigger] r.radial_basis@[i]).radial_equation == (
            if r.relativity == Relativity::SpinorFirstVariation { RadialEquation::FullyRelativisticDirac }
            else { RadialEquation::ScalarKoellingHarmon }) by {
            assert(radial_rejection(r.relativity, r.radial_basis@[i]) is None);
        }
    }
    assert forall|a: int| 0 <= a < 3 && r.electron_count_is_neutral && #[trigger] r.k_divisions[a] == 0
        && (forall|b: int| 0 <= b < a ==> r.k_divisions[b] != 0)
        implies request_verdict(r) == Err::<(), AtomicRequestError>(AtomicRequestError::ZeroKMeshDivision { axis: a as usize }) by {
        if a == 1 { assert(r.k_divisions[0] != 0); }
        if a == 2 { assert(r.k_divisions[0] != 0); assert(r.k_divisions[1] != 0); }
    }
}

/// A neutral request with three nonzero k-mesh divisions, a valid cutoff,
/// a positive `l_max`, no pre-resolved channels, only atomic or seeded
/// generators (each seeded one with its seed) and every radial basis built
/// with the route's equation is admitted.
pub proof fn lemma_well_formed_request_admitted(r: AtomicSnapshotRequestShape)
    requires
        r.electron_count_is_neutral,
        r.k_divisions[0] != 0 && r.k_divisions[1] != 0 && r.k_divisions[2] != 0,
        r.plane_wave_cutoff_is_valid,
        r.l_max != 0,
        r.resolved_channel_count == 0,
        forall|i: int| 0 <= i < r.channels.len() ==> {
            let c = #[trigger] r.channels@[i];
            ||| c.generator == ChannelEnergyGenerator::Atomic
            ||| (c.generator == ChannelEnergyGenerator::Explicit || c.generator == ChannelEnergyGenerator::BandCenter
                || c.generator == ChannelEnergyGenerator::LogDerivative) && c.seed is Some
        },
        forall|i: int| 0 <= i < r.radial_basis.len() ==> (#[trigger] r.radial_basis@[i]).radial_equation == (
            if r.relativity == Relativity::SpinorFirstVariation { RadialEquation::FullyRelativisticDirac }
            else { RadialEquation::ScalarKoellingHarmon }),
    ensures
        request_verdict(r) == Ok::<(), AtomicRequestError>(()),
{
    assert forall|i: int| 0 <= i < r.channels@.len() implies #[trigger] channel_rejection(r.channels@[i]) is None by {}
    lemma_channels_clear(r.channels@, 0);
    assert forall|i: int| 0 <= i < r.radial_basis@.len() implies #[trigger] radial_rejection(r.relativity, r.radial_basis@[i]) is None by {}
    lemma_radials_clear(r.relativity, r.radial_basis@, 0);
}

proof fn lemma_channels_clear(chans: Seq<ScfChannelRecipe>, from: int)
    requires
        0 <= from,
        forall|i: int| from <= i < chans.len() ==> #[trigger] channel_rejection(chans[i]) is None,
    ensures
        first_channel_rejection(chans, from) is None,
    decreases chans.len() - from,
{
    if from < chans.len() {
        lemma_channels_clear(chans, from + 1);
    }
}

proof fn lemma_radials_clear(relativity: Relativity, entries: Seq<RadialBasisEntry>, from: int)
    requires
        0 <= from,
        forall|i: int| from <= i < entries.len() ==> #[trigger] radial_rejection(relativity, entries[i]) is None,
    ensures
        first_radial_rejection(relativity, entries, from) is None,
    decreases entries.len() - from,
{
    if from < entries.len() {
        lemma_radials_clear(relativity, entries, from + 1);
    }
}

proof fn lemma_no_channel_rejection(chans: Seq<ScfChannelRecipe>, from: int)
    requires
        0 <= from,
        first_channel_rejection(chans, from) is None,
    ensures
        forall|i: int| from <= i < chans.len() ==> #[trigger] channel_rejection(chans[i]) is None,
    decreases chans.len() - from,
{
    if from < chans.len() {
        lemma_no_channel_rejection(chans, from + 1);
    }
}

proof fn lemma_no_radial_rejection(relativity: Relativity, entries: Seq<RadialBasisEntry>, from: int)
    requires
        0 <= from,
        first_radial_rejection(relativity, entries, from) is None,
    ensures
        forall|i: int| from <= i < entries.len() ==> #[trigger] radial_rejection(relativity, entries[i]) is None,
    decreases entries.len() - from,
{
    if from < entries.len() {
        lemma_no_radial_rejection(relativity, entries, from + 1);
    }
}

/// Check an atomic-snapshot request before any density is built; the
/// result is exactly [`request_verdict`].
pub fn validate_atomic_snapshot_request(request: &AtomicSnapshotRequestShape) -> (r: Result<(), AtomicRequestError>)
    ensures
        r == request_verdict(*request),
        r is Ok ==> request.k_divisions[0] != 0 && request.k_divisions[1] != 0 && request.k_divisions[2] != 0,
        forall|i: int| 0 <= i < request.channels.len() && r is Ok ==> ((#[trigger] request.channels@[i]).generator == ChannelEnergyGenerator::Explicit
            || request.channels@[i].generator == ChannelEnergyGenerator::BandCenter
            || request.channels@[i].generator == ChannelEnergyGenerator::LogDerivative ==> request.channels@[i].seed is Some),
        forall|a: int| 0 <= a < 3 && request.electron_count_is_neutral && #[trigger] request.k_divisions[a] == 0
            && (forall|b: int| 0 <= b < a ==> request.k_divisions[b] != 0)
            ==> r == Err::<(), AtomicRequestError>(AtomicRequestError::ZeroKMeshDivision { axis: a as usize }),
{
    proof { lemma_admitted_request(*request); }
    if !request.electron_count_is_neutral {
        return Err(AtomicRequestError::NonNeutralElectronCount);
    }
    if request.k_divisions[0] == 0 {
        return Err(AtomicRequestError::ZeroKMeshDivision { axis: 0 });
    }
    if request.k_divisions[1] == 0 {
        return Err(AtomicRequestError::ZeroKMeshDivision { axis: 1 });
    }
    if request.k_divisions[2] == 0 {
        return Err(AtomicRequestError::ZeroKMeshDivision { axis: 2 });
    }
    if !request.plane_wave_cutoff_is_valid {
        return Err(AtomicRequestError::InvalidPlaneWaveCutoff);
    }
    if request.l_max == 0 {
        return Err(AtomicRequestError::ZeroLMax);
    }
    if request.resolved_channel_count != 0 {
        return Err(AtomicRequestError::PreResolvedBasis);
    }
    let mut i: usize = 0;
    while i < request.channels.len()
        invariant
            i <= request.channels.len(),
            request.electron_count_is_neutral,
            request.k_divisions[0] != 0 && request.k_divisions[1] != 0 && request.k_divisions[2] != 0,
            request.plane_wave_cutoff_is_valid,
            request.l_max != 0,
            request.resolved_channel_count == 0,
            first_channel_rejection(request.channels@, 0) == first_channel_rejection(request.channels@, i as int),
        decreases request.channels.len() - i,
    {
        match check_channel(&request.channels[i]) {
            Some(e) => {
                return Err(e);
            },
            None => {},
        }
        i = i + 1;
    }
    let expected = expected_equation(request.relativity);
    let mut j: usize = 0;
    while j < request.radial_basis.len()
        invariant
            j <= request.radial_basis.len(),
            request.electron_count_is_neutral,
            request.k_divisions[0] != 0 && request.k_divisions[1] != 0 && request.k_divisions[2] != 0,
            request.plane_wave_cutoff_is_valid,
            request.l_max != 0,
            request.resolved_channel_count == 0,
            expected == expected_radial_equation(request.relativity),
            first_channel_rejection(request.channels@, 0) is None,
            first_radial_rejection(request.relativity, request.radial_basis@, 0)
                == first_radial_rejection(request.relativity, request.radial_basis@, j as int),
        decreases request.radial_basis.len() - j,
    {
        let entry = &request.radial_basis[j];
        if entry.radial_equation != expected {
            return Err(AtomicRequestError::RadialEquationRoute {
                site: entry.site_id.clone(),
                relativity: request.relativity,
                expected,
                actual: entry.radial_equation,
            });
        }
        j = j + 1;
    }
    Ok(())
}

} // verus!
