use mt_runtime::atomic_request::{
    validate_atomic_snapshot_request, AtomicRequestError, AtomicSnapshotRequestShape,
    RadialBasisEntry, RadialEquation,
};
use mt_runtime::channels::{
    ChannelEnergyGenerator, ChannelIdentity, ChannelProvenance, ChannelTreatment, ScfChannelRecipe,
};
use mt_runtime::workflow::Relativity;

fn channel(site: &str, generator: ChannelEnergyGenerator, seed: Option<u64>) -> ScfChannelRecipe {
    ScfChannelRecipe {
        site: site.to_owned(),
        identity: ChannelIdentity::ScalarL { n: 2, l: 0 },
        treatment: ChannelTreatment::Valence,
        derivative_order: 0,
        generator,
        seed,
        provenance: ChannelProvenance::BuiltIn,
    }
}

fn radial(site: &str, radial_equation: RadialEquation) -> RadialBasisEntry {
    RadialBasisEntry {
        site_id: site.to_owned(),
        radial_equation,
    }
}

fn valid_request() -> AtomicSnapshotRequestShape {
    AtomicSnapshotRequestShape {
        electron_count_is_neutral: true,
        k_divisions: [2, 2, 2],
        plane_wave_cutoff_is_valid: true,
        l_max: 2,
        resolved_channel_count: 0,
        channels: vec![
            channel("Si1", ChannelEnergyGenerator::Atomic, None),
            channel("Si1", ChannelEnergyGenerator::Explicit, Some(0.25f64.to_bits())),
        ],
        relativity: Relativity::Scalar,
        radial_basis: vec![
            radial("Si1", RadialEquation::ScalarKoellingHarmon),
            radial("Si2", RadialEquation::ScalarKoellingHarmon),
        ],
    }
}

#[test]
fn atomic_request_accepts_a_neutral_scalar_request() {
    assert_eq!(validate_atomic_snapshot_request(&valid_request()), Ok(()));
}

#[test]
fn atomic_request_rejects_a_charged_request_first() {
    let mut request = valid_request();
    request.electron_count_is_neutral = false;
    request.l_max = 0;
    assert_eq!(
        validate_atomic_snapshot_request(&request),
        Err(AtomicRequestError::NonNeutralElectronCount)
    );
}

#[test]
fn atomic_request_names_the_first_zero_k_division() {
    let mut request = valid_request();
    request.k_divisions = [3, 0, 0];
    assert_eq!(
        validate_atomic_snapshot_request(&request),
        Err(AtomicRequestError::ZeroKMeshDivision { axis: 1 })
    );
}

#[test]
fn atomic_request_rejects_cutoff_l_max_and_resolved_channels_in_order() {
    let mut request = valid_request();
    request.plane_wave_cutoff_is_valid = false;
    request.l_max = 0;
    assert_eq!(
        validate_atomic_snapshot_request(&request),
        Err(AtomicRequestError::InvalidPlaneWaveCutoff)
    );
    request.plane_wave_cutoff_is_valid = true;
    assert_eq!(
        validate_atomic_snapshot_request(&request),
        Err(AtomicRequestError::ZeroLMax)
    );
    request.l_max = 1;
    request.resolved_channel_count = 3;
    assert_eq!(
        validate_atomic_snapshot_request(&request),
        Err(AtomicRequestError::PreResolvedBasis)
    );
}

#[test]
fn atomic_request_rejects_generators_that_need_later_state() {
    let mut request = valid_request();
    request.channels.push(channel("Si2", ChannelEnergyGenerator::FrozenCheckpoint, None));
    assert_eq!(
        validate_atomic_snapshot_request(&request),
        Err(AtomicRequestError::FrozenSnapshotGenerator {
            site: "Si2".to_owned()
        })
    );
    let mut request = valid_request();
    request.channels.insert(0, channel("Si1", ChannelEnergyGenerator::FermiOffset, None));
    request.channels.push(channel("Si2", ChannelEnergyGenerator::FrozenCheckpoint, None));
    assert_eq!(
        validate_atomic_snapshot_request(&request),
        Err(AtomicRequestError::SpectralGenerator {
            site: "Si1".to_owned(),
            generator: ChannelEnergyGenerator::FermiOffset,
        })
    );
}

#[test]
fn atomic_request_requires_a_seed_for_seeded_generators() {
    let mut request = valid_request();
    request.channels.push(channel("Si2", ChannelEnergyGenerator::LogDerivative, None));
    assert_eq!(
        validate_atomic_snapshot_request(&request),
        Err(AtomicRequestError::MissingGeneratorSeed {
            site: "Si2".to_owned(),
            generator: ChannelEnergyGenerator::LogDerivative,
        })
    );
    request.channels[2].seed = Some((-0.5f64).to_bits());
    assert_eq!(validate_atomic_snapshot_request(&request), Ok(()));
}

#[test]
fn atomic_request_checks_the_radial_equation_of_the_route() {
    let mut request = valid_request();
    request.relativity = Relativity::SpinorFirstVariation;
    request.radial_basis[0].radial_equation = RadialEquation::FullyRelativisticDirac;
    assert_eq!(
        validate_atomic_snapshot_request(&request),
        Err(AtomicRequestError::RadialEquationRoute {
            site: "Si2".to_owned(),
            relativity: Relativity::SpinorFirstVariation,
            expected: RadialEquation::FullyRelativisticDirac,
            actual: RadialEquation::ScalarKoellingHarmon,
        })
    );
    request.radial_basis[1].radial_equation = RadialEquation::FullyRelativisticDirac;
    assert_eq!(validate_atomic_snapshot_request(&request), Ok(()));
    request.relativity = Relativity::SocSecondVariation;
    assert_eq!(
        validate_atomic_snapshot_request(&request),
        Err(AtomicRequestError::RadialEquationRoute {
            site: "Si1".to_owned(),
            relativity: Relativity::SocSecondVariation,
            expected: RadialEquation::ScalarKoellingHarmon,
            actual: RadialEquation::FullyRelativisticDirac,
        })
    );
}
