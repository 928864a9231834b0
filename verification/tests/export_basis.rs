use mt_runtime::export_basis::{
    require_exportable_site_augmentation, require_spinor_bases_exportable, ExportBasisError,
    ExportBasisShape, WaveShape,
};
use mt_runtime::site_match::{ChannelSequenceError, RelativisticChannel};

fn channel(kappa: i32, twice_mu: i64) -> RelativisticChannel {
    RelativisticChannel { kappa, twice_mu }
}

/// s1/2 then p1/2 channels, canonical order.
fn canonical() -> Vec<RelativisticChannel> {
    vec![channel(-1, -1), channel(-1, 1), channel(1, -1), channel(1, 1)]
}

fn wave() -> WaveShape {
    WaveShape {
        channels: canonical(),
        coefficient_counts: vec![4, 4],
    }
}

/// Two sites, three plane waves.
fn basis() -> ExportBasisShape {
    ExportBasisShape {
        layout_site_count: 2,
        site_count: 2,
        spatial_plane_wave_count: 3,
        plane_wave_count: 3,
        site_augmentations: vec![
            vec![wave(), wave(), wave()],
            vec![wave(), wave(), wave()],
        ],
        site_geometry_count: 2,
        geometry_bound: vec![true, true],
    }
}

#[test]
fn exportable_basis_accepts_canonical_shared_channels() {
    assert_eq!(require_exportable_site_augmentation(&basis(), 1), Ok(()));
    assert_eq!(require_spinor_bases_exportable(2, 2, &vec![basis(), basis()]), Ok(()));
}

#[test]
fn exportable_basis_checks_counts_before_sites() {
    let mut b = basis();
    b.site_geometry_count = 1;
    assert_eq!(
        require_exportable_site_augmentation(&b, 0),
        Err(ExportBasisError::SiteAugmentations)
    );
    let mut b = basis();
    b.plane_wave_count = 4;
    assert_eq!(
        require_exportable_site_augmentation(&b, 0),
        Err(ExportBasisError::PlaneWaves { expected: 3, actual: 4 })
    );
    assert_eq!(
        require_exportable_site_augmentation(&basis(), 2),
        Err(ExportBasisError::MissingSiteMatch { site: 2 })
    );
    let mut b = basis();
    b.site_augmentations[1].pop();
    assert_eq!(
        require_exportable_site_augmentation(&b, 1),
        Err(ExportBasisError::SiteMatchPlaneWaves { site: 1, expected: 3, actual: 2 })
    );
}

#[test]
fn exportable_basis_requires_canonical_and_shared_channels() {
    let mut b = basis();
    for w in b.site_augmentations[0].iter_mut() {
        w.channels = vec![channel(1, -1), channel(1, 1), channel(-1, -1), channel(-1, 1)];
    }
    assert_eq!(
        require_exportable_site_augmentation(&b, 0),
        Err(ExportBasisError::Channels {
            site: 0,
            error: ChannelSequenceError::KappaOrder { kappa: -1 }
        })
    );
    let mut b = basis();
    b.site_augmentations[0][2].channels.pop();
    assert_eq!(
        require_exportable_site_augmentation(&b, 0),
        Err(ExportBasisError::ChannelOrder { site: 0, pw: 2 })
    );
}

#[test]
fn exportable_basis_requires_both_pauli_components() {
    let mut b = basis();
    b.site_augmentations[1][1].coefficient_counts = vec![4];
    assert_eq!(
        require_exportable_site_augmentation(&b, 1),
        Err(ExportBasisError::MissingPauli { site: 1, pw: 1, pauli: 1 })
    );
    b.site_augmentations[1][1].coefficient_counts = vec![4, 3];
    assert_eq!(
        require_exportable_site_augmentation(&b, 1),
        Err(ExportBasisError::CoefficientCount { site: 1, pw: 1, pauli: 1, expected: 4, actual: 3 })
    );
    b.site_augmentations[1][1].coefficient_counts = Vec::new();
    assert_eq!(
        require_exportable_site_augmentation(&b, 1),
        Err(ExportBasisError::MissingPauli { site: 1, pw: 1, pauli: 0 })
    );
}

#[test]
fn exportable_bases_name_the_first_failing_k_point_and_site() {
    assert_eq!(
        require_spinor_bases_exportable(2, 3, &vec![basis()]),
        Err(ExportBasisError::HeaderSites { expected: 2, actual: 3 })
    );
    let mut second = basis();
    second.site_count = 3;
    assert_eq!(
        require_spinor_bases_exportable(2, 2, &vec![basis(), second]),
        Err(ExportBasisError::BasisSites { k: 1 })
    );
    let mut second = basis();
    second.geometry_bound[1] = false;
    assert_eq!(
        require_spinor_bases_exportable(2, 2, &vec![basis(), second]),
        Err(ExportBasisError::GeometryBinding { k: 1, site: 1 })
    );
}
