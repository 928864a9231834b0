use mt_runtime::site_coords::ProductOrbitalKind;
use mt_runtime::spinor_layout::{
    shells, site_projection_identity, site_projection_row, DiracRadialKey, RadialShell,
    SPINOR_RADIAL_LO0, SPINOR_RADIAL_P, SPINOR_RADIAL_PDOT,
};

fn key(kappa: i32, n: usize) -> DiracRadialKey {
    DiracRadialKey { kappa, n }
}

/// s1/2 with one LO, then p1/2 without LOs, then p3/2 with two LOs.
fn site() -> Vec<DiracRadialKey> {
    vec![
        key(-1, SPINOR_RADIAL_P),
        key(-1, SPINOR_RADIAL_PDOT),
        key(-1, SPINOR_RADIAL_LO0),
        key(1, SPINOR_RADIAL_P),
        key(1, SPINOR_RADIAL_PDOT),
        key(-2, SPINOR_RADIAL_P),
        key(-2, SPINOR_RADIAL_PDOT),
        key(-2, SPINOR_RADIAL_LO0),
        key(-2, SPINOR_RADIAL_LO0 + 1),
    ]
}

#[test]
fn shells_group_radials_by_first_appearance() {
    assert_eq!(
        shells(&site()),
        vec![
            RadialShell { kappa: -1, lo_count: 1 },
            RadialShell { kappa: 1, lo_count: 0 },
            RadialShell { kappa: -2, lo_count: 2 },
        ]
    );
    let interleaved = vec![key(2, 0), key(-1, 0), key(2, 2), key(-1, 1), key(2, 3)];
    assert_eq!(
        shells(&interleaved),
        vec![
            RadialShell { kappa: 2, lo_count: 2 },
            RadialShell { kappa: -1, lo_count: 0 },
        ]
    );
}

#[test]
fn apw_coordinates_precede_local_orbitals() {
    let sites = vec![site()];
    // APW block: 2 + 2 + 4 channels, two columns each = 16 coordinates.
    assert_eq!(site_projection_row(&sites, 0, -1, -1, 0), Some(0));
    assert_eq!(site_projection_row(&sites, 0, -1, 1, 1), Some(3));
    assert_eq!(site_projection_row(&sites, 0, 1, -1, 0), Some(4));
    assert_eq!(site_projection_row(&sites, 0, -2, -3, 0), Some(8));
    assert_eq!(site_projection_row(&sites, 0, -2, 3, 1), Some(15));
    // LO block: s1/2 has 2 channels x 1 LO, p3/2 has 4 channels x 2 LOs.
    assert_eq!(site_projection_row(&sites, 0, -1, -1, 2), Some(16));
    assert_eq!(site_projection_row(&sites, 0, -1, 1, 2), Some(17));
    assert_eq!(site_projection_row(&sites, 0, -2, -3, 2), Some(18));
    assert_eq!(site_projection_row(&sites, 0, -2, -3, 3), Some(19));
    assert_eq!(site_projection_row(&sites, 0, -2, 3, 3), Some(25));
}

#[test]
fn unknown_site_kappa_channel_or_ordinal_has_no_coordinate() {
    let sites = vec![site()];
    assert_eq!(site_projection_row(&sites, 1, -1, -1, 0), None);
    assert_eq!(site_projection_row(&sites, 0, 3, 1, 0), None);
    assert_eq!(site_projection_row(&sites, 0, -1, 3, 0), None);
    assert_eq!(site_projection_row(&sites, 0, -1, 0, 0), None);
    assert_eq!(site_projection_row(&sites, 0, 1, 1, 2), None);
    assert_eq!(site_projection_row(&sites, 0, -1, 1, 3), None);
}

#[test]
fn identity_inverts_every_coordinate() {
    let sites = vec![site()];
    for coordinate in 0..26 {
        let (id, twice_mu) = site_projection_identity(&sites, 0, coordinate).expect("coordinate");
        assert_eq!(id.site, 0);
        assert_eq!(id.kind, ProductOrbitalKind::Valence);
        assert_eq!(
            site_projection_row(&sites, 0, id.kappa, twice_mu, id.n),
            Some(coordinate)
        );
    }
    assert!(site_projection_identity(&sites, 0, 26).is_none());
    assert!(site_projection_identity(&sites, 3, 0).is_none());
    let (id, twice_mu) = site_projection_identity(&sites, 0, 19).unwrap();
    assert_eq!((id.kappa, twice_mu, id.n), (-2, -3, 3));
}
