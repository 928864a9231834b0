use std::collections::BTreeMap;
use mt_runtime::local_orbitals::{
    basis_with_relativistic_local_orbital_energies, linearization_energies,
    paired_linearization_energies, same_lo_channels, scalar_local_orbital_requests,
    spinor_local_orbital_requests, LoEnergyKey, LocalOrbitalRequestError,
    MissingLinearizationEnergy, ScalarLocalOrbitalRequest,
    MissingRelativisticLocalOrbitalEnergy, ScfLocalOrbital, ScfLocalOrbitalKind,
    ScfRelativisticLocalOrbital, SpinorLocalOrbitalRequest,
};

fn lo(site: &str, kappa: i32, energy: f64) -> ScfLocalOrbital<f64> {
    ScfLocalOrbital { site: site.to_owned(), kappa, energy, kind: ScfLocalOrbitalKind::Lo }
}

fn bound(site: &str, n: u32, kappa: i32) -> ScfRelativisticLocalOrbital {
    ScfRelativisticLocalOrbital { site: site.to_owned(), principal_quantum_number: n, kappa }
}

fn key(site: &str, n: u32, kappa: i32) -> LoEnergyKey {
    LoEnergyKey { site: site.to_owned(), n, kappa }
}

#[test]
fn signed_kappa_workflow_lo_overrides_only_its_inherited_spinor_partner() {
    let site = "H-1".to_owned();
    let snapshot = vec![(1u32, -0.25)];
    let basis = vec![lo("H-1", 1, -0.1), lo("H-1", 1, -0.05)];
    let requests =
        spinor_local_orbital_requests(&site, &snapshot, &basis, &vec![true, true]).unwrap();
    assert_eq!(
        requests,
        vec![
            SpinorLocalOrbitalRequest::Lo { kappa: -2, energy: -0.25 },
            SpinorLocalOrbitalRequest::Lo { kappa: 1, energy: -0.1 },
            SpinorLocalOrbitalRequest::Lo { kappa: 1, energy: -0.05 },
        ]
    );
}

#[test]
fn multiple_relativistic_local_orbitals_share_one_signed_kappa_without_overwrite() {
    let basis = vec![lo("H-1", -2, -0.2)];
    let requests = vec![bound("H-1", 2, 1), bound("H-1", 3, 1)];
    let energies = vec![(key("H-1", 2, 1), -0.125), (key("H-1", 3, 1), -0.055)];
    let resolved =
        basis_with_relativistic_local_orbital_energies(&basis, &requests, &energies).unwrap();
    assert!(resolved.iter().any(|orbital| orbital.kappa == -2 && orbital.energy == -0.2));
    assert!(resolved.iter().any(|orbital| orbital.kappa == 1 && orbital.energy == -0.125));
    assert!(resolved.iter().any(|orbital| orbital.kappa == 1 && orbital.energy == -0.055));
    assert_eq!(resolved.len(), 3);
}

#[test]
fn bound_local_orbitals_replace_explicit_ones_of_their_kappa_and_site() {
    let basis = vec![lo("H-1", 1, -0.3), lo("He-2", 1, -0.4), lo("H-1", -1, -0.5)];
    let requests = vec![bound("H-1", 2, 1)];
    let energies = vec![(key("H-1", 2, 1), -0.125)];
    let resolved =
        basis_with_relativistic_local_orbital_energies(&basis, &requests, &energies).unwrap();
    assert_eq!(resolved, vec![lo("He-2", 1, -0.4), lo("H-1", -1, -0.5), lo("H-1", 1, -0.125)]);
    let missing = basis_with_relativistic_local_orbital_energies(
        &basis,
        &vec![bound("H-1", 2, 1), bound("H-1", 3, -1)],
        &energies,
    );
    assert_eq!(
        missing.unwrap_err(),
        MissingRelativisticLocalOrbitalEnergy {
            site: "H-1".to_owned(),
            principal_quantum_number: 3,
            kappa: -1,
        }
    );
}

#[test]
fn snapshot_local_orbitals_seed_both_partners_unless_overridden() {
    let site = "Fe".to_owned();
    let snapshot = vec![(0u32, -1.0), (2, -0.5)];
    let hdlo = ScfLocalOrbital {
        site: "Fe".to_owned(),
        kappa: -3,
        energy: 0.0,
        kind: ScfLocalOrbitalKind::Hdlo,
    };
    let basis = vec![lo("O", -1, -2.0), hdlo];
    let requests =
        spinor_local_orbital_requests(&site, &snapshot, &basis, &vec![true, true]).unwrap();
    assert_eq!(
        requests,
        vec![
            SpinorLocalOrbitalRequest::Lo { kappa: -1, energy: -1.0 },
            SpinorLocalOrbitalRequest::Lo { kappa: 2, energy: -0.5 },
            SpinorLocalOrbitalRequest::Hdlo { kappa: -3 },
        ]
    );
}

#[test]
fn invalid_l_or_kappa_is_rejected() {
    let site = "Fe".to_owned();
    let overflow = spinor_local_orbital_requests(
        &site,
        &vec![(0u32, 0.0), (u32::MAX, 0.0)],
        &Vec::new(),
        &Vec::new(),
    );
    assert_eq!(
        overflow,
        Err(LocalOrbitalRequestError::AngularMomentumOverflow { l: u32::MAX })
    );
    let basis = vec![lo("O", 0, 0.0), lo("Fe", 0, 0.0)];
    let bad = spinor_local_orbital_requests(&site, &vec![(1u32, 0.0)], &basis, &vec![false, false]);
    assert_eq!(bad, Err(LocalOrbitalRequestError::Kappa { kappa: 0 }));
}

#[test]
fn spin_channels_of_snapshot_local_orbitals_must_agree() {
    assert!(same_lo_channels(&vec![0, 1, 1], &vec![0, 1, 1]));
    assert!(!same_lo_channels(&vec![0, 1], &vec![0, 2]));
    assert!(!same_lo_channels(&vec![0], &vec![0, 0]));
}

#[test]
fn scalar_requests_append_explicit_orbitals_at_their_large_component_l() {
    let site = "Fe".to_owned();
    let hdlo = ScfLocalOrbital {
        site: "Fe".to_owned(),
        kappa: 2,
        energy: 0.0,
        kind: ScfLocalOrbitalKind::Hdlo,
    };
    let basis = vec![lo("Fe", -3, -0.7), lo("O", 1, -0.2), hdlo];
    let requests =
        scalar_local_orbital_requests(&site, &vec![(1u32, -0.5)], &basis, &vec![true, true, true])
            .unwrap();
    assert_eq!(
        requests,
        vec![
            ScalarLocalOrbitalRequest::Lo { l: 1, energy: -0.5 },
            ScalarLocalOrbitalRequest::Lo { l: 2, energy: -0.7 },
            ScalarLocalOrbitalRequest::Hdlo { l: 2 },
        ]
    );
    let bad = scalar_local_orbital_requests(&site, &Vec::new(), &vec![lo("Fe", 0, 0.0)], &vec![false]);
    assert_eq!(bad, Err(LocalOrbitalRequestError::Kappa { kappa: 0 }));
}

fn table(entries: &[(u32, f64)]) -> BTreeMap<u32, f64> {
    entries.iter().copied().collect()
}

#[test]
fn linearization_energies_cover_every_l_up_to_l_max() {
    let energies = table(&[(1, -0.3), (0, -0.5), (2, -0.1)]);
    assert_eq!(linearization_energies(2, &energies), Ok(vec![-0.5, -0.3, -0.1]));
    assert_eq!(linearization_energies(3, &energies), Err(3));
    assert_eq!(linearization_energies(0, &table(&[(1, -0.3)])), Err(0));
}

#[test]
fn paired_energies_report_the_first_gap_up_before_down() {
    let up = table(&[(0, -0.5), (1, -0.3)]);
    let down = table(&[(0, -0.4), (1, -0.2)]);
    assert_eq!(paired_linearization_energies(1, &up, &down), Ok(vec![(-0.5, -0.4), (-0.3, -0.2)]));
    assert_eq!(
        paired_linearization_energies(1, &up, &table(&[(0, -0.4)])),
        Err(MissingLinearizationEnergy { l: 1, spin: 1 })
    );
    assert_eq!(
        paired_linearization_energies(1, &table(&[(0, -0.5)]), &table(&[(0, -0.4)])),
        Err(MissingLinearizationEnergy { l: 1, spin: 0 })
    );
}
