use mt_runtime::core_table::{
    admit_core_sidecars, cc_pair_term, core_shell_actions, distinct_core_shells, CoreOrbitalSlot,
    MissingShellAction, CoreShellShape, CoreSidecarShape,
    DiracMtPairSpec, SpinorCoreInputError,
};
use mt_runtime::site_coords::ProductOrbitalKind;
use mt_runtime::spinor_layout::DiracRadialId;

fn mu_shell(n: u32, kappa: i32, occupations: &[(i64, bool)]) -> CoreShellShape {
    CoreShellShape {
        n,
        kappa,
        lengths_ok: true,
        diagnostics_ok: true,
        mu_resolved: Some(occupations.to_vec()),
    }
}

fn sidecar(site_index: usize, shells: Vec<CoreShellShape>) -> CoreSidecarShape {
    CoreSidecarShape { site_index, mesh_prefix_ok: true, shells }
}

fn s_half(n: u32) -> CoreShellShape {
    mu_shell(n, -1, &[(1, true), (-1, true)])
}

#[test]
fn admitted_shells_follow_site_n_kappa_order_with_ascending_mu() {
    let sidecars = vec![
        sidecar(1, vec![s_half(1)]),
        sidecar(
            0,
            vec![
                mu_shell(2, -2, &[(3, true), (-3, true), (1, true), (-1, true)]),
                mu_shell(2, 1, &[(-1, true), (1, true)]),
                s_half(1),
            ],
        ),
    ];
    let table = admit_core_sidecars(2, &sidecars).unwrap();
    let keys: Vec<(usize, u32, i32)> =
        table.shells.iter().map(|r| (r.site, r.n, r.kappa)).collect();
    assert_eq!(keys, vec![(0, 1, -1), (0, 2, -2), (0, 2, 1), (1, 1, -1)]);
    assert_eq!((table.shells[0].sidecar, table.shells[0].shell), (1, 2));
    assert_eq!((table.shells[3].sidecar, table.shells[3].shell), (0, 0));
    assert_eq!(table.orbitals.len(), 2 + 4 + 2 + 2);
    let p32: Vec<(i64, usize)> = table.orbitals[2..6]
        .iter()
        .map(|o| (o.twice_mu, o.occupation_index))
        .collect();
    assert_eq!(p32, vec![(-3, 1), (-1, 3), (1, 2), (3, 0)]);
    for orbital in &table.orbitals[2..6] {
        assert_eq!(orbital.radial.kind, ProductOrbitalKind::Core);
        assert_eq!((orbital.radial.site, orbital.radial.kappa, orbital.radial.n), (0, -2, 2));
    }
    assert_eq!(table.orbitals[0].occupation_index, 1);
    assert_eq!(table.orbitals[9].site_index, 1);
}

#[test]
fn no_sidecars_give_an_empty_table() {
    let table = admit_core_sidecars(3, &Vec::new()).unwrap();
    assert!(table.shells.is_empty());
    assert!(table.orbitals.is_empty());
}

#[test]
fn sidecar_site_must_exist_and_appear_once() {
    let out_of_range = vec![sidecar(2, vec![s_half(1)])];
    assert_eq!(
        admit_core_sidecars(2, &out_of_range).unwrap_err(),
        SpinorCoreInputError::SiteIndex { site: 2, site_count: 2 }
    );
    let twice = vec![sidecar(0, vec![s_half(1)]), sidecar(0, vec![s_half(2)])];
    assert_eq!(
        admit_core_sidecars(1, &twice).unwrap_err(),
        SpinorCoreInputError::DuplicateSite(0)
    );
}

#[test]
fn mesh_and_radial_checks_reject_in_order() {
    let mut bad_mesh = sidecar(0, vec![s_half(1)]);
    bad_mesh.mesh_prefix_ok = false;
    assert_eq!(
        admit_core_sidecars(1, &vec![bad_mesh]).unwrap_err(),
        SpinorCoreInputError::MeshPrefix { site: 0 }
    );
    let mut both = s_half(1);
    both.lengths_ok = false;
    both.diagnostics_ok = false;
    assert_eq!(
        admit_core_sidecars(1, &vec![sidecar(0, vec![both])]).unwrap_err(),
        SpinorCoreInputError::RadialLength { site: 0, n: 1, kappa: -1 }
    );
    let mut diagnostics = s_half(1);
    diagnostics.diagnostics_ok = false;
    assert_eq!(
        admit_core_sidecars(1, &vec![sidecar(0, vec![diagnostics])]).unwrap_err(),
        SpinorCoreInputError::RadialDiagnostics { site: 0, n: 1, kappa: -1 }
    );
}

#[test]
fn duplicate_shell_and_collinear_occupations_are_rejected() {
    let duplicate = vec![sidecar(0, vec![s_half(1), s_half(2), s_half(1)])];
    assert_eq!(
        admit_core_sidecars(1, &duplicate).unwrap_err(),
        SpinorCoreInputError::DuplicateShell { site: 0, n: 1, kappa: -1 }
    );
    let mut collinear = s_half(3);
    collinear.mu_resolved = None;
    assert_eq!(
        admit_core_sidecars(1, &vec![sidecar(0, vec![collinear])]).unwrap_err(),
        SpinorCoreInputError::ExplicitCollinear { site: 0, n: 3, kappa: -1 }
    );
}

#[test]
fn each_magnetic_channel_must_appear_exactly_once() {
    let missing = mu_shell(2, 1, &[(-1, true)]);
    let repeated = mu_shell(2, 1, &[(1, true), (1, true)]);
    let foreign = mu_shell(2, 1, &[(-1, true), (3, true)]);
    for shell in [missing, repeated, foreign] {
        assert_eq!(
            admit_core_sidecars(1, &vec![sidecar(0, vec![shell])]).unwrap_err(),
            SpinorCoreInputError::MagneticChannels { site: 0, n: 2, kappa: 1 }
        );
    }
}

#[test]
fn first_invalid_occupation_in_ascending_mu_is_reported() {
    let shell = mu_shell(2, -2, &[(3, false), (-3, true), (1, true), (-1, false)]);
    assert_eq!(
        admit_core_sidecars(1, &vec![sidecar(0, vec![shell])]).unwrap_err(),
        SpinorCoreInputError::Occupation {
            site: 0,
            n: 2,
            kappa: -2,
            twice_mu: -1,
            occupation_index: 3,
        }
    );
}

fn core_orbital(site: usize) -> CoreOrbitalSlot {
    CoreOrbitalSlot {
        site_index: site,
        n: 1,
        kappa: -1,
        twice_mu: -1,
        radial: DiracRadialId { site, kind: ProductOrbitalKind::Core, kappa: -1, n: 1 },
        sidecar: 0,
        shell: 0,
        occupation_index: 0,
    }
}

#[test]
fn different_site_cc_emits_no_pair_term_for_the_zero_vertex() {
    let term = cc_pair_term(&core_orbital(0), &core_orbital(1), |_| -> Result<(f64, f64), String> {
        panic!("cross-site CC must not request a Bloch/site phase")
    })
    .unwrap();
    assert!(term.is_none());
}

#[test]
fn same_site_cc_pairs_both_radials_with_the_site_amplitude() {
    let mut right = core_orbital(2);
    right.twice_mu = 1;
    let term = cc_pair_term(&core_orbital(2), &right, |site| -> Result<usize, String> { Ok(10 * site) })
        .unwrap()
        .unwrap();
    assert_eq!(
        term.0,
        DiracMtPairSpec {
            left: core_orbital(2).radial,
            left_twice_mu: -1,
            right: right.radial,
            right_twice_mu: 1,
        }
    );
    assert_eq!(term.1, 20);
    let failed = cc_pair_term(&core_orbital(2), &right, |_| -> Result<usize, String> { Err("phase".to_owned()) });
    assert_eq!(failed.unwrap_err(), "phase");
}

#[test]
fn each_core_orbital_finds_the_action_of_its_shell() {
    let orbitals = vec![(0usize, 1u32, -1i32), (0, 1, -1), (1, 2, -2), (0, 2, 1)];
    let sidecars = vec![(1usize, vec![(2u32, -2i32)]), (0, vec![(1, -1), (2, 1)])];
    let actions = vec![(0usize, 1usize), (1, 0), (0, 0)];
    assert_eq!(core_shell_actions(&orbitals, &sidecars, &actions), Ok(vec![2, 2, 1, 0]));
    let missing = vec![(0usize, 3u32, -1i32)];
    assert_eq!(core_shell_actions(&missing, &sidecars, &actions), Err(MissingShellAction));
    assert_eq!(
        core_shell_actions(&vec![(2usize, 1u32, -1i32)], &sidecars, &actions),
        Err(MissingShellAction)
    );
}

#[test]
fn distinct_core_shells_keep_first_appearances() {
    let orbitals = vec![(0usize, 1u32, -1i32), (0, 1, -1), (1, 2, -2), (0, 1, -1), (1, 2, -2), (0, 2, 1)];
    assert_eq!(distinct_core_shells(&orbitals), vec![0, 2, 5]);
    assert_eq!(distinct_core_shells(&Vec::new()), Vec::<usize>::new());
}
