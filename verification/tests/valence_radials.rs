use mt_runtime::spinor_layout::{shells, DiracRadialKey, RadialShell};
use mt_runtime::valence_radials::{
    same_radial_identity, scalar_valence_keys, spinor_valence_keys,
};

#[test]
fn scalar_radials_list_u_udot_then_local_orbitals_per_l() {
    let keys = scalar_valence_keys(3, &vec![1, 0]).unwrap();
    assert_eq!(keys, vec![(0, 0), (0, 1), (0, 2), (1, 0), (1, 1), (2, 0), (2, 1)]);
    assert_eq!(scalar_valence_keys(0, &vec![4]).unwrap(), Vec::<(u32, usize)>::new());
}

#[test]
fn spinor_radials_fill_one_shell_per_solution() {
    let solutions = vec![(-1, 1usize), (1, 0usize), (-2, 2usize)];
    let keys = spinor_valence_keys(&solutions);
    let key = |kappa: i32, n: usize| DiracRadialKey { kappa, n };
    assert_eq!(
        keys,
        vec![
            key(-1, 0),
            key(-1, 1),
            key(-1, 2),
            key(1, 0),
            key(1, 1),
            key(-2, 0),
            key(-2, 1),
            key(-2, 2),
            key(-2, 3),
        ]
    );
    assert_eq!(
        shells(&keys),
        vec![
            RadialShell { kappa: -1, lo_count: 1 },
            RadialShell { kappa: 1, lo_count: 0 },
            RadialShell { kappa: -2, lo_count: 2 },
        ]
    );
}

#[test]
fn radial_identity_compares_site_by_site() {
    let a = vec![spinor_valence_keys(&vec![(-1, 0)]), spinor_valence_keys(&vec![(1, 1)])];
    let b = vec![spinor_valence_keys(&vec![(-1, 0)]), spinor_valence_keys(&vec![(1, 1)])];
    assert!(same_radial_identity(&a, &b));
    let c = vec![spinor_valence_keys(&vec![(-1, 0)]), spinor_valence_keys(&vec![(1, 0)])];
    assert!(!same_radial_identity(&a, &c));
    assert!(!same_radial_identity(&a, &a[..1].to_vec()));
}
