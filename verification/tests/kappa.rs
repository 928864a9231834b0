use mt_runtime::kappa::{
    angular_momentum_from_kappa, degeneracy, mu_index, spinor_kappas_for_l, twice_j,
    twice_mu_values,
};

#[test]
fn angular_momentum_follows_the_sign_of_kappa() {
    assert_eq!(angular_momentum_from_kappa(-1), 0);
    assert_eq!(angular_momentum_from_kappa(1), 1);
    assert_eq!(angular_momentum_from_kappa(-2), 1);
    assert_eq!(angular_momentum_from_kappa(2), 2);
    assert_eq!(angular_momentum_from_kappa(-3), 2);
    assert_eq!(angular_momentum_from_kappa(0), u32::MAX);
}

#[test]
fn magnetic_channels_of_kappa_are_ascending() {
    assert_eq!(twice_j(-1), 1);
    assert_eq!(twice_j(2), 3);
    assert_eq!(degeneracy(-1), 2);
    assert_eq!(degeneracy(2), 4);
    assert_eq!(twice_mu_values(-1), vec![-1, 1]);
    assert_eq!(twice_mu_values(2), vec![-3, -1, 1, 3]);
}

#[test]
fn mu_index_inverts_the_channel_list() {
    for kappa in [-3, -2, -1, 1, 2, 3] {
        for (i, twice_mu) in twice_mu_values(kappa).into_iter().enumerate() {
            assert_eq!(mu_index(kappa, twice_mu), Some(i));
        }
    }
    assert_eq!(mu_index(-1, 0), None);
    assert_eq!(mu_index(-1, 3), None);
    assert_eq!(mu_index(2, -5), None);
}

#[test]
fn spinor_partners_of_l() {
    assert_eq!(spinor_kappas_for_l(0), Some(vec![-1]));
    assert_eq!(spinor_kappas_for_l(1), Some(vec![-2, 1]));
    assert_eq!(spinor_kappas_for_l(3), Some(vec![-4, 3]));
    assert_eq!(spinor_kappas_for_l(i32::MAX as u32), None);
}
