use mt_runtime::base_channels::{
    lo_ordinals, maximum_principal_n, scalar_base_channels, scalar_resolved_local_orbitals,
    snapshot_lo_anchor, spinor_base_channels, spinor_resolved_local_orbitals, BaseChannelError,
    ChannelRecipeShape, SpinorBase,
};
use mt_runtime::channels::{ChannelIdentity, ChannelTreatment};

fn scalar(site: &str, n: u32, l: u32) -> ChannelRecipeShape {
    ChannelRecipeShape {
        site: site.to_owned(),
        identity: ChannelIdentity::ScalarL { n, l },
        treatment: ChannelTreatment::Valence,
    }
}

fn dirac(site: &str, n: u32, kappa: i32) -> ChannelRecipeShape {
    ChannelRecipeShape {
        site: site.to_owned(),
        identity: ChannelIdentity::Kappa { n, kappa },
        treatment: ChannelTreatment::Valence,
    }
}

#[test]
fn scalar_route_takes_one_scalar_channel_or_one_shell_of_partners() {
    let site = "Fe".to_owned();
    let mut lo = scalar("Fe", 5, 1);
    lo.treatment = ChannelTreatment::Lo;
    let channels = vec![
        scalar("Fe", 4, 0),
        dirac("Fe", 4, -2),
        scalar("O", 2, 1),
        lo,
        dirac("Fe", 4, 1),
    ];
    let ok = vec![true; channels.len()];
    assert_eq!(scalar_base_channels(&site, 1, &channels, &ok), Ok(vec![vec![0], vec![1, 4]]));
}

#[test]
fn scalar_route_rejects_missing_mixed_or_invalid_channels() {
    let site = "Fe".to_owned();
    let missing = vec![scalar("Fe", 4, 0)];
    assert_eq!(
        scalar_base_channels(&site, 1, &missing, &vec![true]),
        Err(BaseChannelError::Missing { l: 1 })
    );
    let both = vec![scalar("Fe", 4, 0), dirac("Fe", 4, -1)];
    assert_eq!(
        scalar_base_channels(&site, 0, &both, &vec![true, true]),
        Err(BaseChannelError::Ambiguous { l: 0 })
    );
    let mixed = vec![scalar("Fe", 4, 0), dirac("Fe", 4, -2), dirac("Fe", 5, 1)];
    assert_eq!(
        scalar_base_channels(&site, 1, &mixed, &vec![true, true, true]),
        Err(BaseChannelError::Ambiguous { l: 1 })
    );
    let partners = vec![scalar("Fe", 4, 0), dirac("Fe", 4, -2), dirac("Fe", 4, 1)];
    assert_eq!(
        scalar_base_channels(&site, 1, &partners, &vec![true, true, false]),
        Err(BaseChannelError::Kappa { kappa: 1 })
    );
}

#[test]
fn spinor_route_names_a_channel_for_every_dirac_partner() {
    let site = "Fe".to_owned();
    let channels = vec![scalar("Fe", 4, 1), dirac("Fe", 4, -1)];
    assert_eq!(
        spinor_base_channels(&site, 1, &channels),
        Ok(vec![
            SpinorBase { kappa: -1, channel: 1 },
            SpinorBase { kappa: -2, channel: 0 },
            SpinorBase { kappa: 1, channel: 0 },
        ])
    );
    let only_one_partner = vec![dirac("Fe", 4, -1), dirac("Fe", 4, -2)];
    assert_eq!(
        spinor_base_channels(&site, 1, &only_one_partner),
        Err(BaseChannelError::MissingSpinor { l: 1, kappa: 1 })
    );
    assert_eq!(
        spinor_base_channels(&site, 0, &Vec::new()),
        Err(BaseChannelError::Missing { l: 0 })
    );
}

#[test]
fn local_orbitals_are_numbered_per_site_and_l() {
    let lo = |site: &str, n: u32, l: u32| {
        let mut r = scalar(site, n, l);
        r.treatment = ChannelTreatment::Lo;
        r
    };
    let recipes = vec![
        lo("Fe", 5, 1),
        scalar("Fe", 4, 1),
        lo("Fe", 6, 1),
        lo("O", 3, 1),
        lo("Fe", 5, 0),
        lo("Fe", 7, 1),
    ];
    assert_eq!(
        lo_ordinals(&recipes),
        vec![Some(0), None, Some(1), Some(0), Some(0), Some(2)]
    );
}

#[test]
fn snapshot_anchor_is_the_ordinal_th_local_orbital_of_its_l() {
    let los = vec![(1u32, -0.5), (0u32, -1.0), (1u32, -0.25)];
    assert_eq!(snapshot_lo_anchor(&los, 1, 0), Some(-0.5));
    assert_eq!(snapshot_lo_anchor(&los, 1, 1), Some(-0.25));
    assert_eq!(snapshot_lo_anchor(&los, 1, 2), None);
    assert_eq!(snapshot_lo_anchor(&los, 2, 0), None);
}

#[test]
fn maximum_principal_n_defaults_to_one() {
    let site = "Fe".to_owned();
    let recipes = vec![scalar("Fe", 3, 0), dirac("O", 9, -1), dirac("Fe", 5, 1)];
    assert_eq!(maximum_principal_n(&site, &recipes), 5);
    assert_eq!(maximum_principal_n(&"Co".to_owned(), &recipes), 1);
}

fn with_treatment(mut r: ChannelRecipeShape, treatment: ChannelTreatment) -> ChannelRecipeShape {
    r.treatment = treatment;
    r
}

#[test]
fn resolved_local_orbitals_follow_the_recipe_order() {
    let site = "Fe".to_owned();
    let recipes = vec![
        with_treatment(scalar("Fe", 5, 1), ChannelTreatment::Lo),
        scalar("Fe", 4, 1),
        with_treatment(dirac("Fe", 6, -3), ChannelTreatment::Hdlo),
        with_treatment(scalar("O", 3, 0), ChannelTreatment::Lo),
        with_treatment(scalar("Fe", 6, 0), ChannelTreatment::Hdlo),
    ];
    assert_eq!(scalar_resolved_local_orbitals(&site, &recipes), vec![(0, 1), (4, 0)]);
    let ok = vec![true; recipes.len()];
    assert_eq!(
        spinor_resolved_local_orbitals(&site, &recipes, &ok),
        Ok(vec![(0, -2), (0, 1), (2, -3), (4, -1)])
    );
    let mut bad = ok.clone();
    bad[2] = false;
    assert_eq!(
        spinor_resolved_local_orbitals(&site, &recipes, &bad),
        Err(BaseChannelError::Kappa { kappa: -3 })
    );
}
