use mt_runtime::channels::{
    map_basis_channels, map_core_site, map_site_channels, require_implemented_derivative_orders,
    ChannelEnergyGenerator, ChannelIdentity, ChannelProvenance, ChannelRecipeRecord,
    ChannelTreatment, CompiledChannelRecipe, CompiledSiteRecipe, ConfigurationOrbital, InputError,
};

fn record(identity: ChannelIdentity, treatment: ChannelTreatment) -> ChannelRecipeRecord {
    ChannelRecipeRecord {
        identity,
        treatment,
        derivative_order: 0,
        generator: ChannelEnergyGenerator::Atomic,
        seed: None,
        provenance: ChannelProvenance::BuiltIn,
    }
}

fn site(channels: Vec<ChannelRecipeRecord>) -> CompiledSiteRecipe {
    CompiledSiteRecipe {
        site: "H-1".to_owned(),
        atomic_number: 1,
        channels,
    }
}

#[test]
fn base_valence_coverage_uses_first_unrepresented_n_and_task_generator() {
    let mut compiled_channels = vec![
        record(
            ChannelIdentity::Kappa { n: 1, kappa: -1 },
            ChannelTreatment::Lo,
        ),
        record(
            ChannelIdentity::Kappa { n: 2, kappa: 1 },
            ChannelTreatment::Valence,
        ),
        record(
            ChannelIdentity::Kappa { n: 2, kappa: -2 },
            ChannelTreatment::Valence,
        ),
    ];
    for record in &mut compiled_channels {
        record.generator = ChannelEnergyGenerator::BandCog;
    }
    let recipe = CompiledChannelRecipe {
        sites: vec![site(compiled_channels)],
    };

    let channels = map_basis_channels(
        &"scf".to_owned(),
        2,
        Some(ChannelEnergyGenerator::BandCog),
        &recipe,
    )
    .unwrap();
    let mut scalar_valence: Vec<_> = channels
        .iter()
        .filter(|channel| {
            channel.provenance == ChannelProvenance::BuiltIn
                && channel.treatment == ChannelTreatment::Valence
                && matches!(channel.identity, ChannelIdentity::ScalarL { .. })
        })
        .map(|channel| channel.identity)
        .collect();
    scalar_valence.sort();
    assert_eq!(
        scalar_valence,
        vec![
            ChannelIdentity::ScalarL { n: 2, l: 0 },
            ChannelIdentity::ScalarL { n: 2, l: 1 },
            ChannelIdentity::ScalarL { n: 3, l: 2 },
        ]
    );
    assert!(channels
        .iter()
        .filter(|channel| channel.treatment == ChannelTreatment::Valence)
        .all(|channel| channel.generator == ChannelEnergyGenerator::BandCog));
    assert!(!channels.iter().any(|channel| {
        channel.treatment == ChannelTreatment::Valence
            && matches!(channel.identity, ChannelIdentity::Kappa { .. })
    }));
}

#[test]
fn built_in_valence_partners_must_have_matching_generator_and_seed() {
    let first = record(
        ChannelIdentity::Kappa { n: 2, kappa: 1 },
        ChannelTreatment::Valence,
    );
    let mut conflicting = record(
        ChannelIdentity::Kappa { n: 2, kappa: -2 },
        ChannelTreatment::Valence,
    );
    conflicting.generator = ChannelEnergyGenerator::BandCog;
    let recipe = CompiledChannelRecipe {
        sites: vec![site(vec![first, conflicting])],
    };

    assert!(matches!(
        map_basis_channels(&"scf".to_owned(), 1, None, &recipe),
        Err(InputError::InconsistentBuiltInValencePartners {
            task_id,
            site,
            n: 2,
            l: 1,
            first_generator: ChannelEnergyGenerator::Atomic,
            first_seed: None,
            conflicting_generator: ChannelEnergyGenerator::BandCog,
            conflicting_seed: None,
        }) if task_id == "scf" && site == "H-1"
    ));
}

#[test]
fn explicit_task_generator_rejects_seedless_base_valence_injection() {
    let recipe = CompiledChannelRecipe {
        sites: vec![site(Vec::new())],
    };

    assert!(matches!(
        map_basis_channels(
            &"scf".to_owned(),
            1,
            Some(ChannelEnergyGenerator::Explicit),
            &recipe,
        ),
        Err(InputError::MissingExplicitBaseValenceSeed {
            task_id,
            site,
            identity: ChannelIdentity::ScalarL { n: 1, l: 0 },
        }) if task_id == "scf" && site == "H-1"
    ));
}

#[test]
fn partners_with_equal_seed_collapse_and_seed_mismatch_is_rejected() {
    let mut first = record(
        ChannelIdentity::Kappa { n: 3, kappa: 1 },
        ChannelTreatment::Valence,
    );
    first.seed = Some(0.25_f64.to_bits());
    let mut second = record(
        ChannelIdentity::Kappa { n: 3, kappa: -2 },
        ChannelTreatment::Valence,
    );
    second.seed = Some(0.25_f64.to_bits());
    let channels = map_site_channels(&"t".to_owned(), &site(vec![first, second])).unwrap();
    assert_eq!(channels.len(), 1);
    assert_eq!(channels[0].identity, ChannelIdentity::ScalarL { n: 3, l: 1 });
    assert_eq!(channels[0].seed, Some(0.25_f64.to_bits()));

    let mut first = record(
        ChannelIdentity::Kappa { n: 3, kappa: 1 },
        ChannelTreatment::Valence,
    );
    first.seed = Some(0.25_f64.to_bits());
    let second = record(
        ChannelIdentity::Kappa { n: 3, kappa: -2 },
        ChannelTreatment::Valence,
    );
    assert!(matches!(
        map_site_channels(&"t".to_owned(), &site(vec![first, second])),
        Err(InputError::InconsistentBuiltInValencePartners { first_seed: Some(_), conflicting_seed: None, .. })
    ));
}

#[test]
fn non_built_in_and_non_valence_records_are_kept_unchanged() {
    let mut external = record(
        ChannelIdentity::Kappa { n: 2, kappa: -1 },
        ChannelTreatment::Valence,
    );
    external.provenance = ChannelProvenance::ExternalRecipe {
        source: "recipe.toml".to_owned(),
    };
    let lo = record(ChannelIdentity::Kappa { n: 3, kappa: -1 }, ChannelTreatment::Lo);
    let channels = map_site_channels(&"t".to_owned(), &site(vec![external, lo])).unwrap();
    assert_eq!(channels.len(), 2);
    assert_eq!(channels[0].identity, ChannelIdentity::Kappa { n: 2, kappa: -1 });
    assert_eq!(
        channels[0].provenance,
        ChannelProvenance::ExternalRecipe {
            source: "recipe.toml".to_owned()
        }
    );
    assert_eq!(channels[1].treatment, ChannelTreatment::Lo);
    assert_eq!(channels[1].site, "H-1");
}

#[test]
fn base_channels_follow_site_channels_in_l_order_for_every_site() {
    let recipe = CompiledChannelRecipe {
        sites: vec![
            site(vec![record(
                ChannelIdentity::ScalarL { n: 2, l: 1 },
                ChannelTreatment::Valence,
            )]),
            CompiledSiteRecipe {
                site: "O-1".to_owned(),
                atomic_number: 8,
                channels: Vec::new(),
            },
        ],
    };
    let channels = map_basis_channels(&"scf".to_owned(), 2, None, &recipe).unwrap();
    let ids: Vec<_> = channels.iter().map(|c| (c.site.clone(), c.identity)).collect();
    assert_eq!(
        ids,
        vec![
            ("H-1".to_owned(), ChannelIdentity::ScalarL { n: 2, l: 1 }),
            ("H-1".to_owned(), ChannelIdentity::ScalarL { n: 1, l: 0 }),
            ("H-1".to_owned(), ChannelIdentity::ScalarL { n: 3, l: 2 }),
            ("O-1".to_owned(), ChannelIdentity::ScalarL { n: 1, l: 0 }),
            ("O-1".to_owned(), ChannelIdentity::ScalarL { n: 2, l: 1 }),
            ("O-1".to_owned(), ChannelIdentity::ScalarL { n: 3, l: 2 }),
        ]
    );
    assert!(channels[1..]
        .iter()
        .all(|c| c.generator == ChannelEnergyGenerator::Atomic && c.seed.is_none()));
}

#[test]
fn core_records_select_configuration_states_once() {
    let configuration = vec![
        ConfigurationOrbital { n: 1, kappa: -1 },
        ConfigurationOrbital { n: 2, kappa: -1 },
        ConfigurationOrbital { n: 2, kappa: 1 },
        ConfigurationOrbital { n: 2, kappa: -2 },
    ];
    let recipe_site = site(vec![
        record(ChannelIdentity::ScalarL { n: 2, l: 1 }, ChannelTreatment::Core),
        record(ChannelIdentity::Kappa { n: 2, kappa: 1 }, ChannelTreatment::Core),
        record(ChannelIdentity::Kappa { n: 1, kappa: -1 }, ChannelTreatment::Core),
        record(ChannelIdentity::ScalarL { n: 3, l: 0 }, ChannelTreatment::Valence),
    ]);
    let core = map_core_site(&"scf".to_owned(), &recipe_site, &configuration).unwrap();
    assert_eq!(core.id, "H-1");
    let states: Vec<_> = core
        .states
        .iter()
        .map(|s| (s.principal_quantum_number, s.kappa, s.occupation_index))
        .collect();
    assert_eq!(states, vec![(2, 1, 2), (2, -2, 3), (1, -1, 0)]);
}

#[test]
fn core_record_without_configuration_state_is_rejected() {
    let configuration = vec![ConfigurationOrbital { n: 1, kappa: -1 }];
    let recipe_site = site(vec![record(
        ChannelIdentity::ScalarL { n: 2, l: 0 },
        ChannelTreatment::Core,
    )]);
    assert!(matches!(
        map_core_site(&"scf".to_owned(), &recipe_site, &configuration),
        Err(InputError::MissingCoreOccupation {
            atomic_number: 1,
            identity: ChannelIdentity::ScalarL { n: 2, l: 0 },
            ..
        })
    ));
}

#[test]
fn third_derivative_channel_is_not_implemented() {
    let mut hdlo = record(ChannelIdentity::ScalarL { n: 3, l: 0 }, ChannelTreatment::Hdlo);
    hdlo.derivative_order = 3;
    let ok = CompiledChannelRecipe {
        sites: vec![site(vec![record(
            ChannelIdentity::ScalarL { n: 3, l: 0 },
            ChannelTreatment::Hdlo,
        )])],
    };
    assert!(require_implemented_derivative_orders(&"scf".to_owned(), &ok).is_ok());
    let bad = CompiledChannelRecipe {
        sites: vec![site(vec![hdlo])],
    };
    assert!(matches!(
        require_implemented_derivative_orders(&"scf".to_owned(), &bad),
        Err(InputError::DerivativeOrderNotImplemented { derivative_order: 3, .. })
    ));
}
