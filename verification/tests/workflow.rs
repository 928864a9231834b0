use mt_runtime::channels::{
    ChannelEnergyGenerator, ChannelIdentity, ChannelProvenance, ChannelRecipeRecord,
    ChannelTreatment, CompiledChannelRecipe, CompiledSiteRecipe, ConfigurationOrbital, InputError,
};
use mt_runtime::workflow::{
    recipe_sites, GeometrySite, RecipeSite,
    muffin_tin_l_max, next_task_action, resolve_source, scf_channel_config, select_single_dft_scf,
    source_state, AngularMomentumOverflow, PreparedSource, PreparedTask, Relativity,
    SingleDftScfConfigError, Task, TaskAction, TaskResult,
};

fn task(id: &str, task: Task, source: Option<usize>) -> PreparedTask {
    PreparedTask {
        id: id.to_owned(),
        task,
        source: source.map(|task_index| PreparedSource {
            task_index,
            task_id: "scf".to_owned(),
            output: "state".to_owned(),
        }),
        channel_recipe: None,
    }
}

fn scf() -> Task {
    Task::DftScf {
        l_max: 1,
        energy_generator: None,
    }
}

#[test]
fn source_resolves_to_first_matching_task_position() {
    let tasks = vec!["a".to_owned(), "scf".to_owned(), "bands".to_owned()];
    let source = resolve_source(&tasks, &"scf".to_owned(), &"state".to_owned());
    assert_eq!(
        source,
        PreparedSource {
            task_index: 1,
            task_id: "scf".to_owned(),
            output: "state".to_owned()
        }
    );
}

#[test]
fn source_state_reads_only_earlier_scf_results() {
    let results: Vec<TaskResult<u32, &str, &str>> =
        vec![TaskResult::Scf(7), TaskResult::Bands("path")];
    assert!(matches!(source_state(&task("t", Task::DftBands, None), &results), Ok(None)));
    assert!(matches!(
        source_state(&task("t", Task::DftBands, Some(0)), &results),
        Ok(Some(7))
    ));
    assert!(matches!(
        source_state(&task("t", Task::DftDos, Some(1)), &results),
        Err(InputError::UnavailableScfSource { task_id }) if task_id == "t"
    ));
    assert!(matches!(
        source_state(&task("t", Task::DftDos, Some(2)), &results),
        Err(InputError::UnavailableScfSource { .. })
    ));
    assert_eq!(TaskResult::<u32, (), ()>::Scf(3).scf_state(), Some(&3));
    assert_eq!(TaskResult::<u32, (), ()>::Dos(()).scf_state(), None);
}

#[test]
fn exactly_one_scf_task_is_selected() {
    let tasks = vec![
        task("bands", Task::DftBands, Some(1)),
        task("scf", scf(), None),
        task("dos", Task::DftDos, Some(1)),
    ];
    assert_eq!(select_single_dft_scf(&tasks).unwrap(), 1);
    let none = vec![task("bands", Task::DftBands, None)];
    assert!(matches!(
        select_single_dft_scf(&none),
        Err(SingleDftScfConfigError::TaskCount { count: 0 })
    ));
    let two = vec![task("a", scf(), None), task("b", scf(), None)];
    assert!(matches!(
        select_single_dft_scf(&two),
        Err(SingleDftScfConfigError::TaskCount { count: 2 })
    ));
}

#[test]
fn scf_channel_config_maps_channels_and_cores() {
    let record = ChannelRecipeRecord {
        identity: ChannelIdentity::Kappa { n: 1, kappa: -1 },
        treatment: ChannelTreatment::Core,
        derivative_order: 0,
        generator: ChannelEnergyGenerator::Atomic,
        seed: None,
        provenance: ChannelProvenance::Species,
    };
    let mut prepared = task("scf", scf(), None);
    prepared.channel_recipe = Some(CompiledChannelRecipe {
        sites: vec![CompiledSiteRecipe {
            site: "Li-1".to_owned(),
            atomic_number: 3,
            channels: vec![record],
        }],
    });
    let configuration = vec![vec![
        ConfigurationOrbital { n: 1, kappa: -1 },
        ConfigurationOrbital { n: 2, kappa: -1 },
    ]];
    let (channels, cores) = scf_channel_config(&prepared, &configuration).unwrap();
    let identities: Vec<_> = channels.iter().map(|c| c.identity).collect();
    assert_eq!(
        identities,
        vec![
            ChannelIdentity::Kappa { n: 1, kappa: -1 },
            ChannelIdentity::ScalarL { n: 2, l: 0 },
            ChannelIdentity::ScalarL { n: 2, l: 1 },
        ]
    );
    assert_eq!(cores.len(), 1);
    assert_eq!(cores[0].id, "Li-1");
    assert_eq!(cores[0].states.len(), 1);
    assert_eq!(cores[0].states[0].occupation_index, 0);
}

#[test]
fn each_task_runs_from_the_state_of_its_source() {
    let results: Vec<TaskResult<u32, &str, &str>> =
        vec![TaskResult::Scf(7), TaskResult::Dos("dos")];
    assert!(matches!(
        next_task_action(&task("s", scf(), None), &results),
        Ok(TaskAction::Scf { source: None })
    ));
    assert!(matches!(
        next_task_action(&task("s", scf(), Some(0)), &results),
        Ok(TaskAction::Scf { source: Some(7) })
    ));
    assert!(matches!(
        next_task_action(&task("b", Task::DftBands, Some(0)), &results),
        Ok(TaskAction::Bands { state: 7 })
    ));
    assert!(matches!(
        next_task_action(&task("d", Task::DftDos, Some(0)), &results),
        Ok(TaskAction::Dos { state: 7 })
    ));
    assert!(matches!(
        next_task_action(&task("b", Task::DftBands, None), &results),
        Err(InputError::UnavailableScfSource { task_id }) if task_id == "b"
    ));
    assert!(matches!(
        next_task_action(&task("d", Task::DftDos, Some(1)), &results),
        Err(InputError::UnavailableScfSource { .. })
    ));
}

#[test]
fn muffin_tin_l_max_doubles_the_basis_l_max() {
    assert_eq!(muffin_tin_l_max(3, Relativity::Scalar), Ok(6));
    assert_eq!(muffin_tin_l_max(3, Relativity::SocSecondVariation), Ok(6));
    assert_eq!(muffin_tin_l_max(3, Relativity::SpinorFirstVariation), Ok(8));
    assert_eq!(muffin_tin_l_max(0x3fff_ffff, Relativity::Scalar), Ok(0x7fff_fffe));
    assert_eq!(
        muffin_tin_l_max(0x3fff_ffff, Relativity::SpinorFirstVariation),
        Err(AngularMomentumOverflow)
    );
    assert_eq!(muffin_tin_l_max(u32::MAX, Relativity::Scalar), Err(AngularMomentumOverflow));
}

/// A site whose element the free-atom route supports exactly for `1..=103`.
fn geometry_site(id: &str, atomic_number: u16) -> GeometrySite {
    GeometrySite {
        id: id.to_owned(),
        atomic_number,
        element_supported: (1..=103).contains(&atomic_number),
    }
}

#[test]
fn recipe_sites_keep_geometry_order_and_atomic_numbers() {
    let sites = vec![geometry_site("Si1", 14), geometry_site("Lr", 103), geometry_site("H", 1)];
    let out = recipe_sites(&"scf".to_owned(), &sites).unwrap();
    assert_eq!(
        out,
        vec![
            RecipeSite { id: "Si1".to_owned(), atomic_number: 14 },
            RecipeSite { id: "Lr".to_owned(), atomic_number: 103 },
            RecipeSite { id: "H".to_owned(), atomic_number: 1 },
        ]
    );
}

#[test]
fn recipe_sites_reject_the_first_unsupported_atomic_number() {
    let sites = vec![geometry_site("Si1", 14), geometry_site("X", 104), geometry_site("Gh", 0)];
    match recipe_sites(&"scf".to_owned(), &sites) {
        Err(InputError::UnsupportedAtomicNumber { task_id, site, atomic_number }) => {
            assert_eq!(task_id, "scf");
            assert_eq!(site, "X");
            assert_eq!(atomic_number, 104);
        }
        other => panic!("unexpected {other:?}"),
    }
    let wide = vec![GeometrySite { id: "W".to_owned(), atomic_number: 270, element_supported: true }];
    assert!(matches!(
        recipe_sites(&"scf".to_owned(), &wide),
        Err(InputError::UnsupportedAtomicNumber { atomic_number: 270, .. })
    ));
    let ghost = vec![geometry_site("Gh", 0)];
    assert!(matches!(
        recipe_sites(&"scf".to_owned(), &ghost),
        Err(InputError::UnsupportedAtomicNumber { atomic_number: 0, .. })
    ));
}
