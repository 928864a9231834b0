//! Workflow bookkeeping: source edges between tasks, the SCF state a task
//! consumes, and the selection of the single DFT SCF task of a workflow.
use vstd::prelude::*;
use crate::channels::{
    InputError, CompiledChannelRecipe, ChannelEnergyGenerator, ScfChannelRecipe, ScfCoreSite,
    ConfigurationOrbital, map_basis_channels, map_core_site, require_implemented_derivative_orders,
    spec_basis_channels, spec_core_states, recipe_fits, is_first_high_derivative,
};

verus! {

/// A source reference resolved against the workflow's stable task order.
#[derive(Debug, PartialEq, Eq)]
pub struct PreparedSource {
    pub task_index: usize,
    pub task_id: String,
    pub output: String,
}

/// The kind of a workflow task.
#[derive(Clone, Copy, Debug, PartialEq, Eq, Structural)]
pub enum TaskKind {
    DftScf,
    DftBands,
    DftDos,
}

/// The parameters of a task that the runtime's bookkeeping reads: its kind
/// and, for an SCF task, the basis `l_max` and the task's energy generator.
#[derive(Clone, Copy, Debug, PartialEq, Eq, Structural)]
pub enum Task {
    DftScf { l_max: u32, energy_generator: Option<ChannelEnergyGenerator> },
    DftBands,
    DftDos,
}

/// One validated task plus its resolved optional source edge.
#[derive(Debug)]
pub struct PreparedTask {
    pub id: String,
    pub task: Task,
    pub source: Option<PreparedSource>,
    pub channel_recipe: Option<CompiledChannelRecipe>,
}

/// One completed task output: an SCF state, a band path or a DOS.
#[derive(Debug)]
pub enum TaskResult<S, B, D> {
    Scf(S),
    Bands(B),
    Dos(D),
}

impl<S, B, D> TaskResult<S, B, D> {
    /// The SCF state of an SCF result; `None` for bands and DOS results.
    pub fn scf_state(&self) -> (r: Option<&S>)
        ensures
            match self {
                TaskResult::Scf(state) => r == Some(state),
                _ => r is None,
            },
    {
        match self {
            TaskResult::Scf(state) => Some(state),
            TaskResult::Bands(_) => None,
            TaskResult::Dos(_) => None,
        }
    }
}

/// The first position of `id` among the workflow's task ids.
pub open spec fn is_first_position(ids: Seq<String>, id: String, index: int) -> bool {
    &&& 0 <= index < ids.len()
    &&& ids[index]@ == id@
    &&& forall|j: int| 0 <= j < index ==> (#[trigger] ids[j])@ != id@
}

/// Resolve a parsed source reference `task_id.output` against the
/// workflow's task order. The source task must be one of the workflow's
/// tasks (input validation guarantees it).
pub fn resolve_source(workflow_tasks: &Vec<String>, task_id: &String, output: &String) -> (r: PreparedSource)
    requires
        exists|j: int| 0 <= j < workflow_tasks.len() && (#[trigger] workflow_tasks@[j])@ == task_id@,
    ensures
        is_first_position(workflow_tasks@, *task_id, r.task_index as int),
        r.task_id == *task_id,
        r.output == *output,
{
    let mut i: usize = 0;
    while i < workflow_tasks.len()
        invariant
            i <= workflow_tasks.len(),
            exists|j: int| 0 <= j < workflow_tasks.len() && (#[trigger] workflow_tasks@[j])@ == task_id@,
            forall|j: int| 0 <= j < i ==> (#[trigger] workflow_tasks@[j])@ != task_id@,
        decreases workflow_tasks.len() - i,
    {
        if workflow_tasks[i] == *task_id {
            return PreparedSource { task_index: i, task_id: task_id.clone(), output: output.clone() };
        }
        i = i + 1;
    }
    proof {
        let j = choose|j: int| 0 <= j < workflow_tasks.len() && (#[trigger] workflow_tasks@[j])@ == task_id@;
        assert(workflow_tasks@[j]@ != task_id@);
    }
    PreparedSource { task_index: 0, task_id: task_id.clone(), output: output.clone() }
}

/// A geometry site as the channel-recipe compiler needs it: its id, its
/// atomic number as the checkpoint stores it, and whether the free-atom
/// route's atomic-number type accepts that number once it fits a byte
/// (the caller asks that type; only read when the number fits `u8`).
#[derive(Clone, Debug)]
pub struct GeometrySite {
    pub id: String,
    pub atomic_number: u16,
    pub element_supported: bool,
}

/// A site of a channel recipe: its id and supported atomic number.
#[derive(Clone, Debug, PartialEq, Eq)]
pub struct RecipeSite {
    pub id: String,
    pub atomic_number: u8,
}

/// The site's atomic number fits a byte and names a supported element.
pub open spec fn supported_site(site: GeometrySite) -> bool {
    site.atomic_number <= u8::MAX && site.element_supported
}

/// The recipe sites of a task's geometry, in geometry order; the first
/// site with an unsupported atomic number rejects the task.
pub fn recipe_sites(task_id: &String, sites: &Vec<GeometrySite>) -> (r: Result<Vec<RecipeSite>, InputError>)
    ensures
        match r {
            Ok(out) => {
                &&& out.len() == sites.len()
                &&& forall|i: int| 0 <= i < sites.len() ==> supported_site(#[trigger] sites@[i])
                &&& forall|i: int| 0 <= i < sites.len() ==> (#[trigger] out@[i]).id == sites@[i].id
                    && out@[i].atomic_number == sites@[i].atomic_number
            },
            Err(e) => exists|i: int| 0 <= i < sites.len()
                && !supported_site(#[trigger] sites@[i])
                && (forall|j: int| 0 <= j < i ==> supported_site(#[trigger] sites@[j]))
                && e == (InputError::UnsupportedAtomicNumber {
                    task_id: *task_id,
                    site: sites@[i].id,
                    atomic_number: sites@[i].atomic_number,
                }),
        },
{
    let mut out: Vec<RecipeSite> = Vec::new();
    let mut i: usize = 0;
    while i < sites.len()
        invariant
            i <= sites.len(),
            out.len() == i,
            forall|j: int| 0 <= j < i ==> supported_site(#[trigger] sites@[j]),
            forall|j: int| 0 <= j < i ==> (#[trigger] out@[j]).id == sites@[j].id
                && out@[j].atomic_number == sites@[j].atomic_number,
        decreases sites.len() - i,
    {
        let z = sites[i].atomic_number;
        if z > 255 || !sites[i].element_supported {
            return Err(InputError::UnsupportedAtomicNumber {
                task_id: task_id.clone(),
                site: sites[i].id.clone(),
                atomic_number: z,
            });
        }
        out.push(RecipeSite { id: sites[i].id.clone(), atomic_number: z as u8 });
        i = i + 1;
    }
    Ok(out)
}

/// The SCF state a task consumes: none without a source edge, else the
/// SCF result of its source task, which must already be available.
pub fn source_state<'a, S, B, D>(task: &PreparedTask, results: &'a Vec<TaskResult<S, B, D>>) -> (r: Result<Option<&'a S>, InputError>)
    ensures
        match task.source {
            None => r == Ok::<Option<&S>, InputError>(None),
            Some(source) => if source.task_index < results.len() && results@[source.task_index as int] is Scf {
                r == Ok::<Option<&S>, InputError>(Some(&results@[source.task_index as int]->Scf_0))
            } else {
                r == Err::<Option<&S>, InputError>(InputError::UnavailableScfSource { task_id: task.id })
            },
        },
{
    match &task.source {
        None => Ok(None),
        Some(source) => {
            if source.task_index < results.len() {
                match results[source.task_index].scf_state() {
                    Some(state) => Ok(Some(state)),
                    None => Err(InputError::UnavailableScfSource { task_id: task.id.clone() }),
                }
            } else {
                Err(InputError::UnavailableScfSource { task_id: task.id.clone() })
            }
        },
    }
}

/// The outside work a task asks for, with the SCF state it starts from.
#[derive(Debug)]
pub enum TaskAction<'a, S> {
    /// Run an SCF, from the source task's state when the task has one.
    Scf { source: Option<&'a S> },
    /// Compute a band path from an SCF state.
    Bands { state: &'a S },
    /// Compute a density of states from an SCF state.
    Dos { state: &'a S },
}

/// The next step of a workflow run: given the results of the tasks before
/// `task`, in workflow order, what `task` computes and from which state.
/// Bands and DOS tasks need an SCF state to start from.
pub fn next_task_action<'a, S, B, D>(task: &PreparedTask, results: &'a Vec<TaskResult<S, B, D>>) -> (r: Result<TaskAction<'a, S>, InputError>)
    ensures
        match task.source {
            Some(source) => if source.task_index < results.len() && results@[source.task_index as int] is Scf {
                let state = &results@[source.task_index as int]->Scf_0;
                match task.task {
                    Task::DftScf { .. } => r == Ok::<TaskAction<S>, InputError>(TaskAction::Scf { source: Some(state) }),
                    Task::DftBands => r == Ok::<TaskAction<S>, InputError>(TaskAction::Bands { state }),
                    Task::DftDos => r == Ok::<TaskAction<S>, InputError>(TaskAction::Dos { state }),
                }
            } else {
                r == Err::<TaskAction<S>, InputError>(InputError::UnavailableScfSource { task_id: task.id })
            },
            None => match task.task {
                Task::DftScf { .. } => r == Ok::<TaskAction<S>, InputError>(TaskAction::Scf { source: None }),
                _ => r == Err::<TaskAction<S>, InputError>(InputError::UnavailableScfSource { task_id: task.id }),
            },
        },
{
    let source = match source_state(task, results) {
        Ok(source) => source,
        Err(e) => {
            return Err(e);
        },
    };
    match task.task {
        Task::DftScf { .. } => Ok(TaskAction::Scf { source }),
        Task::DftBands => match source {
            Some(state) => Ok(TaskAction::Bands { state }),
            None => Err(InputError::UnavailableScfSource { task_id: task.id.clone() }),
        },
        Task::DftDos => match source {
            Some(state) => Ok(TaskAction::Dos { state }),
            None => Err(InputError::UnavailableScfSource { task_id: task.id.clone() }),
        },
    }
}

/// The relativistic treatment of an SCF.
#[derive(Clone, Copy, Debug, PartialEq, Eq, Structural)]
pub enum Relativity {
    Scalar,
    SocSecondVariation,
    SpinorFirstVariation,
}

/// The angular momentum of the muffin-tin density and potential does not
/// fit `u32` or the signed 32-bit range.
#[derive(Clone, Copy, Debug, PartialEq, Eq, Structural)]
pub struct AngularMomentumOverflow;

/// The `l_max` of the muffin-tin density and potential of an atomic
/// superposition: `2 l_max` for the scalar routes, `2 (l_max + 1)` for the
/// full spinor route (whose large and small components reach `l_max + 1`).
pub fn muffin_tin_l_max(l_max: u32, relativity: Relativity) -> (r: Result<u32, AngularMomentumOverflow>)
    ensures
        match relativity {
            Relativity::SpinorFirstVariation => if 2 * (l_max + 1) <= i32::MAX {
                r == Ok::<u32, AngularMomentumOverflow>((2 * (l_max + 1)) as u32)
            } else {
                r == Err::<u32, AngularMomentumOverflow>(AngularMomentumOverflow)
            },
            _ => if 2 * l_max <= i32::MAX {
                r == Ok::<u32, AngularMomentumOverflow>((2 * l_max) as u32)
            } else {
                r == Err::<u32, AngularMomentumOverflow>(AngularMomentumOverflow)
            },
        },
{
    let doubled = match relativity {
        Relativity::SpinorFirstVariation => match l_max.checked_add(1) {
            None => None,
            Some(next) => next.checked_mul(2),
        },
        _ => l_max.checked_mul(2),
    };
    match doubled {
        Some(value) => if value <= 0x7fff_ffff {
            Ok(value)
        } else {
            Err(AngularMomentumOverflow)
        },
        None => Err(AngularMomentumOverflow),
    }
}

/// Failure to select exactly one DFT SCF task.
#[derive(Debug)]
pub enum SingleDftScfConfigError {
    TaskCount { count: usize },
    Input(InputError),
}

/// Number of DFT SCF tasks among the first `upto` tasks.
pub open spec fn scf_task_count(tasks: Seq<PreparedTask>, upto: int) -> int
    decreases upto,
{
    if upto <= 0 {
        0
    } else {
        scf_task_count(tasks, upto - 1) + if tasks[upto - 1].task is DftScf { 1int } else { 0int }
    }
}

proof fn lemma_count_bounds(tasks: Seq<PreparedTask>, upto: int)
    requires
        0 <= upto <= tasks.len(),
    ensures
        0 <= scf_task_count(tasks, upto) <= upto,
    decreases upto,
{
    if upto > 0 {
        lemma_count_bounds(tasks, upto - 1);
    }
}

proof fn lemma_single_is_only(tasks: Seq<PreparedTask>, upto: int, k: int)
    requires
        0 <= k < upto <= tasks.len(),
        tasks[k].task is DftScf,
        scf_task_count(tasks, upto) == 1,
    ensures
        forall|j: int| 0 <= j < upto && j != k ==> !(#[trigger] tasks[j].task is DftScf),
    decreases upto,
{
    lemma_count_bounds(tasks, upto - 1);
    if upto - 1 > k {
        assert(!(tasks[upto - 1].task is DftScf)) by {
            if tasks[upto - 1].task is DftScf {
                lemma_count_at_least_one(tasks, upto - 1, k);
            }
        }
        lemma_single_is_only(tasks, upto - 1, k);
    } else {
        assert forall|j: int| 0 <= j < upto - 1 implies !(#[trigger] tasks[j].task is DftScf) by {
            if tasks[j].task is DftScf {
                lemma_count_at_least_one(tasks, upto - 1, j);
            }
        }
    }
}

proof fn lemma_count_at_least_one(tasks: Seq<PreparedTask>, upto: int, k: int)
    requires
        0 <= k < upto <= tasks.len(),
        tasks[k].task is DftScf,
    ensures
        scf_task_count(tasks, upto) >= 1,
    decreases upto,
{
    if upto - 1 > k {
        lemma_count_at_least_one(tasks, upto - 1, k);
    } else {
        lemma_count_bounds(tasks, upto - 1);
    }
}

/// Select the sole DFT SCF task of a prepared workflow, in stable task
/// order; a workflow with zero or several SCF tasks is rejected with the
/// number it has.
pub fn select_single_dft_scf(tasks: &Vec<PreparedTask>) -> (r: Result<usize, SingleDftScfConfigError>)
    ensures
        match r {
            Ok(index) => {
                &&& scf_task_count(tasks@, tasks.len() as int) == 1
                &&& index < tasks.len()
                &&& tasks@[index as int].task is DftScf
                &&& forall|j: int| 0 <= j < tasks.len() && j != index ==> !(#[trigger] tasks@[j].task is DftScf)
            },
            Err(e) => {
                &&& scf_task_count(tasks@, tasks.len() as int) != 1
                &&& e matches SingleDftScfConfigError::TaskCount { count } && count == scf_task_count(tasks@, tasks.len() as int)
            },
        },
{
    let mut selected: Option<usize> = None;
    let mut count: usize = 0;
    let mut i: usize = 0;
    while i < tasks.len()
        invariant
            i <= tasks.len(),
            count == scf_task_count(tasks@, i as int),
            count <= i,
            match selected {
                None => count == 0,
                Some(k) => k < i && tasks@[k as int].task is DftScf,
            },
        decreases tasks.len() - i,
    {
        proof { lemma_count_bounds(tasks@, i as int + 1); }
        let is_scf = match tasks[i].task {
            Task::DftScf { .. } => true,
            _ => false,
        };
        if is_scf {
            count = count + 1;
            if selected.is_none() {
                selected = Some(i);
            }
        }
        i = i + 1;
    }
    match selected {
        Some(k) => {
            if count == 1 {
                proof { lemma_single_is_only(tasks@, tasks.len() as int, k as int); }
                Ok(k)
            } else {
                Err(SingleDftScfConfigError::TaskCount { count })
            }
        },
        None => Err(SingleDftScfConfigError::TaskCount { count }),
    }
}

/// Core states of every site, in site order, or the first rejection.
pub open spec fn spec_core_sites(task_id: String, recipe: CompiledChannelRecipe, configurations: Seq<Vec<ConfigurationOrbital>>, upto: int) -> Result<Seq<Seq<crate::channels::ScfCoreState>>, InputError>
    decreases upto,
{
    if upto <= 0 {
        Ok(Seq::empty())
    } else {
        match spec_core_sites(task_id, recipe, configurations, upto - 1) {
            Err(e) => Err(e),
            Ok(prev) => {
                let site = recipe.sites@[upto - 1];
                match spec_core_states(site.channels@, configurations[upto - 1]@) {
                    Ok(states) => Ok(prev.push(states)),
                    Err(identity) => Err(InputError::MissingCoreOccupation {
                        task_id,
                        site: site.site,
                        atomic_number: site.atomic_number,
                        identity,
                    }),
                }
            },
        }
    }
}

/// The channel part of an SCF task's configuration: rejection of an
/// unimplemented derivative order, the SCF channels with completed base
/// valence coverage, and each site's core states selected from its default
/// atomic configuration (`configurations[s]` for site `s`).
pub fn scf_channel_config(task: &PreparedTask, configurations: &Vec<Vec<ConfigurationOrbital>>) -> (r: Result<(Vec<ScfChannelRecipe>, Vec<ScfCoreSite>), InputError>)
    requires
        task.task is DftScf,
        task.channel_recipe is Some,
        recipe_fits(task.task->l_max, task.channel_recipe->0),
        configurations.len() == task.channel_recipe->0.sites.len(),
        forall|s: int, j: int| 0 <= s < configurations.len() && 0 <= j < configurations@[s].len() ==> (#[trigger] configurations@[s]@[j]).kappa != i32::MIN,
    ensures
        ({
            let recipe = task.channel_recipe->0;
            let high = exists|s: int, c: int| 0 <= s < recipe.sites.len() && 0 <= c < recipe.sites@[s].channels.len()
                && (#[trigger] recipe.sites@[s].channels@[c]).derivative_order >= 3;
            if high {
                r matches Err(e) && exists|s: int, c: int| is_first_high_derivative(recipe.sites@, s, c) && e == (InputError::DerivativeOrderNotImplemented {
                    task_id: task.id,
                    site: recipe.sites@[s].site,
                    identity: recipe.sites@[s].channels@[c].identity,
                    derivative_order: recipe.sites@[s].channels@[c].derivative_order,
                })
            } else {
                match spec_basis_channels(task.id, task.task->l_max, task.task->energy_generator, recipe.sites@) {
                Err(e) => r matches Err(e2) && e2 == e,
                Ok(chans) => match spec_core_sites(task.id, recipe, configurations@, recipe.sites.len() as int) {
                    Err(e) => r matches Err(e2) && e2 == e,
                    Ok(cores) => r matches Ok((v, sites)) && v@ == chans && sites.len() == cores.len()
                        && forall|s: int| 0 <= s < sites.len() ==> (#[trigger] sites@[s]).states@ == cores[s] && sites@[s].id == recipe.sites@[s].site,
                    },
                }
            }
        }),
{
    let recipe = match &task.channel_recipe {
        Some(recipe) => recipe,
        None => return Err(InputError::UnavailableScfSource { task_id: task.id.clone() }),
    };
    let (l_max, generator) = match task.task {
        Task::DftScf { l_max, energy_generator } => (l_max, energy_generator),
        _ => return Err(InputError::UnavailableScfSource { task_id: task.id.clone() }),
    };
    match require_implemented_derivative_orders(&task.id, recipe) {
        Ok(()) => {},
        Err(e) => return Err(e),
    }
    let channels = match map_basis_channels(&task.id, l_max, generator, recipe) {
        Ok(v) => v,
        Err(e) => return Err(e),
    };
    let mut core_sites: Vec<ScfCoreSite> = Vec::new();
    let mut s: usize = 0;
    while s < recipe.sites.len()
        invariant
            s <= recipe.sites.len(),
            core_sites.len() == s,
            task.channel_recipe == Some(*recipe),
            task.task == (Task::DftScf { l_max, energy_generator: generator }),
            forall|s2: int, c: int| 0 <= s2 < recipe.sites.len() && 0 <= c < recipe.sites@[s2].channels.len()
                ==> (#[trigger] recipe.sites@[s2].channels@[c]).derivative_order < 3,
            spec_basis_channels(task.id, l_max, generator, recipe.sites@) == Ok::<_, InputError>(channels@),
            configurations.len() == recipe.sites.len(),
            forall|s2: int, j: int| 0 <= s2 < configurations.len() && 0 <= j < configurations@[s2].len() ==> (#[trigger] configurations@[s2]@[j]).kappa != i32::MIN,
            spec_core_sites(task.id, *recipe, configurations@, s as int) matches Ok(cores) && core_sites.len() == cores.len()
                && forall|k: int| 0 <= k < core_sites.len() ==> (#[trigger] core_sites@[k]).states@ == cores[k] && core_sites@[k].id == recipe.sites@[k].site,
        decreases recipe.sites.len() - s,
    {
        let ghost prev = spec_core_sites(task.id, *recipe, configurations@, s as int)->Ok_0;
        let ghost site_spec = recipe.sites@[s as int];
        match map_core_site(&task.id, &recipe.sites[s], &configurations[s]) {
            Ok(core) => {
                proof {
                    assert(spec_core_states(site_spec.channels@, configurations@[s as int]@) == Ok::<_, crate::channels::ChannelIdentity>(core.states@));
                    assert(spec_core_sites(task.id, *recipe, configurations@, s as int + 1) == Ok::<_, InputError>(prev.push(core.states@)));
                }
                core_sites.push(core);
                proof {
                    assert forall|k: int| 0 <= k < core_sites.len() implies (#[trigger] core_sites@[k]).states@ == prev.push(core.states@)[k] && core_sites@[k].id == recipe.sites@[k].site by {
                        if k < s {
                        }
                    }
                }
            },
            Err(e) => {
                proof {
                    assert(spec_core_sites(task.id, *recipe, configurations@, s as int + 1) == Err::<Seq<Seq<crate::channels::ScfCoreState>>, InputError>(e));
                    lemma_core_sites_err_sticky(task.id, *recipe, configurations@, s as int + 1, recipe.sites.len() as int);
                }
                return Err(e);
            },
        }
        s = s + 1;
    }
    Ok((channels, core_sites))
}

proof fn lemma_core_sites_err_sticky(task_id: String, recipe: CompiledChannelRecipe, configurations: Seq<Vec<ConfigurationOrbital>>, k: int, upto: int)
    requires
        0 <= k <= upto,
        spec_core_sites(task_id, recipe, configurations, k) is Err,
    ensures
        spec_core_sites(task_id, recipe, configurations, upto) == spec_core_sites(task_id, recipe, configurations, k),
    decreases upto - k,
{
    if k < upto {
        lemma_core_sites_err_sticky(task_id, recipe, configurations, k, upto - 1);
    }
}

} // verus!
