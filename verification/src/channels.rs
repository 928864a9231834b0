//! Basis-channel recipes of a DFT SCF task: collapsing built-in relativistic
//! valence partners onto scalar channels, completing the base valence
//! coverage for every `l` up to the task's `l_max`, and selecting the core
//! states of a site.
use vstd::prelude::*;
use std::collections::BTreeMap;
use crate::ordered_keys::{u32_pair_keys_ordered, lemma_u32_pair_keys_ordered};
use crate::kappa::spec_l_of_kappa;

verus! {

broadcast use vstd::std_specs::btree::group_btree_axioms;

/// Identity of one basis channel: scalar `(n, l)` or relativistic `(n, kappa)`.
#[derive(Clone, Copy, Debug, PartialEq, Eq, Structural, PartialOrd, Ord)]
pub enum ChannelIdentity {
    ScalarL { n: u32, l: u32 },
    Kappa { n: u32, kappa: i32 },
}

/// How a channel enters the calculation.
#[derive(Clone, Copy, Debug, PartialEq, Eq, Structural)]
pub enum ChannelTreatment {
    Core,
    Valence,
    Lo,
    Hdlo,
}

/// How a channel's linearization energy is produced.
#[derive(Clone, Copy, Debug, PartialEq, Eq, Structural)]
pub enum ChannelEnergyGenerator {
    Explicit,
    Atomic,
    BandCenter,
    LogDerivative,
    BandCog,
    FermiOffset,
    FrozenCheckpoint,
}

/// Where a channel record came from.
#[derive(Debug, PartialEq, Eq)]
pub enum ChannelProvenance {
    BuiltIn,
    ExternalRecipe { source: String },
    TaskDefault,
    Species,
    Site,
}

/// One compiled channel record of a site.
///
/// `seed` is the bit pattern of the explicit seed energy in hartree, when
/// one is given; seeds are compared by it.
#[derive(Debug)]
pub struct ChannelRecipeRecord {
    pub identity: ChannelIdentity,
    pub treatment: ChannelTreatment,
    pub derivative_order: u32,
    pub generator: ChannelEnergyGenerator,
    pub seed: Option<u64>,
    pub provenance: ChannelProvenance,
}

/// The compiled channel records of one site.
#[derive(Debug)]
pub struct CompiledSiteRecipe {
    pub site: String,
    pub atomic_number: u8,
    pub channels: Vec<ChannelRecipeRecord>,
}

/// The compiled channel recipe of a task: one entry per site.
#[derive(Debug)]
pub struct CompiledChannelRecipe {
    pub sites: Vec<CompiledSiteRecipe>,
}

/// One channel handed to the SCF driver.
#[derive(Debug)]
pub struct ScfChannelRecipe {
    pub site: String,
    pub identity: ChannelIdentity,
    pub treatment: ChannelTreatment,
    pub derivative_order: u32,
    pub generator: ChannelEnergyGenerator,
    pub seed: Option<u64>,
    pub provenance: ChannelProvenance,
}

/// Rejections while mapping a compiled channel recipe to SCF channels.
#[derive(Debug)]
pub enum InputError {
    /// Two built-in relativistic valence partners of one `(n, l)` disagree
    /// on their energy generator or seed.
    InconsistentBuiltInValencePartners {
        task_id: String,
        site: String,
        n: u32,
        l: u32,
        first_generator: ChannelEnergyGenerator,
        first_seed: Option<u64>,
        conflicting_generator: ChannelEnergyGenerator,
        conflicting_seed: Option<u64>,
    },
    /// A base valence channel would have to be injected with the explicit
    /// generator, which has no seed to use.
    MissingExplicitBaseValenceSeed { task_id: String, site: String, identity: ChannelIdentity },
    /// A channel asks for an energy-derivative order that is not implemented.
    DerivativeOrderNotImplemented { task_id: String, site: String, identity: ChannelIdentity, derivative_order: u32 },
    /// A core channel names no state of the site's atomic configuration.
    MissingCoreOccupation { task_id: String, site: String, atomic_number: u8, identity: ChannelIdentity },
    /// A bands or DOS task has no SCF state to start from.
    UnavailableScfSource { task_id: String },
    /// A site's atomic number is outside the elements the free-atom route
    /// supports.
    UnsupportedAtomicNumber { task_id: String, site: String, atomic_number: u16 },
}

// ---------------------------------------------------------------------
// Specification.

/// `l` of a `kappa` in the unsigned type (`u32::MAX` for `kappa == 0`).
pub open spec fn l_u32(kappa: i32) -> u32 {
    if kappa == 0 {
        u32::MAX
    } else {
        spec_l_of_kappa(kappa as int) as u32
    }
}

/// Orbital angular momentum of a channel identity.
pub open spec fn identity_l(identity: ChannelIdentity) -> u32 {
    match identity {
        ChannelIdentity::ScalarL { l, .. } => l,
        ChannelIdentity::Kappa { kappa, .. } => l_u32(kappa),
    }
}

/// Principal quantum number of a channel identity.
pub open spec fn identity_n(identity: ChannelIdentity) -> u32 {
    match identity {
        ChannelIdentity::ScalarL { n, .. } => n,
        ChannelIdentity::Kappa { n, .. } => n,
    }
}

/// Every relativistic identity has a `kappa` whose `l` can be formed.
pub open spec fn identity_ok(identity: ChannelIdentity) -> bool {
    identity matches ChannelIdentity::Kappa { kappa, .. } ==> kappa != i32::MIN
}

/// The `(n, l)` a built-in relativistic valence record collapses onto.
pub open spec fn collapse_key(r: ChannelRecipeRecord) -> Option<(u32, u32)> {
    if r.provenance is BuiltIn && r.treatment == ChannelTreatment::Valence {
        match r.identity {
            ChannelIdentity::Kappa { n, kappa } => Some((n, l_u32(kappa))),
            ChannelIdentity::ScalarL { .. } => None,
        }
    } else {
        None
    }
}

/// A record of `site` as an SCF channel with the given identity.
pub open spec fn channel_of(site: String, r: ChannelRecipeRecord, identity: ChannelIdentity) -> ScfChannelRecipe {
    ScfChannelRecipe {
        site,
        identity,
        treatment: r.treatment,
        derivative_order: r.derivative_order,
        generator: r.generator,
        seed: r.seed,
        provenance: r.provenance,
    }
}

/// The generator and seed recorded for the first partner of `key`, if any.
pub open spec fn first_partner(firsts: Seq<((u32, u32), (ChannelEnergyGenerator, Option<u64>))>, key: (u32, u32)) -> Option<(ChannelEnergyGenerator, Option<u64>)>
    decreases firsts.len(),
{
    if firsts.len() == 0 {
        None
    } else {
        match first_partner(firsts.drop_last(), key) {
            Some(v) => Some(v),
            None => if firsts.last().0 == key { Some(firsts.last().1) } else { None },
        }
    }
}

/// Site channels after collapsing built-in valence partners, processing the
/// records in order: a record that does not collapse is kept as it is; the
/// first partner of an `(n, l)` is kept with identity `ScalarL { n, l }`;
/// later partners must repeat its generator and seed and are dropped.
/// Also returns the first partners met, in order.
pub open spec fn spec_site_channels(task_id: String, site: String, records: Seq<ChannelRecipeRecord>)
    -> Result<(Seq<ScfChannelRecipe>, Seq<((u32, u32), (ChannelEnergyGenerator, Option<u64>))>), InputError>
    decreases records.len(),
{
    if records.len() == 0 {
        Ok((Seq::empty(), Seq::empty()))
    } else {
        match spec_site_channels(task_id, site, records.drop_last()) {
            Err(e) => Err(e),
            Ok((out, firsts)) => {
                let r = records.last();
                match collapse_key(r) {
                    None => Ok((out.push(channel_of(site, r, r.identity)), firsts)),
                    Some(key) => match first_partner(firsts, key) {
                        Some(first) => if first == (r.generator, r.seed) {
                            Ok((out, firsts))
                        } else {
                            Err(InputError::InconsistentBuiltInValencePartners {
                                task_id,
                                site,
                                n: key.0,
                                l: key.1,
                                first_generator: first.0,
                                first_seed: first.1,
                                conflicting_generator: r.generator,
                                conflicting_seed: r.seed,
                            })
                        },
                        None => Ok((
                            out.push(channel_of(site, r, ChannelIdentity::ScalarL { n: key.0, l: key.1 })),
                            firsts.push((key, (r.generator, r.seed))),
                        )),
                    },
                }
            },
        }
    }
}

// ---------------------------------------------------------------------
// Execution.

/// `l` of a channel's `kappa` (see [`crate::kappa::angular_momentum_from_kappa`]).
fn kappa_l(kappa: i32) -> (l: u32)
    requires
        kappa != i32::MIN,
    ensures
        l == l_u32(kappa),
{
    if kappa > 0 {
        kappa as u32
    } else if kappa == 0 {
        u32::MAX
    } else {
        (-kappa - 1) as u32
    }
}

/// Orbital angular momentum of an SCF channel identity.
pub fn scf_channel_angular_momentum(identity: ChannelIdentity) -> (l: u32)
    requires
        identity_ok(identity),
    ensures
        l == identity_l(identity),
{
    match identity {
        ChannelIdentity::ScalarL { l, .. } => l,
        ChannelIdentity::Kappa { kappa, .. } => kappa_l(kappa),
    }
}

/// Principal quantum number of an SCF channel identity.
pub fn scf_channel_principal_quantum_number(identity: ChannelIdentity) -> (n: u32)
    ensures
        n == identity_n(identity),
{
    match identity {
        ChannelIdentity::ScalarL { n, .. } => n,
        ChannelIdentity::Kappa { n, .. } => n,
    }
}

/// A copy of a provenance.
pub fn copy_provenance(p: &ChannelProvenance) -> (r: ChannelProvenance)
    ensures
        r == *p,
{
    match p {
        ChannelProvenance::BuiltIn => ChannelProvenance::BuiltIn,
        ChannelProvenance::ExternalRecipe { source } => ChannelProvenance::ExternalRecipe { source: source.clone() },
        ChannelProvenance::TaskDefault => ChannelProvenance::TaskDefault,
        ChannelProvenance::Species => ChannelProvenance::Species,
        ChannelProvenance::Site => ChannelProvenance::Site,
    }
}

/// A compiled record of `site` as an SCF channel, unchanged.
pub fn map_channel_recipe(site: &String, record: &ChannelRecipeRecord) -> (c: ScfChannelRecipe)
    ensures
        c == channel_of(*site, *record, record.identity),
{
    ScfChannelRecipe {
        site: site.clone(),
        identity: record.identity,
        treatment: record.treatment,
        derivative_order: record.derivative_order,
        generator: record.generator,
        seed: record.seed,
        provenance: copy_provenance(&record.provenance),
    }
}

/// The ordered map of first partners holds exactly what the sequence of
/// first partners records.
pub open spec fn partners_agree(m: Map<(u32, u32), (ChannelEnergyGenerator, Option<u64>)>, firsts: Seq<((u32, u32), (ChannelEnergyGenerator, Option<u64>))>) -> bool {
    forall|key: (u32, u32)| #[trigger] first_partner(firsts, key) == (if m.contains_key(key) { Some(m[key]) } else { None })
}

/// Map one site's compiled records to SCF channels, collapsing built-in
/// relativistic valence partners of one `(n, l)` onto a single scalar
/// channel. Partners must agree on generator and seed.
pub fn map_site_channels(task_id: &String, site: &CompiledSiteRecipe) -> (r: Result<Vec<ScfChannelRecipe>, InputError>)
    requires
        forall|i: int| 0 <= i < site.channels.len() ==> identity_ok(#[trigger] site.channels@[i].identity),
    ensures
        match spec_site_channels(*task_id, site.site, site.channels@) {
            Ok((out, _)) => r matches Ok(v) && v@ == out,
            Err(e) => r matches Err(e2) && e2 == e,
        },
{
    proof { lemma_u32_pair_keys_ordered(); }
    let mut channels: Vec<ScfChannelRecipe> = Vec::new();
    let mut collapsed: BTreeMap<(u32, u32), (ChannelEnergyGenerator, Option<u64>)> = BTreeMap::new();
    let ghost mut firsts: Seq<((u32, u32), (ChannelEnergyGenerator, Option<u64>))> = Seq::empty();
    let mut i: usize = 0;
    while i < site.channels.len()
        invariant
            i <= site.channels.len(),
            u32_pair_keys_ordered(),
            forall|j: int| 0 <= j < site.channels.len() ==> identity_ok(#[trigger] site.channels@[j].identity),
            spec_site_channels(*task_id, site.site, site.channels@.take(i as int)) == Ok::<_, InputError>((channels@, firsts)),
            partners_agree(collapsed@, firsts),
        decreases site.channels.len() - i,
    {
        let record = &site.channels[i];
        proof {
            assert(site.channels@.take(i as int + 1).drop_last() =~= site.channels@.take(i as int));
            assert(site.channels@.take(i as int + 1).last() == *record);
        }
        let collapse = match (&record.provenance, record.treatment, record.identity) {
            (ChannelProvenance::BuiltIn, ChannelTreatment::Valence, ChannelIdentity::Kappa { n, kappa }) => Some((n, kappa_l(kappa))),
            _ => None,
        };
        assert(collapse == collapse_key(*record));
        match collapse {
            None => {
                channels.push(map_channel_recipe(&site.site, record));
            },
            Some(key) => {
                let found = match collapsed.get(&key) {
                    Some(v) => Some(*v),
                    None => None,
                };
                assert(found == first_partner(firsts, key));
                match found {
                    Some(first) => {
                        if first.0 != record.generator || first.1 != record.seed {
                            let e = InputError::InconsistentBuiltInValencePartners {
                                task_id: task_id.clone(),
                                site: site.site.clone(),
                                n: key.0,
                                l: key.1,
                                first_generator: first.0,
                                first_seed: first.1,
                                conflicting_generator: record.generator,
                                conflicting_seed: record.seed,
                            };
                            proof { lemma_site_channels_err_sticky(*task_id, site.site, site.channels@, i as int + 1); }
                            return Err(e);
                        }
                    },
                    None => {
                        let value = (record.generator, record.seed);
                        let ghost old_firsts = firsts;
                        let ghost old_map = collapsed@;
                        collapsed.insert(key, value);
                        proof {
                            firsts = firsts.push((key, value));
                            assert(firsts.drop_last() =~= old_firsts);
                            assert forall|k2: (u32, u32)| #[trigger] first_partner(firsts, k2) == (if collapsed@.contains_key(k2) { Some(collapsed@[k2]) } else { None }) by {
                                assert(first_partner(old_firsts, k2) == (if old_map.contains_key(k2) { Some(old_map[k2]) } else { None }));
                            }
                        }
                        let mut channel = map_channel_recipe(&site.site, record);
                        channel.identity = ChannelIdentity::ScalarL { n: key.0, l: key.1 };
                        channels.push(channel);
                    },
                }
            },
        }
        i = i + 1;
    }
    assert(site.channels@.take(site.channels.len() as int) =~= site.channels@);
    Ok(channels)
}

/// Once the fold fails, every longer prefix fails with the same error.
proof fn lemma_site_channels_err_sticky(task_id: String, site: String, records: Seq<ChannelRecipeRecord>, k: int)
    requires
        0 <= k <= records.len(),
        spec_site_channels(task_id, site, records.take(k)) is Err,
    ensures
        spec_site_channels(task_id, site, records) == spec_site_channels(task_id, site, records.take(k)),
    decreases records.len() - k,
{
    if k < records.len() {
        assert(records.take(k + 1).drop_last() =~= records.take(k));
        lemma_site_channels_err_sticky(task_id, site, records, k + 1);
    } else {
        assert(records.take(k) =~= records);
    }
}

// ---------------------------------------------------------------------
// Base valence coverage.

/// Some valence channel has orbital angular momentum `l`.
pub open spec fn has_valence_l(chans: Seq<ScfChannelRecipe>, l: u32) -> bool {
    exists|i: int| 0 <= i < chans.len() && #[trigger] chans[i].treatment == ChannelTreatment::Valence && identity_l(chans[i].identity) == l
}

/// Some channel has quantum numbers `(n, l)`.
pub open spec fn nl_taken(chans: Seq<ScfChannelRecipe>, l: u32, n: int) -> bool {
    exists|i: int| 0 <= i < chans.len() && identity_l(#[trigger] chans[i].identity) == l && identity_n(chans[i].identity) == n
}

/// `n` is the first principal quantum number from `l + 1` on that no
/// channel of `l` uses.
pub open spec fn is_first_free_n(chans: Seq<ScfChannelRecipe>, l: u32, n: u32) -> bool {
    &&& n >= l + 1
    &&& !nl_taken(chans, l, n as int)
    &&& forall|m: int| l + 1 <= m < n ==> nl_taken(chans, l, m)
}

/// The first unused principal quantum number of `l`.
pub open spec fn first_free_n(chans: Seq<ScfChannelRecipe>, l: u32) -> u32 {
    choose|n: u32| is_first_free_n(chans, l, n)
}

/// The built-in base valence channel `(n, l)` of `site`.
pub open spec fn base_channel(site: String, l: u32, n: u32, generator: ChannelEnergyGenerator) -> ScfChannelRecipe {
    ScfChannelRecipe {
        site,
        identity: ChannelIdentity::ScalarL { n, l },
        treatment: ChannelTreatment::Valence,
        derivative_order: 0,
        generator,
        seed: None,
        provenance: ChannelProvenance::BuiltIn,
    }
}

/// Base valence channels added for `l = 0 .. upto - 1`: one for every `l`
/// without a valence channel, at its first unused `n`.
pub open spec fn base_channels(site: String, mapped: Seq<ScfChannelRecipe>, upto: int, generator: ChannelEnergyGenerator) -> Seq<ScfChannelRecipe>
    decreases upto,
{
    if upto <= 0 {
        Seq::empty()
    } else {
        let l = (upto - 1) as u32;
        let prev = base_channels(site, mapped, upto - 1, generator);
        if has_valence_l(mapped, l) {
            prev
        } else {
            prev.push(base_channel(site, l, first_free_n(mapped, l), generator))
        }
    }
}

/// The smallest `l <= l_max` without a valence channel, if any.
pub open spec fn first_missing_l(mapped: Seq<ScfChannelRecipe>, l_max: u32) -> Option<u32> {
    if exists|l: u32| l <= l_max && !has_valence_l(mapped, l) {
        Some(choose|l: u32| l <= l_max && !has_valence_l(mapped, l) && forall|k: u32| k < l ==> has_valence_l(mapped, k))
    } else {
        None
    }
}

/// The generator of injected base channels: the task's, else atomic.
pub open spec fn base_generator(task_generator: Option<ChannelEnergyGenerator>) -> ChannelEnergyGenerator {
    match task_generator {
        Some(g) => g,
        None => ChannelEnergyGenerator::Atomic,
    }
}

/// A site's channels with the base valence coverage completed, or the
/// rejection of an explicit-generator injection at the first `l` lacking a
/// valence channel.
pub open spec fn spec_site_coverage(
    task_id: String,
    site: String,
    mapped: Seq<ScfChannelRecipe>,
    l_max: u32,
    task_generator: Option<ChannelEnergyGenerator>,
) -> Result<Seq<ScfChannelRecipe>, InputError> {
    let generator = base_generator(task_generator);
    match first_missing_l(mapped, l_max) {
        Some(l) => if generator == ChannelEnergyGenerator::Explicit {
            Err(InputError::MissingExplicitBaseValenceSeed {
                task_id,
                site,
                identity: ChannelIdentity::ScalarL { n: first_free_n(mapped, l), l },
            })
        } else {
            Ok(mapped + base_channels(site, mapped, l_max + 1, generator))
        },
        None => Ok(mapped + base_channels(site, mapped, l_max + 1, generator)),
    }
}

/// All sites' channels in site order, or the first site's rejection.
pub open spec fn spec_basis_channels(
    task_id: String,
    l_max: u32,
    task_generator: Option<ChannelEnergyGenerator>,
    sites: Seq<CompiledSiteRecipe>,
) -> Result<Seq<ScfChannelRecipe>, InputError>
    decreases sites.len(),
{
    if sites.len() == 0 {
        Ok(Seq::empty())
    } else {
        match spec_basis_channels(task_id, l_max, task_generator, sites.drop_last()) {
            Err(e) => Err(e),
            Ok(prev) => {
                let site = sites.last();
                match spec_site_channels(task_id, site.site, site.channels@) {
                    Err(e) => Err(e),
                    Ok((mapped, _)) => match spec_site_coverage(task_id, site.site, mapped, l_max, task_generator) {
                        Err(e) => Err(e),
                        Ok(chans) => Ok(prev + chans),
                    },
                }
            },
        }
    }
}

/// Site records and task `l_max` small enough that every injected `n`
/// fits `u32`.
pub open spec fn recipe_fits(l_max: u32, recipe: CompiledChannelRecipe) -> bool {
    forall|s: int| 0 <= s < recipe.sites.len() ==> {
        &&& l_max as int + 1 + (#[trigger] recipe.sites@[s]).channels.len() <= u32::MAX
        &&& forall|i: int| 0 <= i < recipe.sites@[s].channels.len() ==> identity_ok(#[trigger] recipe.sites@[s].channels@[i].identity)
    }
}

/// Completing the base coverage leaves no `l` below `upto` without a
/// valence channel: the mapped channels plus the injected base channels
/// cover every `l` in `0 .. upto`, and the mapped channels keep their
/// positions in front.
pub proof fn lemma_base_coverage_complete(site: String, mapped: Seq<ScfChannelRecipe>, upto: int, generator: ChannelEnergyGenerator)
    requires
        0 <= upto <= u32::MAX + 1,
    ensures
        forall|l: u32| l < upto ==> #[trigger] has_valence_l(mapped + base_channels(site, mapped, upto, generator), l),
        forall|i: int| 0 <= i < mapped.len() ==> #[trigger] (mapped + base_channels(site, mapped, upto, generator))[i] == mapped[i],
    decreases upto,
{
    let all = mapped + base_channels(site, mapped, upto, generator);
    assert forall|i: int| 0 <= i < mapped.len() implies #[trigger] all[i] == mapped[i] by {}
    if upto > 0 {
        lemma_base_coverage_complete(site, mapped, upto - 1, generator);
        let prev = base_channels(site, mapped, upto - 1, generator);
        let before = mapped + prev;
        let top = (upto - 1) as u32;
        assert forall|l: u32| l < upto implies #[trigger] has_valence_l(all, l) by {
            if l < top {
                assert(has_valence_l(before, l));
                let i = choose|i: int| 0 <= i < before.len() && #[trigger] before[i].treatment == ChannelTreatment::Valence && identity_l(before[i].identity) == l;
                assert(all[i] == before[i]);
            } else if has_valence_l(mapped, l) {
                let i = choose|i: int| 0 <= i < mapped.len() && #[trigger] mapped[i].treatment == ChannelTreatment::Valence && identity_l(mapped[i].identity) == l;
                assert(all[i] == mapped[i]);
            } else {
                let last = all.len() - 1;
                assert(all[last] == base_channel(site, top, first_free_n(mapped, top), generator));
                assert(all[last].treatment == ChannelTreatment::Valence && identity_l(all[last].identity) == l);
            }
        }
    }
}

/// If every `n` in `a .. a + k` is used by a channel of `l`, there are at
/// least `k` channels.
proof fn lemma_taken_range_bound(chans: Seq<ScfChannelRecipe>, l: u32, a: int, k: int)
    requires
        k >= 0,
        forall|m: int| a <= m < a + k ==> nl_taken(chans, l, m),
    ensures
        k <= chans.len(),
{
    let img = chans.map_values(|c: ScfChannelRecipe| identity_n(c.identity) as int);
    let range = vstd::set_lib::set_int_range(a, a + k);
    assert forall|m: int| range.contains(m) implies img.to_set().contains(m) by {
        assert(nl_taken(chans, l, m));
        let i = choose|i: int| 0 <= i < chans.len() && identity_l(#[trigger] chans[i].identity) == l && identity_n(chans[i].identity) == m;
        assert(img[i] == m);
    }
    vstd::set_lib::lemma_int_range(a, a + k);
    vstd::seq_lib::seq_to_set_is_finite(img);
    vstd::set_lib::lemma_len_subset(range, img.to_set());
    img.lemma_cardinality_of_set();
}

/// Channels of other angular momenta do not change what is used for `l`.
proof fn lemma_extend_other_l(mapped: Seq<ScfChannelRecipe>, extra: Seq<ScfChannelRecipe>, l: u32)
    requires
        forall|i: int| 0 <= i < extra.len() ==> identity_l(#[trigger] extra[i].identity) != l,
    ensures
        has_valence_l(mapped + extra, l) == has_valence_l(mapped, l),
        forall|n: int| nl_taken(mapped + extra, l, n) == nl_taken(mapped, l, n),
{
    let all = mapped + extra;
    if has_valence_l(all, l) {
        let i = choose|i: int| 0 <= i < all.len() && #[trigger] all[i].treatment == ChannelTreatment::Valence && identity_l(all[i].identity) == l;
        if i >= mapped.len() {
            assert(extra[i - mapped.len()] == all[i]);
        }
        assert(mapped[i] == all[i]);
    }
    if has_valence_l(mapped, l) {
        let i = choose|i: int| 0 <= i < mapped.len() && #[trigger] mapped[i].treatment == ChannelTreatment::Valence && identity_l(mapped[i].identity) == l;
        assert(all[i] == mapped[i]);
    }
    assert forall|n: int| nl_taken(all, l, n) == nl_taken(mapped, l, n) by {
        if nl_taken(all, l, n) {
            let i = choose|i: int| 0 <= i < all.len() && identity_l(#[trigger] all[i].identity) == l && identity_n(all[i].identity) == n;
            if i >= mapped.len() {
                assert(extra[i - mapped.len()] == all[i]);
            }
            assert(mapped[i] == all[i]);
        }
        if nl_taken(mapped, l, n) {
            let i = choose|i: int| 0 <= i < mapped.len() && identity_l(#[trigger] mapped[i].identity) == l && identity_n(mapped[i].identity) == n;
            assert(all[i] == mapped[i]);
        }
    }
}

/// Base channels added below `upto` carry `l < upto`.
proof fn lemma_base_channels_below(site: String, mapped: Seq<ScfChannelRecipe>, upto: int, generator: ChannelEnergyGenerator)
    requires
        0 <= upto <= u32::MAX as int + 1,
    ensures
        forall|i: int| 0 <= i < base_channels(site, mapped, upto, generator).len() ==>
            identity_l(#[trigger] base_channels(site, mapped, upto, generator)[i].identity) < upto
            && base_channels(site, mapped, upto, generator)[i].identity is ScalarL,
    decreases upto,
{
    if upto > 0 {
        lemma_base_channels_below(site, mapped, upto - 1, generator);
    }
}

fn any_valence_l(chans: &Vec<ScfChannelRecipe>, l: u32) -> (r: bool)
    requires
        forall|i: int| 0 <= i < chans.len() ==> identity_ok(#[trigger] chans@[i].identity),
    ensures
        r == has_valence_l(chans@, l),
{
    let mut i: usize = 0;
    while i < chans.len()
        invariant
            i <= chans.len(),
            forall|j: int| 0 <= j < chans.len() ==> identity_ok(#[trigger] chans@[j].identity),
            forall|j: int| 0 <= j < i ==> !(#[trigger] chans@[j].treatment == ChannelTreatment::Valence && identity_l(chans@[j].identity) == l),
        decreases chans.len() - i,
    {
        if chans[i].treatment == ChannelTreatment::Valence && scf_channel_angular_momentum(chans[i].identity) == l {
            return true;
        }
        i = i + 1;
    }
    false
}

fn any_nl(chans: &Vec<ScfChannelRecipe>, l: u32, n: u32) -> (r: bool)
    requires
        forall|i: int| 0 <= i < chans.len() ==> identity_ok(#[trigger] chans@[i].identity),
    ensures
        r == nl_taken(chans@, l, n as int),
{
    let mut i: usize = 0;
    while i < chans.len()
        invariant
            i <= chans.len(),
            forall|j: int| 0 <= j < chans.len() ==> identity_ok(#[trigger] chans@[j].identity),
            forall|j: int| 0 <= j < i ==> !(identity_l(#[trigger] chans@[j].identity) == l && identity_n(chans@[j].identity) == n),
        decreases chans.len() - i,
    {
        if scf_channel_angular_momentum(chans[i].identity) == l && scf_channel_principal_quantum_number(chans[i].identity) == n {
            return true;
        }
        i = i + 1;
    }
    false
}

proof fn lemma_first_missing_is(m: Seq<ScfChannelRecipe>, l_max: u32, l: u32)
    requires
        l <= l_max,
        !has_valence_l(m, l),
        forall|k: u32| k < l ==> has_valence_l(m, k),
    ensures
        first_missing_l(m, l_max) == Some(l),
{
    assert(l <= l_max && !has_valence_l(m, l) && forall|k: u32| k < l ==> has_valence_l(m, k));
    let l0 = choose|l0: u32| l0 <= l_max && !has_valence_l(m, l0) && forall|k: u32| k < l0 ==> has_valence_l(m, k);
    if l0 < l {
        assert(has_valence_l(m, l0));
    } else if l0 > l {
        assert(has_valence_l(m, l));
    }
}

proof fn lemma_none_missing(m: Seq<ScfChannelRecipe>, l_max: u32)
    requires
        forall|k: u32| k <= l_max ==> has_valence_l(m, k),
    ensures
        first_missing_l(m, l_max) is None,
{
}

/// The first unused `n` of `l` among `m`, when some `n` below `bound` is unused.
fn next_free_n(site_channels: &Vec<ScfChannelRecipe>, m: Ghost<Seq<ScfChannelRecipe>>, l: u32) -> (n: u32)
    requires
        l as int + 1 + m@.len() <= u32::MAX,
        forall|i: int| 0 <= i < site_channels.len() ==> identity_ok(#[trigger] site_channels@[i].identity),
        forall|k: int| nl_taken(site_channels@, l, k) == nl_taken(m@, l, k),
    ensures
        is_first_free_n(m@, l, n),
        first_free_n(m@, l) == n,
{
    let mut n: u32 = l + 1;
    while any_nl(site_channels, l, n)
        invariant
            n >= l + 1,
            l as int + 1 + m@.len() <= u32::MAX,
            forall|i: int| 0 <= i < site_channels.len() ==> identity_ok(#[trigger] site_channels@[i].identity),
            forall|k: int| nl_taken(site_channels@, l, k) == nl_taken(m@, l, k),
            forall|k: int| l + 1 <= k < n ==> nl_taken(m@, l, k),
        decreases l as int + 1 + m@.len() - n,
    {
        proof {
            lemma_taken_range_bound(m@, l, l + 1, n - l);
        }
        n = n + 1;
    }
    proof {
        assert(is_first_free_n(m@, l, n));
        let c = choose|c: u32| is_first_free_n(m@, l, c);
        if c < n {
            assert(nl_taken(m@, l, c as int));
        } else if c > n {
            assert(nl_taken(m@, l, n as int));
        }
    }
    n
}

/// Complete one site's base valence coverage (see [`spec_site_coverage`]).
#[verifier::rlimit(40)]
#[verifier::spinoff_prover]
fn complete_site_coverage(
    task_id: &String,
    site: &String,
    mapped: Vec<ScfChannelRecipe>,
    l_max: u32,
    task_generator: Option<ChannelEnergyGenerator>,
) -> (r: Result<Vec<ScfChannelRecipe>, InputError>)
    requires
        forall|i: int| 0 <= i < mapped.len() ==> identity_ok(#[trigger] mapped@[i].identity),
        l_max as int + 1 + mapped.len() <= u32::MAX,
    ensures
        match spec_site_coverage(*task_id, *site, mapped@, l_max, task_generator) {
            Ok(chans) => r matches Ok(v) && v@ == chans,
            Err(e) => r matches Err(e2) && e2 == e,
        },
{
    let ghost m = mapped@;
    let generator = match task_generator {
        Some(g) => g,
        None => ChannelEnergyGenerator::Atomic,
    };
    let mut site_channels = mapped;
    let mut l: u32 = 0;
    while l <= l_max
        invariant
            l <= l_max as int + 1,
            m == mapped@,
            l_max as int + 1 + m.len() <= u32::MAX,
            generator == base_generator(task_generator),
            site_channels@ == m + base_channels(*site, m, l as int, generator),
            forall|i: int| 0 <= i < m.len() ==> identity_ok(#[trigger] m[i].identity),
            generator == ChannelEnergyGenerator::Explicit ==> forall|k: u32| k < l ==> has_valence_l(m, k),
        decreases l_max as int + 1 - l,
    {
        proof {
            lemma_base_channels_below(*site, m, l as int, generator);
            lemma_extend_other_l(m, base_channels(*site, m, l as int, generator), l);
            assert forall|i: int| 0 <= i < site_channels.len() implies identity_ok(#[trigger] site_channels@[i].identity) by {
                if i >= m.len() {
                    assert(site_channels@[i] == base_channels(*site, m, l as int, generator)[i - m.len()]);
                }
            }
        }
        if !any_valence_l(&site_channels, l) {
            let n = next_free_n(&site_channels, Ghost(m), l);
            if generator == ChannelEnergyGenerator::Explicit {
                proof { lemma_first_missing_is(m, l_max, l); }
                return Err(InputError::MissingExplicitBaseValenceSeed {
                    task_id: task_id.clone(),
                    site: site.clone(),
                    identity: ChannelIdentity::ScalarL { n, l },
                });
            }
            site_channels.push(ScfChannelRecipe {
                site: site.clone(),
                identity: ChannelIdentity::ScalarL { n, l },
                treatment: ChannelTreatment::Valence,
                derivative_order: 0,
                generator,
                seed: None,
                provenance: ChannelProvenance::BuiltIn,
            });
        }
        assert(site_channels@ =~= m + base_channels(*site, m, l as int + 1, generator));
        l = l + 1;
    }
    proof {
        if generator == ChannelEnergyGenerator::Explicit {
            lemma_none_missing(m, l_max);
        }
    }
    Ok(site_channels)
}

/// Map every site's compiled records to SCF channels and complete each
/// site's base valence coverage for `l = 0 ..= l_max`.
///
/// For every `l` without a valence channel, a built-in scalar valence
/// channel is appended at the first principal quantum number from `l + 1`
/// that no channel of `l` uses, with the task's generator (atomic when the
/// task names none). The explicit generator cannot be injected.
pub fn map_basis_channels(
    task_id: &String,
    l_max: u32,
    task_generator: Option<ChannelEnergyGenerator>,
    recipe: &CompiledChannelRecipe,
) -> (r: Result<Vec<ScfChannelRecipe>, InputError>)
    requires
        recipe_fits(l_max, *recipe),
    ensures
        match spec_basis_channels(*task_id, l_max, task_generator, recipe.sites@) {
            Ok(chans) => r matches Ok(v) && v@ == chans,
            Err(e) => r matches Err(e2) && e2 == e,
        },
{
    let mut channels: Vec<ScfChannelRecipe> = Vec::new();
    let mut s: usize = 0;
    while s < recipe.sites.len()
        invariant
            s <= recipe.sites.len(),
            recipe_fits(l_max, *recipe),
            spec_basis_channels(*task_id, l_max, task_generator, recipe.sites@.take(s as int)) == Ok::<_, InputError>(channels@),
        decreases recipe.sites.len() - s,
    {
        let site = &recipe.sites[s];
        proof {
            assert(recipe.sites@.take(s as int + 1).drop_last() =~= recipe.sites@.take(s as int));
            assert(recipe.sites@.take(s as int + 1).last() == *site);
            assert(l_max as int + 1 + site.channels.len() <= u32::MAX);
        }
        let mapped = match map_site_channels(task_id, site) {
            Ok(v) => v,
            Err(e) => {
                proof { lemma_basis_err_sticky(*task_id, l_max, task_generator, recipe.sites@, s as int + 1); }
                return Err(e);
            },
        };
        proof {
            lemma_site_channels_len(*task_id, site.site, site.channels@);
            lemma_site_channels_ok_identities(*task_id, site.site, site.channels@);
        }
        match complete_site_coverage(task_id, &site.site, mapped, l_max, task_generator) {
            Ok(mut site_channels) => {
                channels.append(&mut site_channels);
            },
            Err(e) => {
                proof { lemma_basis_err_sticky(*task_id, l_max, task_generator, recipe.sites@, s as int + 1); }
                return Err(e);
            },
        }
        s = s + 1;
    }
    assert(recipe.sites@.take(recipe.sites.len() as int) =~= recipe.sites@);
    Ok(channels)
}

proof fn lemma_basis_err_sticky(
    task_id: String,
    l_max: u32,
    task_generator: Option<ChannelEnergyGenerator>,
    sites: Seq<CompiledSiteRecipe>,
    k: int,
)
    requires
        0 <= k <= sites.len(),
        spec_basis_channels(task_id, l_max, task_generator, sites.take(k)) is Err,
    ensures
        spec_basis_channels(task_id, l_max, task_generator, sites) == spec_basis_channels(task_id, l_max, task_generator, sites.take(k)),
    decreases sites.len() - k,
{
    if k < sites.len() {
        assert(sites.take(k + 1).drop_last() =~= sites.take(k));
        lemma_basis_err_sticky(task_id, l_max, task_generator, sites, k + 1);
    } else {
        assert(sites.take(k) =~= sites);
    }
}

/// The collapsed channels of a site are no more than its records.
proof fn lemma_site_channels_len(task_id: String, site: String, records: Seq<ChannelRecipeRecord>)
    ensures
        spec_site_channels(task_id, site, records) matches Ok((out, _)) ==> out.len() <= records.len(),
    decreases records.len(),
{
    if records.len() > 0 {
        lemma_site_channels_len(task_id, site, records.drop_last());
    }
}

/// Collapsed channels keep usable identities.
proof fn lemma_site_channels_ok_identities(task_id: String, site: String, records: Seq<ChannelRecipeRecord>)
    requires
        forall|i: int| 0 <= i < records.len() ==> identity_ok(#[trigger] records[i].identity),
    ensures
        spec_site_channels(task_id, site, records) matches Ok((out, _)) ==>
            forall|i: int| 0 <= i < out.len() ==> identity_ok(#[trigger] out[i].identity),
    decreases records.len(),
{
    if records.len() > 0 {
        let prev = records.drop_last();
        assert(forall|i: int| 0 <= i < prev.len() ==> prev[i] == records[i]);
        lemma_site_channels_ok_identities(task_id, site, prev);
        assert(identity_ok(records[records.len() - 1].identity));
    }
}

// ---------------------------------------------------------------------
// Core states and derivative orders.

/// One orbital of a site's default atomic configuration, as `(n, kappa)`;
/// its occupation stays with the configuration and is referred to by index.
#[derive(Clone, Copy, Debug, PartialEq, Eq, Structural)]
pub struct ConfigurationOrbital {
    pub n: u32,
    pub kappa: i32,
}

/// One core state handed to the SCF driver: quantum numbers and the index
/// of its occupation in the site's atomic configuration.
#[derive(Clone, Copy, Debug, PartialEq, Eq, Structural)]
pub struct ScfCoreState {
    pub principal_quantum_number: u32,
    pub kappa: i32,
    pub occupation_index: usize,
}

/// The core states of one site.
#[derive(Debug)]
pub struct ScfCoreSite {
    pub id: String,
    pub states: Vec<ScfCoreState>,
}

/// A core record names a configuration orbital: the same `(n, kappa)`, or
/// the same `n` and orbital angular momentum for a scalar identity.
pub open spec fn names_orbital(identity: ChannelIdentity, orbital: ConfigurationOrbital) -> bool {
    match identity {
        ChannelIdentity::Kappa { n, kappa } => orbital.n == n && orbital.kappa == kappa,
        ChannelIdentity::ScalarL { n, l } => orbital.n == n && l_u32(orbital.kappa) == l,
    }
}

/// Add the state of configuration orbital `j` unless one with its
/// `(n, kappa)` is already present.
pub open spec fn add_state(states: Seq<ScfCoreState>, j: int, orbital: ConfigurationOrbital) -> Seq<ScfCoreState> {
    if exists|i: int| 0 <= i < states.len() && #[trigger] states[i].principal_quantum_number == orbital.n && states[i].kappa == orbital.kappa {
        states
    } else {
        states.push(ScfCoreState { principal_quantum_number: orbital.n, kappa: orbital.kappa, occupation_index: j as usize })
    }
}

/// States after visiting the first `upto` configuration orbitals for one
/// core record.
pub open spec fn add_named(states: Seq<ScfCoreState>, identity: ChannelIdentity, configuration: Seq<ConfigurationOrbital>, upto: int) -> Seq<ScfCoreState>
    decreases upto,
{
    if upto <= 0 {
        states
    } else {
        let prev = add_named(states, identity, configuration, upto - 1);
        if names_orbital(identity, configuration[upto - 1]) {
            add_state(prev, upto - 1, configuration[upto - 1])
        } else {
            prev
        }
    }
}

/// Core states of a site: for each core record in order, every
/// configuration orbital it names, in configuration order and without
/// repeating an `(n, kappa)`. A core record that names no orbital is
/// rejected (the first such record is reported).
pub open spec fn spec_core_states(records: Seq<ChannelRecipeRecord>, configuration: Seq<ConfigurationOrbital>) -> Result<Seq<ScfCoreState>, ChannelIdentity>
    decreases records.len(),
{
    if records.len() == 0 {
        Ok(Seq::empty())
    } else {
        match spec_core_states(records.drop_last(), configuration) {
            Err(identity) => Err(identity),
            Ok(states) => {
                let r = records.last();
                if r.treatment != ChannelTreatment::Core {
                    Ok(states)
                } else if exists|j: int| 0 <= j < configuration.len() && names_orbital(r.identity, #[trigger] configuration[j]) {
                    Ok(add_named(states, r.identity, configuration, configuration.len() as int))
                } else {
                    Err(r.identity)
                }
            },
        }
    }
}

fn names_orbital_exec(identity: ChannelIdentity, orbital: ConfigurationOrbital) -> (r: bool)
    requires
        orbital.kappa != i32::MIN,
    ensures
        r == names_orbital(identity, orbital),
{
    match identity {
        ChannelIdentity::Kappa { n, kappa } => orbital.n == n && orbital.kappa == kappa,
        ChannelIdentity::ScalarL { n, l } => orbital.n == n && kappa_l(orbital.kappa) == l,
    }
}

fn has_state(states: &Vec<ScfCoreState>, n: u32, kappa: i32) -> (r: bool)
    ensures
        r == exists|i: int| 0 <= i < states.len() && #[trigger] states@[i].principal_quantum_number == n && states@[i].kappa == kappa,
{
    let mut i: usize = 0;
    while i < states.len()
        invariant
            i <= states.len(),
            forall|k: int| 0 <= k < i ==> !(#[trigger] states@[k].principal_quantum_number == n && states@[k].kappa == kappa),
        decreases states.len() - i,
    {
        if states[i].principal_quantum_number == n && states[i].kappa == kappa {
            return true;
        }
        i = i + 1;
    }
    false
}

/// Select the core states of a site from its default atomic configuration.
///
/// Every core record must name at least one configuration orbital; each
/// named orbital contributes its `(n, kappa)` once, referring to its
/// occupation by configuration index.
pub fn map_core_site(
    task_id: &String,
    site: &CompiledSiteRecipe,
    configuration: &Vec<ConfigurationOrbital>,
) -> (r: Result<ScfCoreSite, InputError>)
    requires
        forall|j: int| 0 <= j < configuration.len() ==> (#[trigger] configuration@[j]).kappa != i32::MIN,
    ensures
        match spec_core_states(site.channels@, configuration@) {
            Ok(states) => r matches Ok(core) && core.id == site.site && core.states@ == states,
            Err(identity) => r matches Err(e) && e == (InputError::MissingCoreOccupation {
                task_id: *task_id,
                site: site.site,
                atomic_number: site.atomic_number,
                identity,
            }),
        },
{
    let mut states: Vec<ScfCoreState> = Vec::new();
    let mut i: usize = 0;
    while i < site.channels.len()
        invariant
            i <= site.channels.len(),
            forall|j: int| 0 <= j < configuration.len() ==> (#[trigger] configuration@[j]).kappa != i32::MIN,
            spec_core_states(site.channels@.take(i as int), configuration@) == Ok::<_, ChannelIdentity>(states@),
        decreases site.channels.len() - i,
    {
        let record = &site.channels[i];
        proof {
            assert(site.channels@.take(i as int + 1).drop_last() =~= site.channels@.take(i as int));
            assert(site.channels@.take(i as int + 1).last() == *record);
        }
        if record.treatment == ChannelTreatment::Core {
            let ghost before = states@;
            let mut matched = false;
            let mut j: usize = 0;
            while j < configuration.len()
                invariant
                    j <= configuration.len(),
                    forall|k: int| 0 <= k < configuration.len() ==> (#[trigger] configuration@[k]).kappa != i32::MIN,
                    states@ == add_named(before, record.identity, configuration@, j as int),
                    matched == exists|k: int| 0 <= k < j && names_orbital(record.identity, #[trigger] configuration@[k]),
                decreases configuration.len() - j,
            {
                let orbital = configuration[j];
                if names_orbital_exec(record.identity, orbital) {
                    matched = true;
                    if !has_state(&states, orbital.n, orbital.kappa) {
                        states.push(ScfCoreState { principal_quantum_number: orbital.n, kappa: orbital.kappa, occupation_index: j });
                    }
                }
                j = j + 1;
            }
            if !matched {
                proof { lemma_core_err_sticky(site.channels@, configuration@, i as int + 1); }
                return Err(InputError::MissingCoreOccupation {
                    task_id: task_id.clone(),
                    site: site.site.clone(),
                    atomic_number: site.atomic_number,
                    identity: record.identity,
                });
            }
        }
        i = i + 1;
    }
    assert(site.channels@.take(site.channels.len() as int) =~= site.channels@);
    Ok(ScfCoreSite { id: site.site.clone(), states })
}

proof fn lemma_core_err_sticky(records: Seq<ChannelRecipeRecord>, configuration: Seq<ConfigurationOrbital>, k: int)
    requires
        0 <= k <= records.len(),
        spec_core_states(records.take(k), configuration) is Err,
    ensures
        spec_core_states(records, configuration) == spec_core_states(records.take(k), configuration),
    decreases records.len() - k,
{
    if k < records.len() {
        assert(records.take(k + 1).drop_last() =~= records.take(k));
        lemma_core_err_sticky(records, configuration, k + 1);
    } else {
        assert(records.take(k) =~= records);
    }
}

/// The first channel, in site order and then record order, whose energy
/// derivative order is 3 or more: `(site index, record index)`.
pub open spec fn is_first_high_derivative(sites: Seq<CompiledSiteRecipe>, s: int, c: int) -> bool {
    &&& 0 <= s < sites.len()
    &&& 0 <= c < sites[s].channels.len()
    &&& sites[s].channels@[c].derivative_order >= 3
    &&& forall|c2: int| 0 <= c2 < c ==> (#[trigger] sites[s].channels@[c2]).derivative_order < 3
    &&& forall|s2: int, c2: int| 0 <= s2 < s && 0 <= c2 < sites[s2].channels.len() ==> (#[trigger] sites[s2].channels@[c2]).derivative_order < 3
}

/// Reject the first channel that asks for an energy derivative of order
/// three or more, which the SCF driver does not implement.
pub fn require_implemented_derivative_orders(task_id: &String, recipe: &CompiledChannelRecipe) -> (r: Result<(), InputError>)
    ensures
        r is Ok <==> forall|s: int, c: int| 0 <= s < recipe.sites.len() && 0 <= c < recipe.sites@[s].channels.len()
            ==> (#[trigger] recipe.sites@[s].channels@[c]).derivative_order < 3,
        r matches Err(e) ==> exists|s: int, c: int| is_first_high_derivative(recipe.sites@, s, c) && e == (InputError::DerivativeOrderNotImplemented {
            task_id: *task_id,
            site: recipe.sites@[s].site,
            identity: recipe.sites@[s].channels@[c].identity,
            derivative_order: recipe.sites@[s].channels@[c].derivative_order,
        }),
{
    let mut s: usize = 0;
    while s < recipe.sites.len()
        invariant
            s <= recipe.sites.len(),
            forall|s2: int, c2: int| 0 <= s2 < s && 0 <= c2 < recipe.sites@[s2].channels.len() ==> (#[trigger] recipe.sites@[s2].channels@[c2]).derivative_order < 3,
        decreases recipe.sites.len() - s,
    {
        let site = &recipe.sites[s];
        let mut c: usize = 0;
        while c < site.channels.len()
            invariant
                c <= site.channels.len(),
                s < recipe.sites.len(),
                *site == recipe.sites@[s as int],
                forall|c2: int| 0 <= c2 < c ==> (#[trigger] site.channels@[c2]).derivative_order < 3,
                forall|s2: int, c2: int| 0 <= s2 < s && 0 <= c2 < recipe.sites@[s2].channels.len() ==> (#[trigger] recipe.sites@[s2].channels@[c2]).derivative_order < 3,
            decreases site.channels.len() - c,
        {
            let channel = &site.channels[c];
            if channel.derivative_order >= 3 {
                assert(is_first_high_derivative(recipe.sites@, s as int, c as int));
                return Err(InputError::DerivativeOrderNotImplemented {
                    task_id: task_id.clone(),
                    site: site.site.clone(),
                    identity: channel.identity,
                    derivative_order: channel.derivative_order,
                });
            }
            c = c + 1;
        }
        s = s + 1;
    }
    Ok(())
}

} // verus!
