//! Local-orbital requests of the relativistic routes: the Dirac partners a
//! snapshot's `l`-resolved local orbitals seed, overridden per signed
//! `kappa` by the task's explicit local orbitals, and the basis's bound
//! relativistic local orbitals resolved to their solved energies.
//!
//! Energies are carried, never inspected: `E` is whatever the caller uses.
use vstd::prelude::*;
use std::collections::BTreeMap;
use crate::ordered_keys::{u32_keys_ordered, lemma_u32_keys_ordered};

verus! {

broadcast use vstd::std_specs::btree::group_btree_axioms;

/// Kind of an explicit local orbital of the task basis.
#[derive(Clone, Copy, Debug, PartialEq, Eq, Structural)]
pub enum ScfLocalOrbitalKind {
    Lo,
    Hdlo,
}

/// One explicit local orbital of the task basis.
#[derive(Clone, Debug, PartialEq)]
pub struct ScfLocalOrbital<E> {
    pub site: String,
    pub kappa: i32,
    pub energy: E,
    pub kind: ScfLocalOrbitalKind,
}

/// One bound relativistic local orbital `(site, n, kappa)` of the basis,
/// whose energy is solved per site before the basis is materialized.
#[derive(Clone, Debug, PartialEq, Eq)]
pub struct ScfRelativisticLocalOrbital {
    pub site: String,
    pub principal_quantum_number: u32,
    pub kappa: i32,
}

/// One local-orbital request of a spinor site.
#[derive(Clone, Copy, Debug, PartialEq)]
pub enum SpinorLocalOrbitalRequest<E> {
    Lo { kappa: i32, energy: E },
    Hdlo { kappa: i32 },
}

/// Rejections while building a spinor site's local-orbital requests.
#[derive(Clone, Copy, Debug, PartialEq, Eq, Structural)]
pub enum LocalOrbitalRequestError {
    /// A snapshot local orbital's `l` has no signed-32-bit Dirac partner.
    AngularMomentumOverflow { l: u32 },
    /// An explicit local orbital of the site names no Dirac `kappa`.
    Kappa { kappa: i32 },
}

/// Key `(site, n, kappa)` of a solved relativistic local-orbital energy.
#[derive(Clone, Debug, PartialEq, Eq)]
pub struct LoEnergyKey {
    pub site: String,
    pub n: u32,
    pub kappa: i32,
}

/// A bound relativistic local orbital has no solved energy.
#[derive(Clone, Debug, PartialEq, Eq)]
pub struct MissingRelativisticLocalOrbitalEnergy {
    pub site: String,
    pub principal_quantum_number: u32,
    pub kappa: i32,
}

// ---------------------------------------------------------------------
// Specification: spinor site requests.

/// The signed `kappa` of a request.
pub open spec fn request_kappa<E>(r: SpinorLocalOrbitalRequest<E>) -> i32 {
    match r {
        SpinorLocalOrbitalRequest::Lo { kappa, .. } => kappa,
        SpinorLocalOrbitalRequest::Hdlo { kappa } => kappa,
    }
}

/// Both Dirac partners of a snapshot local orbital of `l`: `kappa = -(l+1)`,
/// then `kappa = l` when `l > 0`, with the snapshot energy.
pub open spec fn partner_requests<E>(l: u32, energy: E) -> Seq<SpinorLocalOrbitalRequest<E>> {
    if l == 0 {
        seq![SpinorLocalOrbitalRequest::Lo { kappa: -1i32, energy }]
    } else {
        seq![
            SpinorLocalOrbitalRequest::Lo { kappa: (-(l + 1)) as i32, energy },
            SpinorLocalOrbitalRequest::Lo { kappa: l as i32, energy },
        ]
    }
}

/// Requests seeded by the first `upto` snapshot local orbitals.
pub open spec fn inherited_requests<E>(snapshot: Seq<(u32, E)>, upto: int) -> Seq<SpinorLocalOrbitalRequest<E>>
    decreases upto,
{
    if upto <= 0 {
        Seq::empty()
    } else {
        inherited_requests(snapshot, upto - 1) + partner_requests(snapshot[upto - 1].0, snapshot[upto - 1].1)
    }
}

/// The task explicitly controls the signed `kappa` channel on `site`.
pub open spec fn explicit_kappa<E>(site: String, orbitals: Seq<ScfLocalOrbital<E>>, kappa: i32) -> bool {
    exists|i: int| 0 <= i < orbitals.len() && (#[trigger] orbitals[i]).site@ == site@ && orbitals[i].kappa == kappa
}

/// The first `upto` inherited requests that the task does not override.
pub open spec fn kept_inherited<E>(site: String, orbitals: Seq<ScfLocalOrbital<E>>, inherited: Seq<SpinorLocalOrbitalRequest<E>>, upto: int) -> Seq<SpinorLocalOrbitalRequest<E>>
    decreases upto,
{
    if upto <= 0 {
        Seq::empty()
    } else if explicit_kappa(site, orbitals, request_kappa(inherited[upto - 1])) {
        kept_inherited(site, orbitals, inherited, upto - 1)
    } else {
        kept_inherited(site, orbitals, inherited, upto - 1).push(inherited[upto - 1])
    }
}

/// The request of an explicit local orbital.
pub open spec fn explicit_request<E>(o: ScfLocalOrbital<E>) -> SpinorLocalOrbitalRequest<E> {
    match o.kind {
        ScfLocalOrbitalKind::Lo => SpinorLocalOrbitalRequest::Lo { kappa: o.kappa, energy: o.energy },
        ScfLocalOrbitalKind::Hdlo => SpinorLocalOrbitalRequest::Hdlo { kappa: o.kappa },
    }
}

/// Requests of the first `upto` explicit local orbitals that are on `site`.
pub open spec fn explicit_requests<E>(site: String, orbitals: Seq<ScfLocalOrbital<E>>, upto: int) -> Seq<SpinorLocalOrbitalRequest<E>>
    decreases upto,
{
    if upto <= 0 {
        Seq::empty()
    } else if orbitals[upto - 1].site@ == site@ {
        explicit_requests(site, orbitals, upto - 1).push(explicit_request(orbitals[upto - 1]))
    } else {
        explicit_requests(site, orbitals, upto - 1)
    }
}

/// `i` is the first snapshot local orbital whose `l` has no partner.
pub open spec fn first_overflow<E>(snapshot: Seq<(u32, E)>, i: int) -> bool {
    &&& 0 <= i < snapshot.len()
    &&& snapshot[i].0 >= i32::MAX
    &&& forall|j: int| 0 <= j < i ==> (#[trigger] snapshot[j]).0 < i32::MAX
}

/// `i` is the first explicit local orbital of `site` whose `kappa` is not
/// a Dirac channel.
pub open spec fn first_bad_kappa<E>(site: String, orbitals: Seq<ScfLocalOrbital<E>>, kappa_ok: Seq<bool>, i: int) -> bool {
    &&& 0 <= i < orbitals.len()
    &&& orbitals[i].site@ == site@
    &&& !kappa_ok[i]
    &&& forall|j: int| 0 <= j < i ==> (#[trigger] orbitals[j]).site@ == site@ ==> kappa_ok[j]
}

// ---------------------------------------------------------------------
// Specification: bound relativistic local orbitals.

/// A bound relativistic local orbital of the basis replaces `(site, kappa)`.
pub open spec fn replaced<E>(requests: Seq<ScfRelativisticLocalOrbital>, o: ScfLocalOrbital<E>) -> bool {
    exists|r: int| 0 <= r < requests.len() && (#[trigger] requests[r]).site@ == o.site@ && requests[r].kappa == o.kappa
}

/// The first `upto` explicit local orbitals that no bound relativistic
/// local orbital replaces.
pub open spec fn retained<E>(orbitals: Seq<ScfLocalOrbital<E>>, requests: Seq<ScfRelativisticLocalOrbital>, upto: int) -> Seq<ScfLocalOrbital<E>>
    decreases upto,
{
    if upto <= 0 {
        Seq::empty()
    } else if replaced(requests, orbitals[upto - 1]) {
        retained(orbitals, requests, upto - 1)
    } else {
        retained(orbitals, requests, upto - 1).push(orbitals[upto - 1])
    }
}

/// The solved-energy entry `j` has the key of `request`.
pub open spec fn key_matches<E>(energies: Seq<(LoEnergyKey, E)>, j: int, request: ScfRelativisticLocalOrbital) -> bool {
    &&& energies[j].0.site@ == request.site@
    &&& energies[j].0.n == request.principal_quantum_number
    &&& energies[j].0.kappa == request.kappa
}

/// Solved energies form a map: no key twice.
pub open spec fn keys_distinct<E>(energies: Seq<(LoEnergyKey, E)>) -> bool {
    forall|i: int, j: int| 0 <= i < j < energies.len() ==> {
        ||| (#[trigger] energies[i]).0.site@ != (#[trigger] energies[j]).0.site@
        ||| energies[i].0.n != energies[j].0.n
        ||| energies[i].0.kappa != energies[j].0.kappa
    }
}

/// The request has a solved energy.
pub open spec fn has_energy<E>(energies: Seq<(LoEnergyKey, E)>, request: ScfRelativisticLocalOrbital) -> bool {
    exists|j: int| 0 <= j < energies.len() && #[trigger] key_matches(energies, j, request)
}

/// The solved energy of a request that has one.
pub open spec fn energy_of<E>(energies: Seq<(LoEnergyKey, E)>, request: ScfRelativisticLocalOrbital) -> E {
    energies[choose|j: int| 0 <= j < energies.len() && #[trigger] key_matches(energies, j, request)].1
}

/// The local orbital a bound relativistic local orbital resolves to.
pub open spec fn resolved_orbital<E>(energies: Seq<(LoEnergyKey, E)>, request: ScfRelativisticLocalOrbital) -> ScfLocalOrbital<E> {
    ScfLocalOrbital { site: request.site, kappa: request.kappa, energy: energy_of(energies, request), kind: ScfLocalOrbitalKind::Lo }
}

/// `r` is the first bound relativistic local orbital without an energy.
pub open spec fn first_missing<E>(energies: Seq<(LoEnergyKey, E)>, requests: Seq<ScfRelativisticLocalOrbital>, r: int) -> bool {
    &&& 0 <= r < requests.len()
    &&& !has_energy(energies, requests[r])
    &&& forall|r2: int| 0 <= r2 < r ==> #[trigger] has_energy(energies, requests[r2])
}

// ---------------------------------------------------------------------
// Implementation.

/// Whether the up and down snapshot local orbitals of a site name the same
/// `l` channels in the same order.
pub fn same_lo_channels(up: &Vec<u32>, down: &Vec<u32>) -> (r: bool)
    ensures
        r <==> up@ == down@,
{
    if up.len() != down.len() {
        return false;
    }
    let mut i: usize = 0;
    while i < up.len()
        invariant
            i <= up.len() == down.len(),
            forall|j: int| 0 <= j < i ==> up@[j] == down@[j],
        decreases up.len() - i,
    {
        if up[i] != down[i] {
            return false;
        }
        i = i + 1;
    }
    assert(up@ =~= down@);
    true
}

/// Whether the task has an explicit local orbital on `site` with `kappa`.
fn explicitly_controlled<E>(site: &String, orbitals: &Vec<ScfLocalOrbital<E>>, kappa: i32) -> (b: bool)
    ensures
        b == explicit_kappa(*site, orbitals@, kappa),
{
    let mut i: usize = 0;
    while i < orbitals.len()
        invariant
            i <= orbitals.len(),
            forall|j: int| 0 <= j < i ==> !((#[trigger] orbitals@[j]).site@ == site@ && orbitals@[j].kappa == kappa),
        decreases orbitals.len() - i,
    {
        if orbitals[i].site == *site && orbitals[i].kappa == kappa {
            return true;
        }
        i = i + 1;
    }
    false
}

/// Local-orbital requests of a spinor site: each snapshot local orbital
/// `(l, energy)` seeds both Dirac partners of `l` (see `partner_requests`);
/// every signed `kappa` that the task controls explicitly on this site
/// drops all of its seeded requests; then the task's explicit local
/// orbitals of the site follow in order. `kappa_ok[i]` says whether the
/// `kappa` of explicit local orbital `i` names a Dirac channel.
pub fn spinor_local_orbital_requests<E: Copy>(
    site: &String,
    snapshot: &Vec<(u32, E)>,
    orbitals: &Vec<ScfLocalOrbital<E>>,
    kappa_ok: &Vec<bool>,
) -> (r: Result<Vec<SpinorLocalOrbitalRequest<E>>, LocalOrbitalRequestError>)
    requires
        kappa_ok.len() == orbitals.len(),
    ensures
        match r {
            Err(LocalOrbitalRequestError::AngularMomentumOverflow { l }) => exists|i: int| #[trigger] first_overflow(snapshot@, i) && snapshot@[i].0 == l,
            Err(LocalOrbitalRequestError::Kappa { kappa }) => {
                &&& forall|i: int| 0 <= i < snapshot.len() ==> (#[trigger] snapshot@[i]).0 < i32::MAX
                &&& exists|i: int| #[trigger] first_bad_kappa(*site, orbitals@, kappa_ok@, i) && orbitals@[i].kappa == kappa
            },
            Ok(requests) => {
                &&& forall|i: int| 0 <= i < snapshot.len() ==> (#[trigger] snapshot@[i]).0 < i32::MAX
                &&& forall|i: int| 0 <= i < orbitals.len() ==> (#[trigger] orbitals@[i]).site@ == site@ ==> kappa_ok@[i]
                &&& requests@ == kept_inherited(*site, orbitals@, inherited_requests(snapshot@, snapshot.len() as int), inherited_requests(snapshot@, snapshot.len() as int).len() as int)
                    + explicit_requests(*site, orbitals@, orbitals.len() as int)
            },
        },
        (exists|i: int| #[trigger] first_overflow(snapshot@, i)) ==> r matches Err(LocalOrbitalRequestError::AngularMomentumOverflow { .. }),
{
    let mut inherited: Vec<SpinorLocalOrbitalRequest<E>> = Vec::new();
    let mut i: usize = 0;
    while i < snapshot.len()
        invariant
            i <= snapshot.len(),
            forall|j: int| 0 <= j < i ==> (#[trigger] snapshot@[j]).0 < i32::MAX,
            inherited@ == inherited_requests(snapshot@, i as int),
        decreases snapshot.len() - i,
    {
        let (l, energy) = snapshot[i];
        if l >= 0x7fff_ffff {
            proof {
                assert(first_overflow(snapshot@, i as int));
                assert forall|i2: int| #[trigger] first_overflow(snapshot@, i2) implies i2 == i by {
                    if i2 < i {
                        assert(snapshot@[i2].0 < i32::MAX);
                    } else if i2 > i {
                        assert(snapshot@[i as int].0 < i32::MAX);
                    }
                }
            }
            return Err(LocalOrbitalRequestError::AngularMomentumOverflow { l });
        }
        let li = l as i32;
        let ghost before = inherited@;
        inherited.push(SpinorLocalOrbitalRequest::Lo { kappa: -(li + 1), energy });
        if li != 0 {
            inherited.push(SpinorLocalOrbitalRequest::Lo { kappa: li, energy });
        }
        proof {
            assert(inherited@ =~= before + partner_requests(l, energy));
        }
        i = i + 1;
    }
    let mut k: usize = 0;
    while k < orbitals.len()
        invariant
            k <= orbitals.len() == kappa_ok.len(),
            forall|j: int| 0 <= j < i ==> (#[trigger] snapshot@[j]).0 < i32::MAX,
            i == snapshot.len(),
            forall|j: int| 0 <= j < k ==> (#[trigger] orbitals@[j]).site@ == site@ ==> kappa_ok@[j],
        decreases orbitals.len() - k,
    {
        if orbitals[k].site == *site && !kappa_ok[k] {
            proof {
                assert(first_bad_kappa(*site, orbitals@, kappa_ok@, k as int));
            }
            return Err(LocalOrbitalRequestError::Kappa { kappa: orbitals[k].kappa });
        }
        k = k + 1;
    }
    let mut requests: Vec<SpinorLocalOrbitalRequest<E>> = Vec::new();
    let ghost all = inherited@;
    let mut t: usize = 0;
    while t < inherited.len()
        invariant
            t <= inherited.len(),
            all == inherited@,
            requests@ == kept_inherited(*site, orbitals@, all, t as int),
        decreases inherited.len() - t,
    {
        let request = inherited[t];
        let kappa = match request {
            SpinorLocalOrbitalRequest::Lo { kappa, .. } => kappa,
            SpinorLocalOrbitalRequest::Hdlo { kappa } => kappa,
        };
        if !explicitly_controlled(site, orbitals, kappa) {
            requests.push(request);
        }
        t = t + 1;
    }
    let ghost kept = requests@;
    let mut o: usize = 0;
    while o < orbitals.len()
        invariant
            o <= orbitals.len(),
            requests@ == kept + explicit_requests(*site, orbitals@, o as int),
        decreases orbitals.len() - o,
    {
        if orbitals[o].site == *site {
            let request = match orbitals[o].kind {
                ScfLocalOrbitalKind::Lo => SpinorLocalOrbitalRequest::Lo { kappa: orbitals[o].kappa, energy: orbitals[o].energy },
                ScfLocalOrbitalKind::Hdlo => SpinorLocalOrbitalRequest::Hdlo { kappa: orbitals[o].kappa },
            };
            requests.push(request);
            proof {
                assert(kept + explicit_requests(*site, orbitals@, o as int + 1)
                    =~= (kept + explicit_requests(*site, orbitals@, o as int)).push(request));
            }
        }
        o = o + 1;
    }
    Ok(requests)
}

/// Whether a bound relativistic local orbital replaces `(site, kappa)`.
fn is_replaced<E>(requests: &Vec<ScfRelativisticLocalOrbital>, orbital: &ScfLocalOrbital<E>) -> (b: bool)
    ensures
        b == replaced(requests@, *orbital),
{
    let mut r: usize = 0;
    while r < requests.len()
        invariant
            r <= requests.len(),
            forall|r2: int| 0 <= r2 < r ==> !((#[trigger] requests@[r2]).site@ == orbital.site@ && requests@[r2].kappa == orbital.kappa),
        decreases requests.len() - r,
    {
        if requests[r].site == orbital.site && requests[r].kappa == orbital.kappa {
            return true;
        }
        r = r + 1;
    }
    false
}

/// The solved energy of a bound relativistic local orbital, if any.
fn find_energy<E: Copy>(energies: &Vec<(LoEnergyKey, E)>, request: &ScfRelativisticLocalOrbital) -> (r: Option<E>)
    requires
        keys_distinct(energies@),
    ensures
        match r {
            Some(e) => has_energy(energies@, *request) && e == energy_of(energies@, *request),
            None => !has_energy(energies@, *request),
        },
{
    let mut j: usize = 0;
    while j < energies.len()
        invariant
            j <= energies.len(),
            keys_distinct(energies@),
            forall|j2: int| 0 <= j2 < j ==> !#[trigger] key_matches(energies@, j2, *request),
        decreases energies.len() - j,
    {
        let key = &energies[j].0;
        if key.site == request.site && key.n == request.principal_quantum_number && key.kappa == request.kappa {
            proof {
                assert(key_matches(energies@, j as int, *request));
                let c = choose|c: int| 0 <= c < energies.len() && #[trigger] key_matches(energies@, c, *request);
                if c < j {
                    assert(!key_matches(energies@, c, *request));
                } else if c > j {
                    let a = energies@[j as int];
                    let b = energies@[c];
                    assert(a.0.site@ != b.0.site@ || a.0.n != b.0.n || a.0.kappa != b.0.kappa);
                }
                assert(c == j);
                assert(energy_of(energies@, *request) == energies@[j as int].1);
            }
            let energy = energies[j].1;
            return Some(energy);
        }
        j = j + 1;
    }
    None
}

/// The basis's explicit local orbitals with every bound relativistic local
/// orbital resolved: explicit local orbitals whose `(site, kappa)` some
/// bound one replaces are dropped, then each bound one follows, in order,
/// as an `Lo` with its solved energy. The first bound one without a solved
/// energy is reported.
pub fn basis_with_relativistic_local_orbital_energies<E: Copy>(
    orbitals: &Vec<ScfLocalOrbital<E>>,
    requests: &Vec<ScfRelativisticLocalOrbital>,
    energies: &Vec<(LoEnergyKey, E)>,
) -> (r: Result<Vec<ScfLocalOrbital<E>>, MissingRelativisticLocalOrbitalEnergy>)
    requires
        keys_distinct(energies@),
    ensures
        match r {
            Err(missing) => exists|i: int| #[trigger] first_missing(energies@, requests@, i) && missing == (MissingRelativisticLocalOrbitalEnergy {
                site: requests@[i].site,
                principal_quantum_number: requests@[i].principal_quantum_number,
                kappa: requests@[i].kappa,
            }),
            Ok(resolved) => {
                &&& forall|i: int| 0 <= i < requests.len() ==> #[trigger] has_energy(energies@, requests@[i])
                &&& resolved.len() == retained(orbitals@, requests@, orbitals.len() as int).len() + requests.len()
                &&& forall|i: int| 0 <= i < retained(orbitals@, requests@, orbitals.len() as int).len()
                    ==> #[trigger] resolved@[i] == retained(orbitals@, requests@, orbitals.len() as int)[i]
                &&& forall|i: int| 0 <= i < requests.len()
                    ==> #[trigger] resolved@[retained(orbitals@, requests@, orbitals.len() as int).len() + i] == resolved_orbital(energies@, requests@[i])
            },
        },
{
    let mut resolved: Vec<ScfLocalOrbital<E>> = Vec::new();
    let mut i: usize = 0;
    while i < orbitals.len()
        invariant
            i <= orbitals.len(),
            resolved@ == retained(orbitals@, requests@, i as int),
        decreases orbitals.len() - i,
    {
        if !is_replaced(requests, &orbitals[i]) {
            let o = &orbitals[i];
            let copy = ScfLocalOrbital { site: o.site.clone(), kappa: o.kappa, energy: o.energy, kind: o.kind };
            proof {
                assert(copy == orbitals@[i as int]);
            }
            resolved.push(copy);
        }
        i = i + 1;
    }
    let ghost kept = resolved@;
    let mut r: usize = 0;
    while r < requests.len()
        invariant
            r <= requests.len(),
            keys_distinct(energies@),
            kept == retained(orbitals@, requests@, orbitals.len() as int),
            resolved.len() == kept.len() + r,
            forall|x: int| 0 <= x < kept.len() ==> #[trigger] resolved@[x] == kept[x],
            forall|r2: int| 0 <= r2 < r ==> #[trigger] has_energy(energies@, requests@[r2]),
            forall|r2: int| 0 <= r2 < r ==> #[trigger] resolved@[kept.len() + r2] == resolved_orbital(energies@, requests@[r2]),
        decreases requests.len() - r,
    {
        let request = &requests[r];
        match find_energy(energies, request) {
            None => {
                proof {
                    assert(first_missing(energies@, requests@, r as int));
                }
                return Err(MissingRelativisticLocalOrbitalEnergy {
                    site: request.site.clone(),
                    principal_quantum_number: request.principal_quantum_number,
                    kappa: request.kappa,
                });
            },
            Some(energy) => {
                let entry = ScfLocalOrbital { site: request.site.clone(), kappa: request.kappa, energy, kind: ScfLocalOrbitalKind::Lo };
                let ghost before = resolved@;
                resolved.push(entry);
                proof {
                    assert(entry == resolved_orbital(energies@, requests@[r as int]));
                    assert forall|x: int| 0 <= x < kept.len() implies #[trigger] resolved@[x] == kept[x] by {
                        assert(resolved@[x] == before[x]);
                    }
                    assert forall|r2: int| 0 <= r2 < r + 1 implies #[trigger] resolved@[kept.len() + r2] == resolved_orbital(energies@, requests@[r2]) by {
                        if r2 < r {
                            assert(resolved@[kept.len() + r2] == before[kept.len() + r2]);
                        }
                    }
                }
            },
        }
        r = r + 1;
    }
    Ok(resolved)
}

/// One local-orbital request of a scalar site.
#[derive(Clone, Copy, Debug, PartialEq)]
pub enum ScalarLocalOrbitalRequest<E> {
    Lo { l: u32, energy: E },
    Hdlo { l: u32 },
}

/// Large-component orbital angular momentum of a nonzero `kappa`.
pub open spec fn large_l(kappa: i32) -> u32 {
    if kappa > 0 {
        kappa as u32
    } else {
        (-(kappa as int) - 1) as u32
    }
}

/// The scalar request of an explicit local orbital.
pub open spec fn scalar_explicit_request<E>(o: ScfLocalOrbital<E>) -> ScalarLocalOrbitalRequest<E> {
    match o.kind {
        ScfLocalOrbitalKind::Lo => ScalarLocalOrbitalRequest::Lo { l: large_l(o.kappa), energy: o.energy },
        ScfLocalOrbitalKind::Hdlo => ScalarLocalOrbitalRequest::Hdlo { l: large_l(o.kappa) },
    }
}

/// Scalar requests of the first `upto` explicit local orbitals on `site`.
pub open spec fn scalar_explicit_requests<E>(site: String, orbitals: Seq<ScfLocalOrbital<E>>, upto: int) -> Seq<ScalarLocalOrbitalRequest<E>>
    decreases upto,
{
    if upto <= 0 {
        Seq::empty()
    } else if orbitals[upto - 1].site@ == site@ {
        scalar_explicit_requests(site, orbitals, upto - 1).push(scalar_explicit_request(orbitals[upto - 1]))
    } else {
        scalar_explicit_requests(site, orbitals, upto - 1)
    }
}

/// Local-orbital requests of one spin of a scalar site: the snapshot's
/// `(l, energy)` local orbitals, then the task's explicit local orbitals
/// of the site with `l` the large-component `l` of their `kappa`.
/// `kappa_ok[i]` says whether explicit local orbital `i` names a Dirac
/// channel; the first of the site's that does not is reported.
pub fn scalar_local_orbital_requests<E: Copy>(
    site: &String,
    snapshot: &Vec<(u32, E)>,
    orbitals: &Vec<ScfLocalOrbital<E>>,
    kappa_ok: &Vec<bool>,
) -> (r: Result<Vec<ScalarLocalOrbitalRequest<E>>, LocalOrbitalRequestError>)
    requires
        kappa_ok.len() == orbitals.len(),
        forall|i: int| 0 <= i < orbitals.len() ==> (#[trigger] orbitals@[i]).kappa != i32::MIN,
    ensures
        match r {
            Err(LocalOrbitalRequestError::Kappa { kappa }) => exists|i: int| #[trigger] first_bad_kappa(*site, orbitals@, kappa_ok@, i) && orbitals@[i].kappa == kappa,
            Err(LocalOrbitalRequestError::AngularMomentumOverflow { .. }) => false,
            Ok(requests) => {
                &&& forall|i: int| 0 <= i < orbitals.len() ==> (#[trigger] orbitals@[i]).site@ == site@ ==> kappa_ok@[i]
                &&& requests.len() == snapshot.len() + scalar_explicit_requests(*site, orbitals@, orbitals.len() as int).len()
                &&& forall|i: int| 0 <= i < snapshot.len() ==> #[trigger] requests@[i] == (ScalarLocalOrbitalRequest::Lo { l: snapshot@[i].0, energy: snapshot@[i].1 })
                &&& forall|i: int| 0 <= i < scalar_explicit_requests(*site, orbitals@, orbitals.len() as int).len()
                    ==> #[trigger] requests@[snapshot.len() + i] == scalar_explicit_requests(*site, orbitals@, orbitals.len() as int)[i]
            },
        },
{
    let mut k: usize = 0;
    while k < orbitals.len()
        invariant
            k <= orbitals.len() == kappa_ok.len(),
            forall|j: int| 0 <= j < k ==> (#[trigger] orbitals@[j]).site@ == site@ ==> kappa_ok@[j],
        decreases orbitals.len() - k,
    {
        if orbitals[k].site == *site && !kappa_ok[k] {
            proof {
                assert(first_bad_kappa(*site, orbitals@, kappa_ok@, k as int));
            }
            return Err(LocalOrbitalRequestError::Kappa { kappa: orbitals[k].kappa });
        }
        k = k + 1;
    }
    let mut requests: Vec<ScalarLocalOrbitalRequest<E>> = Vec::new();
    let mut i: usize = 0;
    while i < snapshot.len()
        invariant
            i <= snapshot.len(),
            requests.len() == i,
            forall|j: int| 0 <= j < i ==> #[trigger] requests@[j] == (ScalarLocalOrbitalRequest::Lo { l: snapshot@[j].0, energy: snapshot@[j].1 }),
        decreases snapshot.len() - i,
    {
        let (l, energy) = snapshot[i];
        requests.push(ScalarLocalOrbitalRequest::Lo { l, energy });
        i = i + 1;
    }
    let ghost base = requests@;
    let mut o: usize = 0;
    while o < orbitals.len()
        invariant
            o <= orbitals.len(),
            forall|j: int| 0 <= j < orbitals.len() ==> (#[trigger] orbitals@[j]).kappa != i32::MIN,
            base.len() == snapshot.len(),
            requests@ == base + scalar_explicit_requests(*site, orbitals@, o as int),
        decreases orbitals.len() - o,
    {
        if orbitals[o].site == *site {
            let kappa = orbitals[o].kappa;
            let l: u32 = if kappa > 0 { kappa as u32 } else { (-(kappa + 1)) as u32 };
            let request = match orbitals[o].kind {
                ScfLocalOrbitalKind::Lo => ScalarLocalOrbitalRequest::Lo { l, energy: orbitals[o].energy },
                ScfLocalOrbitalKind::Hdlo => ScalarLocalOrbitalRequest::Hdlo { l },
            };
            proof {
                assert(l == large_l(kappa));
                assert(request == scalar_explicit_request(orbitals@[o as int]));
            }
            requests.push(request);
            proof {
                assert(base + scalar_explicit_requests(*site, orbitals@, o as int + 1)
                    =~= (base + scalar_explicit_requests(*site, orbitals@, o as int)).push(request));
            }
        }
        o = o + 1;
    }
    Ok(requests)
}

/// The energy of `l` in a table keyed by `l`, if it has one.
fn lookup_l<E: Copy>(table: &BTreeMap<u32, E>, l: u32) -> (r: Option<E>)
    requires
        u32_keys_ordered(),
    ensures
        match r {
            Some(e) => table@.contains_key(l) && e == table@[l],
            None => !table@.contains_key(l),
        },
{
    match table.get(&l) {
        Some(e) => Some(*e),
        None => None,
    }
}

/// Linearization energies of one spin for every `l` in `0..=l_max`, or
/// the first `l` without one.
pub fn linearization_energies<E: Copy>(l_max: u32, table: &BTreeMap<u32, E>) -> (r: Result<Vec<E>, u32>)
    ensures
        match r {
            Err(l) => l <= l_max && !table@.contains_key(l) && forall|l2: u32| l2 < l ==> #[trigger] table@.contains_key(l2),
            Ok(energies) => {
                &&& energies.len() == l_max + 1
                &&& forall|l: u32| l <= l_max ==> #[trigger] table@.contains_key(l) && energies@[l as int] == table@[l]
            },
        },
{
    proof { lemma_u32_keys_ordered(); }
    let mut energies: Vec<E> = Vec::new();
    let mut l: u32 = 0;
    loop
        invariant
            l <= l_max,
            u32_keys_ordered(),
            energies.len() == l,
            forall|l2: u32| l2 < l ==> #[trigger] table@.contains_key(l2) && energies@[l2 as int] == table@[l2],
        decreases l_max - l,
    {
        match lookup_l(table, l) {
            None => {
                return Err(l);
            },
            Some(energy) => {
                energies.push(energy);
            },
        }
        if l == l_max {
            return Ok(energies);
        }
        l = l + 1;
    }
}

/// No linearization energy for `l` on spin `spin` (0 up, 1 down).
#[derive(Clone, Copy, Debug, PartialEq, Eq, Structural)]
pub struct MissingLinearizationEnergy {
    pub l: u32,
    pub spin: u8,
}

/// `missing` is the first gap of the up and down tables over `0..=l_max`,
/// up before down at each `l`.
pub open spec fn first_missing_pair<E>(up: Map<u32, E>, down: Map<u32, E>, l_max: u32, missing: MissingLinearizationEnergy) -> bool {
    &&& missing.l <= l_max
    &&& forall|l2: u32| l2 < missing.l ==> #[trigger] up.contains_key(l2) && down.contains_key(l2)
    &&& if missing.spin == 0 {
        !up.contains_key(missing.l)
    } else {
        missing.spin == 1 && up.contains_key(missing.l) && !down.contains_key(missing.l)
    }
}

/// Up and down linearization energies for every `l` in `0..=l_max`, or
/// the first missing `(l, spin)`, up before down at each `l`.
pub fn paired_linearization_energies<E: Copy>(l_max: u32, up: &BTreeMap<u32, E>, down: &BTreeMap<u32, E>) -> (r: Result<Vec<(E, E)>, MissingLinearizationEnergy>)
    ensures
        match r {
            Err(missing) => first_missing_pair(up@, down@, l_max, missing),
            Ok(energies) => {
                &&& energies.len() == l_max + 1
                &&& forall|l: u32| l <= l_max ==> #[trigger] up@.contains_key(l) && down@.contains_key(l)
                    && energies@[l as int] == (up@[l], down@[l])
            },
        },
{
    proof { lemma_u32_keys_ordered(); }
    let mut energies: Vec<(E, E)> = Vec::new();
    let mut l: u32 = 0;
    loop
        invariant
            l <= l_max,
            u32_keys_ordered(),
            energies.len() == l,
            forall|l2: u32| l2 < l ==> #[trigger] up@.contains_key(l2) && down@.contains_key(l2)
                && energies@[l2 as int] == (up@[l2], down@[l2]),
        decreases l_max - l,
    {
        let u = match lookup_l(up, l) {
            None => {
                return Err(MissingLinearizationEnergy { l, spin: 0 });
            },
            Some(e) => e,
        };
        let d = match lookup_l(down, l) {
            None => {
                let missing = MissingLinearizationEnergy { l, spin: 1 };
                proof {
                    assert(first_missing_pair(up@, down@, l_max, missing));
                }
                return Err(missing);
            },
            Some(e) => e,
        };
        energies.push((u, d));
        if l == l_max {
            return Ok(energies);
        }
        l = l + 1;
    }
}

} // verus!
