//! Admission of caller-owned core sidecars at the spinor product boundary
//! and the canonical flat core table `site -> n -> kappa -> 2mu`.
use vstd::prelude::*;
use crate::kappa::{valid_kappa, spec_degeneracy, spec_twice_mu_at, degeneracy, twice_mu_values};
use crate::site_coords::ProductOrbitalKind;
use crate::spinor_layout::DiracRadialId;

verus! {

/// One core shell of a sidecar as the admission reads it: quantum numbers,
/// the verdicts of its radial-length and norm/spill checks, and, for
/// mu-resolved occupations, each `(2mu, occupation is in [0, 1])` in the
/// sidecar's order (`None` for explicit collinear occupations).
#[derive(Debug)]
pub struct CoreShellShape {
    pub n: u32,
    pub kappa: i32,
    pub lengths_ok: bool,
    pub diagnostics_ok: bool,
    pub mu_resolved: Option<Vec<(i64, bool)>>,
}

/// One core sidecar: its site, whether its extended mesh extends the
/// site's muffin-tin mesh exactly, and its shells.
#[derive(Debug)]
pub struct CoreSidecarShape {
    pub site_index: usize,
    pub mesh_prefix_ok: bool,
    pub shells: Vec<CoreShellShape>,
}

/// Core-sidecar rejection at the spinor product boundary.
#[derive(Clone, Copy, Debug, PartialEq, Eq, Structural)]
pub enum SpinorCoreInputError {
    SiteIndex { site: usize, site_count: usize },
    DuplicateSite(usize),
    MeshPrefix { site: usize },
    RadialLength { site: usize, n: u32, kappa: i32 },
    RadialDiagnostics { site: usize, n: u32, kappa: i32 },
    DuplicateShell { site: usize, n: u32, kappa: i32 },
    ExplicitCollinear { site: usize, n: u32, kappa: i32 },
    MagneticChannels { site: usize, n: u32, kappa: i32 },
    /// The occupation at `occupation_index` of the shell's list (channel
    /// `2mu`) is not finite or not in `[0, 1]`.
    Occupation { site: usize, n: u32, kappa: i32, twice_mu: i64, occupation_index: usize },
}

/// An admitted shell: its key and where it sits in the sidecar input.
#[derive(Clone, Copy, Debug, PartialEq, Eq, Structural)]
pub struct CoreShellRef {
    pub site: usize,
    pub n: u32,
    pub kappa: i32,
    pub sidecar: usize,
    pub shell: usize,
}

/// One core spin orbital of the flat table.
#[derive(Clone, Copy, Debug, PartialEq, Eq, Structural)]
pub struct CoreOrbitalSlot {
    pub site_index: usize,
    pub n: u32,
    pub kappa: i32,
    pub twice_mu: i64,
    pub radial: DiracRadialId,
    pub sidecar: usize,
    pub shell: usize,
    pub occupation_index: usize,
}

/// The admitted shells in canonical order and their flat spin orbitals.
#[derive(Debug)]
pub struct CoreTable {
    pub shells: Vec<CoreShellRef>,
    pub orbitals: Vec<CoreOrbitalSlot>,
}

// ---------------------------------------------------------------------
// Specification.

/// The occupation list names the magnetic channel `2mu` `twice_mu`.
pub open spec fn names_channel(occ: Seq<(i64, bool)>, twice_mu: int) -> bool {
    exists|j: int| 0 <= j < occ.len() && (#[trigger] occ[j]).0 == twice_mu
}

/// `j` is the first position of channel `twice_mu` in the occupation list.
pub open spec fn is_first_index(occ: Seq<(i64, bool)>, twice_mu: int, j: int) -> bool {
    &&& 0 <= j < occ.len()
    &&& occ[j].0 == twice_mu
    &&& forall|j2: int| 0 <= j2 < j ==> (#[trigger] occ[j2]).0 != twice_mu
}

/// The occupation list holds one entry per magnetic channel of `kappa` and
/// names every channel. The channels being distinct and as many as the
/// entries, each of them then appears exactly once.
pub open spec fn channels_exact(kappa: i32, occ: Seq<(i64, bool)>) -> bool {
    &&& occ.len() == spec_degeneracy(kappa as int)
    &&& forall|i: int| 0 <= i < spec_degeneracy(kappa as int)
        ==> #[trigger] names_channel(occ, spec_twice_mu_at(kappa as int, i))
}

/// Position in the occupation list of channel `2mu` `twice_mu`.
pub open spec fn occupation_index_of(occ: Seq<(i64, bool)>, twice_mu: int) -> int {
    choose|j: int| is_first_index(occ, twice_mu, j)
}

/// The occupation of the `i`-th ascending channel of `kappa` is in range.
pub open spec fn channel_ok(kappa: i32, occ: Seq<(i64, bool)>, i: int) -> bool {
    occ[occupation_index_of(occ, spec_twice_mu_at(kappa as int, i))].1
}

/// `i` is the first channel (ascending `2mu`) whose occupation is out of range.
pub open spec fn first_bad_channel(kappa: i32, occ: Seq<(i64, bool)>, i: int) -> bool {
    &&& 0 <= i < spec_degeneracy(kappa as int)
    &&& !channel_ok(kappa, occ, i)
    &&& forall|i2: int| 0 <= i2 < i ==> #[trigger] channel_ok(kappa, occ, i2)
}

/// An earlier admitted shell has the key `(site, n, kappa)`.
pub open spec fn key_seen(refs: Seq<CoreShellRef>, site: usize, n: u32, kappa: i32) -> bool {
    exists|k: int| 0 <= k < refs.len() && (#[trigger] refs[k]).site == site && refs[k].n == n && refs[k].kappa == kappa
}

/// The first failing check of one shell of `site`, if any.
pub open spec fn shell_error(site: usize, shell: CoreShellShape, refs: Seq<CoreShellRef>) -> Option<SpinorCoreInputError> {
    let (n, kappa) = (shell.n, shell.kappa);
    if !shell.lengths_ok {
        Some(SpinorCoreInputError::RadialLength { site, n, kappa })
    } else if !shell.diagnostics_ok {
        Some(SpinorCoreInputError::RadialDiagnostics { site, n, kappa })
    } else if key_seen(refs, site, n, kappa) {
        Some(SpinorCoreInputError::DuplicateShell { site, n, kappa })
    } else {
        match shell.mu_resolved {
            None => Some(SpinorCoreInputError::ExplicitCollinear { site, n, kappa }),
            Some(occ) => if !channels_exact(kappa, occ@) {
                Some(SpinorCoreInputError::MagneticChannels { site, n, kappa })
            } else if exists|i: int| #[trigger] first_bad_channel(kappa, occ@, i) {
                let i = choose|i: int| #[trigger] first_bad_channel(kappa, occ@, i);
                Some(SpinorCoreInputError::Occupation {
                    site,
                    n,
                    kappa,
                    twice_mu: spec_twice_mu_at(kappa as int, i) as i64,
                    occupation_index: occupation_index_of(occ@, spec_twice_mu_at(kappa as int, i)) as usize,
                })
            } else {
                None
            },
        }
    }
}

/// Admitted shells after the first `upto` shells of one sidecar.
pub open spec fn scan_shells(refs: Seq<CoreShellRef>, site: usize, shells: Seq<CoreShellShape>, sidecar: int, upto: int) -> Result<Seq<CoreShellRef>, SpinorCoreInputError>
    decreases upto,
{
    if upto <= 0 {
        Ok(refs)
    } else {
        match scan_shells(refs, site, shells, sidecar, upto - 1) {
            Err(e) => Err(e),
            Ok(prev) => {
                let shell = shells[upto - 1];
                match shell_error(site, shell, prev) {
                    Some(e) => Err(e),
                    None => Ok(prev.push(CoreShellRef { site, n: shell.n, kappa: shell.kappa, sidecar: sidecar as usize, shell: (upto - 1) as usize })),
                }
            },
        }
    }
}

/// Admitted shells of the first `upto` sidecars in input order, or the
/// first rejection.
pub open spec fn scan_sidecars_upto(site_count: usize, sidecars: Seq<CoreSidecarShape>, upto: int) -> Result<Seq<CoreShellRef>, SpinorCoreInputError>
    decreases upto,
{
    if upto <= 0 {
        Ok(Seq::empty())
    } else {
        match scan_sidecars_upto(site_count, sidecars, upto - 1) {
            Err(e) => Err(e),
            Ok(refs) => {
                let sc = sidecars[upto - 1];
                let site = sc.site_index;
                if site >= site_count {
                    Err(SpinorCoreInputError::SiteIndex { site, site_count })
                } else if exists|k: int| 0 <= k < upto - 1 && (#[trigger] sidecars[k]).site_index == site {
                    Err(SpinorCoreInputError::DuplicateSite(site))
                } else if !sc.mesh_prefix_ok {
                    Err(SpinorCoreInputError::MeshPrefix { site })
                } else {
                    scan_shells(refs, site, sc.shells@, upto - 1, sc.shells.len() as int)
                }
            },
        }
    }
}

/// Admitted shells of all sidecars in input order, or the first rejection.
pub open spec fn scan_sidecars(site_count: usize, sidecars: Seq<CoreSidecarShape>) -> Result<Seq<CoreShellRef>, SpinorCoreInputError> {
    scan_sidecars_upto(site_count, sidecars, sidecars.len() as int)
}

/// Canonical shell order: by site, then `n`, then `kappa`.
pub open spec fn key_lt(a: CoreShellRef, b: CoreShellRef) -> bool {
    ||| a.site < b.site
    ||| a.site == b.site && a.n < b.n
    ||| a.site == b.site && a.n == b.n && a.kappa < b.kappa
}

/// Strictly increasing in canonical order.
pub open spec fn sorted_refs(s: Seq<CoreShellRef>) -> bool {
    forall|i: int, j: int| 0 <= i < j < s.len() ==> key_lt(#[trigger] s[i], #[trigger] s[j])
}

/// The flat spin orbitals of one admitted shell, in ascending `2mu`.
pub open spec fn shell_slots(r: CoreShellRef, sidecars: Seq<CoreSidecarShape>) -> Seq<CoreOrbitalSlot> {
    let occ = sidecars[r.sidecar as int].shells@[r.shell as int].mu_resolved->0@;
    Seq::new(spec_degeneracy(r.kappa as int) as nat, |i: int| CoreOrbitalSlot {
        site_index: r.site,
        n: r.n,
        kappa: r.kappa,
        twice_mu: spec_twice_mu_at(r.kappa as int, i) as i64,
        radial: DiracRadialId { site: r.site, kind: ProductOrbitalKind::Core, kappa: r.kappa, n: r.n as usize },
        sidecar: r.sidecar,
        shell: r.shell,
        occupation_index: occupation_index_of(occ, spec_twice_mu_at(r.kappa as int, i)) as usize,
    })
}

/// Flat table of the first `upto` shells in the given order.
pub open spec fn flat_upto(s: Seq<CoreShellRef>, sidecars: Seq<CoreSidecarShape>, upto: int) -> Seq<CoreOrbitalSlot>
    decreases upto,
{
    if upto <= 0 {
        Seq::empty()
    } else {
        flat_upto(s, sidecars, upto - 1) + shell_slots(s[upto - 1], sidecars)
    }
}

/// All shells carry usable `kappa`.
pub open spec fn sidecars_valid(sidecars: Seq<CoreSidecarShape>) -> bool {
    forall|s: int, k: int| 0 <= s < sidecars.len() && 0 <= k < sidecars[s].shells.len() ==> valid_kappa(#[trigger] sidecars[s].shells@[k].kappa)
}

/// Two admitted shells share the key `(site, n, kappa)`.
pub open spec fn same_key(a: CoreShellRef, b: CoreShellRef) -> bool {
    a.site == b.site && a.n == b.n && a.kappa == b.kappa
}

/// No two admitted shells share a key.
pub open spec fn distinct_keys(s: Seq<CoreShellRef>) -> bool {
    forall|i: int, j: int| 0 <= i < j < s.len() ==> !same_key(#[trigger] s[i], #[trigger] s[j])
}

/// An admitted shell points at a mu-resolved sidecar shell of its site with
/// its quantum numbers and an exact channel list.
pub open spec fn ref_admitted(r: CoreShellRef, sidecars: Seq<CoreSidecarShape>) -> bool {
    &&& r.sidecar < sidecars.len()
    &&& r.shell < sidecars[r.sidecar as int].shells.len()
    &&& sidecars[r.sidecar as int].site_index == r.site
    &&& sidecars[r.sidecar as int].shells@[r.shell as int].n == r.n
    &&& sidecars[r.sidecar as int].shells@[r.shell as int].kappa == r.kappa
    &&& sidecars[r.sidecar as int].shells@[r.shell as int].mu_resolved is Some
    &&& channels_exact(r.kappa, sidecars[r.sidecar as int].shells@[r.shell as int].mu_resolved->0@)
}

// ---------------------------------------------------------------------
// Proof.

/// The first position of a channel is the one `occupation_index_of` names.
proof fn lemma_first_index_is_chosen(occ: Seq<(i64, bool)>, twice_mu: int, j: int)
    requires
        is_first_index(occ, twice_mu, j),
    ensures
        occupation_index_of(occ, twice_mu) == j,
{
    let c = occupation_index_of(occ, twice_mu);
    assert(is_first_index(occ, twice_mu, c));
    if c < j {
        assert(occ[c].0 != twice_mu);
    } else if j < c {
        assert(occ[j].0 != twice_mu);
    }
}

/// At most one channel is the first bad one.
proof fn lemma_first_bad_unique(kappa: i32, occ: Seq<(i64, bool)>, i: int)
    requires
        first_bad_channel(kappa, occ, i),
    ensures
        (choose|i2: int| #[trigger] first_bad_channel(kappa, occ, i2)) == i,
{
    let c = choose|i2: int| #[trigger] first_bad_channel(kappa, occ, i2);
    assert(first_bad_channel(kappa, occ, c));
    if c < i {
        assert(channel_ok(kappa, occ, c));
    } else if i < c {
        assert(channel_ok(kappa, occ, i));
    }
}

/// Canonical order of flat core orbitals: site, then `n`, then `kappa`,
/// then `2mu`.
pub open spec fn slot_lt(a: CoreOrbitalSlot, b: CoreOrbitalSlot) -> bool {
    ||| a.site_index < b.site_index
    ||| a.site_index == b.site_index && a.n < b.n
    ||| a.site_index == b.site_index && a.n == b.n && a.kappa < b.kappa
    ||| a.site_index == b.site_index && a.n == b.n && a.kappa == b.kappa && a.twice_mu < b.twice_mu
}

/// The orbital's shell key is at most the shell's key.
pub open spec fn slot_key_le(a: CoreOrbitalSlot, r: CoreShellRef) -> bool {
    ||| a.site_index < r.site
    ||| a.site_index == r.site && a.n < r.n
    ||| a.site_index == r.site && a.n == r.n && a.kappa <= r.kappa
}

/// A flat table strictly increasing in canonical order, each orbital
/// carrying the core radial identity `(site, Core, kappa, n)` of its shell.
pub open spec fn canonical_core_orbitals(orbitals: Seq<CoreOrbitalSlot>) -> bool {
    &&& forall|i: int, j: int| 0 <= i < j < orbitals.len() ==> slot_lt(#[trigger] orbitals[i], #[trigger] orbitals[j])
    &&& forall|i: int| 0 <= i < orbitals.len() ==> (#[trigger] orbitals[i]).radial == (DiracRadialId {
        site: orbitals[i].site_index,
        kind: ProductOrbitalKind::Core,
        kappa: orbitals[i].kappa,
        n: orbitals[i].n as usize,
    })
}

/// The flat core table of shells in canonical order is itself canonical:
/// strictly increasing in `site -> n -> kappa -> 2mu`, and every orbital's
/// radial is the `mu`-degenerate core radial `(site, Core, kappa, n)` of
/// its shell.
pub proof fn lemma_flat_table_canonical(shells: Seq<CoreShellRef>, sidecars: Seq<CoreSidecarShape>, upto: int)
    requires
        0 <= upto <= shells.len(),
        sorted_refs(shells),
        forall|k: int| 0 <= k < shells.len() ==> valid_kappa(#[trigger] shells[k].kappa),
    ensures
        canonical_core_orbitals(flat_upto(shells, sidecars, upto)),
        upto > 0 ==> forall|x: int| 0 <= x < flat_upto(shells, sidecars, upto).len()
            ==> slot_key_le(#[trigger] flat_upto(shells, sidecars, upto)[x], shells[upto - 1]),
    decreases upto,
{
    if upto > 0 {
        lemma_flat_table_canonical(shells, sidecars, upto - 1);
        let prev = flat_upto(shells, sidecars, upto - 1);
        let r = shells[upto - 1];
        let block = shell_slots(r, sidecars);
        let all = flat_upto(shells, sidecars, upto);
        assert(all == prev + block);
        assert(valid_kappa(r.kappa));
        assert forall|i: int, j: int| 0 <= i < j < all.len() implies slot_lt(#[trigger] all[i], #[trigger] all[j]) by {
            if j < prev.len() {
                assert(all[i] == prev[i] && all[j] == prev[j]);
            } else if i < prev.len() {
                assert(all[i] == prev[i]);
                assert(all[j] == block[j - prev.len()]);
                assert(slot_key_le(prev[i], shells[upto - 2]));
                assert(key_lt(shells[upto - 2], r));
            } else {
                assert(all[i] == block[i - prev.len()] && all[j] == block[j - prev.len()]);
            }
        }
        assert forall|x: int| 0 <= x < all.len() implies slot_key_le(#[trigger] all[x], r) by {
            if x < prev.len() {
                assert(all[x] == prev[x]);
                assert(slot_key_le(prev[x], shells[upto - 2]));
                assert(key_lt(shells[upto - 2], r));
            } else {
                assert(all[x] == block[x - prev.len()]);
            }
        }
        assert forall|i: int| 0 <= i < all.len() implies (#[trigger] all[i]).radial == (DiracRadialId {
            site: all[i].site_index,
            kind: ProductOrbitalKind::Core,
            kappa: all[i].kappa,
            n: all[i].n as usize,
        }) by {
            if i < prev.len() {
                assert(all[i] == prev[i]);
            } else {
                assert(all[i] == block[i - prev.len()]);
            }
        }
    }
}

// ---------------------------------------------------------------------
// Implementation.

/// First position of channel `twice_mu` in an occupation list.
fn channel_position(occ: &Vec<(i64, bool)>, twice_mu: i64) -> (r: Option<usize>)
    ensures
        match r {
            Some(j) => is_first_index(occ@, twice_mu as int, j as int),
            None => !names_channel(occ@, twice_mu as int),
        },
{
    let mut j: usize = 0;
    while j < occ.len()
        invariant
            j <= occ.len(),
            forall|j2: int| 0 <= j2 < j ==> (#[trigger] occ@[j2]).0 != twice_mu,
        decreases occ.len() - j,
    {
        if occ[j].0 == twice_mu {
            return Some(j);
        }
        j = j + 1;
    }
    None
}

/// Whether an earlier admitted shell has the key `(site, n, kappa)`.
fn key_already_admitted(refs: &Vec<CoreShellRef>, site: usize, n: u32, kappa: i32) -> (b: bool)
    ensures
        b == key_seen(refs@, site, n, kappa),
{
    let mut k: usize = 0;
    while k < refs.len()
        invariant
            k <= refs.len(),
            forall|k2: int| 0 <= k2 < k ==> !((#[trigger] refs@[k2]).site == site && refs@[k2].n == n && refs@[k2].kappa == kappa),
        decreases refs.len() - k,
    {
        if refs[k].site == site && refs[k].n == n && refs[k].kappa == kappa {
            return true;
        }
        k = k + 1;
    }
    false
}

/// The first failing check of one shell of `site`, if any.
fn check_shell(site: usize, shell: &CoreShellShape, refs: &Vec<CoreShellRef>) -> (r: Option<SpinorCoreInputError>)
    requires
        valid_kappa(shell.kappa),
    ensures
        r == shell_error(site, *shell, refs@),
{
    let n = shell.n;
    let kappa = shell.kappa;
    if !shell.lengths_ok {
        return Some(SpinorCoreInputError::RadialLength { site, n, kappa });
    }
    if !shell.diagnostics_ok {
        return Some(SpinorCoreInputError::RadialDiagnostics { site, n, kappa });
    }
    if key_already_admitted(refs, site, n, kappa) {
        return Some(SpinorCoreInputError::DuplicateShell { site, n, kappa });
    }
    match &shell.mu_resolved {
        None => Some(SpinorCoreInputError::ExplicitCollinear { site, n, kappa }),
        Some(occ) => {
            let deg = degeneracy(kappa) as usize;
            if occ.len() != deg {
                return Some(SpinorCoreInputError::MagneticChannels { site, n, kappa });
            }
            let channels = twice_mu_values(kappa);
            let mut positions: Vec<usize> = Vec::new();
            let mut i: usize = 0;
            while i < deg
                invariant
                    i <= deg,
                    deg == spec_degeneracy(kappa as int),
                    occ@.len() == deg,
                    channels.len() == deg,
                    forall|k: int| 0 <= k < deg ==> #[trigger] channels@[k] == spec_twice_mu_at(kappa as int, k),
                    n == shell.n,
                    kappa == shell.kappa,
                    shell.lengths_ok && shell.diagnostics_ok,
                    !key_seen(refs@, site, n, kappa),
                    shell.mu_resolved == Some(*occ),
                    positions.len() == i,
                    forall|k: int| 0 <= k < i ==> names_channel(occ@, #[trigger] spec_twice_mu_at(kappa as int, k)),
                    forall|k: int| 0 <= k < i ==> occupation_index_of(occ@, spec_twice_mu_at(kappa as int, k)) == #[trigger] positions@[k],
                    forall|k: int| 0 <= k < i ==> 0 <= #[trigger] positions@[k] < deg,
                decreases deg - i,
            {
                match channel_position(occ, channels[i]) {
                    None => {
                        proof {
                            assert(!names_channel(occ@, spec_twice_mu_at(kappa as int, i as int)));
                            assert(!channels_exact(kappa, occ@));
                        }
                        return Some(SpinorCoreInputError::MagneticChannels { site, n, kappa });
                    },
                    Some(j) => {
                        proof {
                            lemma_first_index_is_chosen(occ@, spec_twice_mu_at(kappa as int, i as int), j as int);
                            assert(occ@[j as int].0 == spec_twice_mu_at(kappa as int, i as int));
                        }
                        positions.push(j);
                    },
                }
                i = i + 1;
            }
            assert(channels_exact(kappa, occ@));
            let mut i: usize = 0;
            while i < deg
                invariant
                    i <= deg,
                    deg == spec_degeneracy(kappa as int),
                    occ@.len() == deg,
                    channels.len() == deg,
                    forall|k: int| 0 <= k < deg ==> #[trigger] channels@[k] == spec_twice_mu_at(kappa as int, k),
                    n == shell.n,
                    kappa == shell.kappa,
                    shell.lengths_ok && shell.diagnostics_ok,
                    !key_seen(refs@, site, n, kappa),
                    shell.mu_resolved == Some(*occ),
                    channels_exact(kappa, occ@),
                    positions.len() == deg,
                    forall|k: int| 0 <= k < deg ==> occupation_index_of(occ@, spec_twice_mu_at(kappa as int, k)) == #[trigger] positions@[k],
                    forall|k: int| 0 <= k < deg ==> 0 <= #[trigger] positions@[k] < deg,
                    forall|k: int| 0 <= k < i ==> #[trigger] channel_ok(kappa, occ@, k),
                decreases deg - i,
            {
                let p = positions[i];
                if !occ[p].1 {
                    proof {
                        assert(positions@[i as int] == p);
                        assert(!channel_ok(kappa, occ@, i as int));
                        assert(first_bad_channel(kappa, occ@, i as int));
                        lemma_first_bad_unique(kappa, occ@, i as int);
                    }
                    return Some(SpinorCoreInputError::Occupation {
                        site,
                        n,
                        kappa,
                        twice_mu: channels[i],
                        occupation_index: p,
                    });
                }
                proof {
                    assert(positions@[i as int] == p);
                }
                i = i + 1;
            }
            proof {
                assert forall|i2: int| !first_bad_channel(kappa, occ@, i2) by {
                    if 0 <= i2 < deg {
                        assert(channel_ok(kappa, occ@, i2));
                    }
                }
            }
            None
        },
    }
}

/// Once a rejection occurs among a sidecar's shells it is the result.
proof fn lemma_shells_err_sticks(refs: Seq<CoreShellRef>, site: usize, shells: Seq<CoreShellShape>, sidecar: int, a: int, b: int)
    requires
        0 <= a <= b,
        scan_shells(refs, site, shells, sidecar, a) is Err,
    ensures
        scan_shells(refs, site, shells, sidecar, b) == scan_shells(refs, site, shells, sidecar, a),
    decreases b - a,
{
    if a < b {
        lemma_shells_err_sticks(refs, site, shells, sidecar, a, b - 1);
    }
}

/// Once a rejection occurs among the sidecars it is the result.
proof fn lemma_sidecars_err_sticks(site_count: usize, sidecars: Seq<CoreSidecarShape>, a: int, b: int)
    requires
        0 <= a <= b,
        scan_sidecars_upto(site_count, sidecars, a) is Err,
    ensures
        scan_sidecars_upto(site_count, sidecars, b) == scan_sidecars_upto(site_count, sidecars, a),
    decreases b - a,
{
    if a < b {
        lemma_sidecars_err_sticks(site_count, sidecars, a, b - 1);
    }
}

/// Whether one of the first `upto` sidecars is for `site`.
fn site_seen_before(sidecars: &Vec<CoreSidecarShape>, upto: usize, site: usize) -> (b: bool)
    requires
        upto <= sidecars.len(),
    ensures
        b == exists|k: int| 0 <= k < upto && (#[trigger] sidecars@[k]).site_index == site,
{
    let mut k: usize = 0;
    while k < upto
        invariant
            k <= upto <= sidecars.len(),
            forall|k2: int| 0 <= k2 < k ==> (#[trigger] sidecars@[k2]).site_index != site,
        decreases upto - k,
    {
        if sidecars[k].site_index == site {
            return true;
        }
        k = k + 1;
    }
    false
}

/// Canonical order of two admitted shells.
fn shell_key_lt(a: &CoreShellRef, b: &CoreShellRef) -> (r: bool)
    ensures
        r == key_lt(*a, *b),
{
    a.site < b.site || (a.site == b.site && a.n < b.n) || (a.site == b.site && a.n == b.n && a.kappa < b.kappa)
}

/// The admitted shells in canonical order.
fn sort_refs(refs: &Vec<CoreShellRef>) -> (sorted: Vec<CoreShellRef>)
    requires
        distinct_keys(refs@),
    ensures
        sorted_refs(sorted@),
        sorted.len() == refs.len(),
        forall|x: CoreShellRef| sorted@.contains(x) <==> refs@.contains(x),
{
    let mut sorted: Vec<CoreShellRef> = Vec::new();
    let mut i: usize = 0;
    while i < refs.len()
        invariant
            i <= refs.len(),
            distinct_keys(refs@),
            sorted_refs(sorted@),
            sorted.len() == i,
            forall|q: int, j: int| 0 <= q < sorted.len() && i <= j < refs.len() ==> !same_key(#[trigger] sorted@[q], #[trigger] refs@[j]),
            forall|k: int| 0 <= k < i ==> sorted@.contains(#[trigger] refs@[k]),
            forall|q: int| 0 <= q < sorted.len() ==> refs@.contains(#[trigger] sorted@[q]),
        decreases refs.len() - i,
    {
        let x = refs[i];
        let mut p: usize = 0;
        while p < sorted.len() && !shell_key_lt(&x, &sorted[p])
            invariant
                p <= sorted.len(),
                forall|q: int| 0 <= q < p ==> !key_lt(x, #[trigger] sorted@[q]),
            decreases sorted.len() - p,
        {
            p = p + 1;
        }
        let ghost old_sorted = sorted@;
        proof {
            old_sorted.insert_ensures(p as int, x);
            assert forall|q: int| 0 <= q < p implies key_lt(#[trigger] old_sorted[q], x) by {
                assert(!same_key(old_sorted[q], refs@[i as int]));
            }
            assert forall|q: int| p <= q < old_sorted.len() implies key_lt(x, #[trigger] old_sorted[q]) by {
                assert(key_lt(x, old_sorted[p as int]));
                if q > p {
                    assert(key_lt(old_sorted[p as int], old_sorted[q]));
                }
            }
        }
        sorted.insert(p, x);
        proof {
            let ns = sorted@;
            assert(ns == old_sorted.insert(p as int, x));
            assert forall|q1: int, q2: int| 0 <= q1 < q2 < ns.len() implies key_lt(#[trigger] ns[q1], #[trigger] ns[q2]) by {
                if q2 < p {
                    assert(ns[q1] == old_sorted[q1] && ns[q2] == old_sorted[q2]);
                } else if q2 == p {
                    assert(ns[q1] == old_sorted[q1]);
                } else if q1 < p {
                    assert(ns[q1] == old_sorted[q1] && ns[q2] == old_sorted[q2 - 1]);
                    assert(key_lt(old_sorted[q1], x));
                    assert(key_lt(x, old_sorted[q2 - 1]));
                } else if q1 == p {
                    assert(ns[q2] == old_sorted[q2 - 1]);
                } else {
                    assert(ns[q1] == old_sorted[q1 - 1] && ns[q2] == old_sorted[q2 - 1]);
                }
            }
            assert forall|q: int, j: int| 0 <= q < ns.len() && i + 1 <= j < refs.len() implies !same_key(#[trigger] ns[q], #[trigger] refs@[j]) by {
                if q < p {
                    assert(ns[q] == old_sorted[q]);
                } else if q == p {
                    assert(ns[q] == refs@[i as int]);
                } else {
                    assert(ns[q] == old_sorted[q - 1]);
                }
            }
            assert forall|k: int| 0 <= k < i + 1 implies ns.contains(#[trigger] refs@[k]) by {
                if k == i {
                    assert(ns[p as int] == refs@[k]);
                } else {
                    assert(old_sorted.contains(refs@[k]));
                    let q = choose|q: int| 0 <= q < old_sorted.len() && old_sorted[q] == refs@[k];
                    if q < p {
                        assert(ns[q] == refs@[k]);
                    } else {
                        assert(ns[q + 1] == refs@[k]);
                    }
                }
            }
            assert forall|q: int| 0 <= q < ns.len() implies refs@.contains(#[trigger] ns[q]) by {
                if q < p {
                    assert(ns[q] == old_sorted[q]);
                    assert(refs@.contains(old_sorted[q]));
                } else if q == p {
                    assert(refs@[i as int] == ns[q]);
                } else {
                    assert(ns[q] == old_sorted[q - 1]);
                    assert(refs@.contains(old_sorted[q - 1]));
                }
            }
        }
        i = i + 1;
    }
    proof {
        assert forall|x: CoreShellRef| sorted@.contains(x) <==> refs@.contains(x) by {
            if refs@.contains(x) {
                let k = choose|k: int| 0 <= k < refs.len() && refs@[k] == x;
                assert(sorted@.contains(refs@[k]));
            }
            if sorted@.contains(x) {
                let q = choose|q: int| 0 <= q < sorted.len() && sorted@[q] == x;
                assert(refs@.contains(sorted@[q]));
            }
        }
    }
    sorted
}

/// The flat spin orbitals of the admitted shells, shell after shell.
fn flat_orbitals(shells: &Vec<CoreShellRef>, sidecars: &Vec<CoreSidecarShape>) -> (orbitals: Vec<CoreOrbitalSlot>)
    requires
        sidecars_valid(sidecars@),
        forall|k: int| 0 <= k < shells.len() ==> ref_admitted(#[trigger] shells@[k], sidecars@),
    ensures
        orbitals@ == flat_upto(shells@, sidecars@, shells.len() as int),
{
    let mut orbitals: Vec<CoreOrbitalSlot> = Vec::new();
    let mut s: usize = 0;
    while s < shells.len()
        invariant
            s <= shells.len(),
            sidecars_valid(sidecars@),
            forall|k: int| 0 <= k < shells.len() ==> ref_admitted(#[trigger] shells@[k], sidecars@),
            orbitals@ == flat_upto(shells@, sidecars@, s as int),
        decreases shells.len() - s,
    {
        let r = shells[s];
        assert(ref_admitted(shells@[s as int], sidecars@));
        let shell = &sidecars[r.sidecar].shells[r.shell];
        let ghost prefix = orbitals@;
        let ghost slots = shell_slots(r, sidecars@);
        match &shell.mu_resolved {
            None => {
                assert(false);
            },
            Some(occ) => {
                let kappa = r.kappa;
                assert(valid_kappa(sidecars@[r.sidecar as int].shells@[r.shell as int].kappa));
                let deg = degeneracy(kappa) as usize;
                let channels = twice_mu_values(kappa);
                let mut i: usize = 0;
                while i < deg
                    invariant
                        i <= deg,
                        deg == spec_degeneracy(kappa as int),
                        kappa == r.kappa,
                        channels.len() == deg,
                        forall|k: int| 0 <= k < deg ==> #[trigger] channels@[k] == spec_twice_mu_at(kappa as int, k),
                        channels_exact(kappa, occ@),
                        slots == shell_slots(r, sidecars@),
                        sidecars@[r.sidecar as int].shells@[r.shell as int].mu_resolved == Some(*occ),
                        orbitals@ == prefix + slots.take(i as int),
                    decreases deg - i,
                {
                    let tm = channels[i];
                    assert(names_channel(occ@, spec_twice_mu_at(kappa as int, i as int)));
                    let j = match channel_position(occ, tm) {
                        Some(j) => j,
                        None => {
                            assert(false);
                            0
                        },
                    };
                    proof {
                        lemma_first_index_is_chosen(occ@, tm as int, j as int);
                    }
                    orbitals.push(CoreOrbitalSlot {
                        site_index: r.site,
                        n: r.n,
                        kappa,
                        twice_mu: tm,
                        radial: DiracRadialId { site: r.site, kind: ProductOrbitalKind::Core, kappa, n: r.n as usize },
                        sidecar: r.sidecar,
                        shell: r.shell,
                        occupation_index: j,
                    });
                    proof {
                        assert(slots.take(i as int + 1) =~= slots.take(i as int).push(slots[i as int]));
                    }
                    i = i + 1;
                }
                assert(slots.take(deg as int) =~= slots);
            },
        }
        s = s + 1;
    }
    orbitals
}

/// Admit caller-owned core sidecars: check each sidecar and shell in input
/// order, stopping at the first rejection, then list the admitted shells in
/// canonical `(site, n, kappa)` order with their spin orbitals in ascending
/// `2mu`.
pub fn admit_core_sidecars(site_count: usize, sidecars: &Vec<CoreSidecarShape>) -> (r: Result<CoreTable, SpinorCoreInputError>)
    requires
        sidecars_valid(sidecars@),
    ensures
        match scan_sidecars(site_count, sidecars@) {
            Err(e) => r == Err::<CoreTable, SpinorCoreInputError>(e),
            Ok(admitted) => r matches Ok(table) && {
                &&& sorted_refs(table.shells@)
                &&& table.shells.len() == admitted.len()
                &&& forall|x: CoreShellRef| table.shells@.contains(x) <==> admitted.contains(x)
                &&& table.orbitals@ == flat_upto(table.shells@, sidecars@, table.shells.len() as int)
                &&& canonical_core_orbitals(table.orbitals@)
            },
        },
{
    let mut refs: Vec<CoreShellRef> = Vec::new();
    let mut si: usize = 0;
    while si < sidecars.len()
        invariant
            si <= sidecars.len(),
            sidecars_valid(sidecars@),
            scan_sidecars_upto(site_count, sidecars@, si as int) == Ok::<Seq<CoreShellRef>, SpinorCoreInputError>(refs@),
            distinct_keys(refs@),
            forall|k: int| 0 <= k < refs.len() ==> ref_admitted(#[trigger] refs@[k], sidecars@),
        decreases sidecars.len() - si,
    {
        let sc = &sidecars[si];
        let site = sc.site_index;
        if site >= site_count {
            proof {
                lemma_sidecars_err_sticks(site_count, sidecars@, si as int + 1, sidecars.len() as int);
            }
            return Err(SpinorCoreInputError::SiteIndex { site, site_count });
        }
        if site_seen_before(sidecars, si, site) {
            proof {
                lemma_sidecars_err_sticks(site_count, sidecars@, si as int + 1, sidecars.len() as int);
            }
            return Err(SpinorCoreInputError::DuplicateSite(site));
        }
        if !sc.mesh_prefix_ok {
            proof {
                lemma_sidecars_err_sticks(site_count, sidecars@, si as int + 1, sidecars.len() as int);
            }
            return Err(SpinorCoreInputError::MeshPrefix { site });
        }
        let ghost refs0 = refs@;
        assert(scan_sidecars_upto(site_count, sidecars@, si as int + 1) == scan_shells(refs0, site, sc.shells@, si as int, sc.shells.len() as int));
        let mut t: usize = 0;
        while t < sc.shells.len()
            invariant
                si < sidecars.len(),
                t <= sc.shells.len(),
                *sc == sidecars@[si as int],
                site == sc.site_index,
                sidecars_valid(sidecars@),
                scan_sidecars_upto(site_count, sidecars@, si as int + 1) == scan_shells(refs0, site, sc.shells@, si as int, sc.shells.len() as int),
                scan_shells(refs0, site, sc.shells@, si as int, t as int) == Ok::<Seq<CoreShellRef>, SpinorCoreInputError>(refs@),
                distinct_keys(refs@),
                forall|k: int| 0 <= k < refs.len() ==> ref_admitted(#[trigger] refs@[k], sidecars@),
            decreases sc.shells.len() - t,
        {
            let shell = &sc.shells[t];
            assert(valid_kappa(sidecars@[si as int].shells@[t as int].kappa));
            match check_shell(site, shell, &refs) {
                Some(e) => {
                    proof {
                        lemma_shells_err_sticks(refs0, site, sc.shells@, si as int, t as int + 1, sc.shells.len() as int);
                        lemma_sidecars_err_sticks(site_count, sidecars@, si as int + 1, sidecars.len() as int);
                    }
                    return Err(e);
                },
                None => {
                    let new_ref = CoreShellRef { site, n: shell.n, kappa: shell.kappa, sidecar: si, shell: t };
                    proof {
                        assert forall|k: int| 0 <= k < refs.len() implies !same_key(#[trigger] refs@[k], new_ref) by {
                            assert(!(refs@[k].site == site && refs@[k].n == shell.n && refs@[k].kappa == shell.kappa));
                        }
                    }
                    refs.push(new_ref);
                },
            }
            t = t + 1;
        }
        si = si + 1;
    }
    let shells = sort_refs(&refs);
    proof {
        assert forall|k: int| 0 <= k < shells.len() implies ref_admitted(#[trigger] shells@[k], sidecars@) by {
            assert(refs@.contains(shells@[k]));
            let q = choose|q: int| 0 <= q < refs.len() && refs@[q] == shells@[k];
            assert(ref_admitted(refs@[q], sidecars@));
        }
    }
    let orbitals = flat_orbitals(&shells, sidecars);
    proof {
        assert forall|k: int| 0 <= k < shells.len() implies valid_kappa(#[trigger] shells@[k].kappa) by {
            assert(ref_admitted(shells@[k], sidecars@));
            let r = shells@[k];
            assert(valid_kappa(sidecars@[r.sidecar as int].shells@[r.shell as int].kappa));
        }
        lemma_flat_table_canonical(shells@, sidecars@, shells.len() as int);
    }
    Ok(CoreTable { shells, orbitals })
}

/// A core-core muffin-tin pair: both radials and magnetic channels.
#[derive(Clone, Copy, Debug, PartialEq, Eq, Structural)]
pub struct DiracMtPairSpec {
    pub left: DiracRadialId,
    pub left_twice_mu: i64,
    pub right: DiracRadialId,
    pub right_twice_mu: i64,
}

/// The muffin-tin term of a core-core exchange pair. Cores on different
/// sites do not overlap: the pair has no term and `phases` is not asked.
/// On one site the term is the pair of the two orbitals with the amplitude
/// that `phases` gives for that site.
pub fn cc_pair_term<A, E, F: FnOnce(usize) -> Result<A, E>>(
    left: &CoreOrbitalSlot,
    right: &CoreOrbitalSlot,
    phases: F,
) -> (r: Result<Option<(DiracMtPairSpec, A)>, E>)
    requires
        left.site_index == right.site_index ==> phases.requires((left.site_index,)),
    ensures
        left.site_index != right.site_index ==> r matches Ok(None),
        left.site_index == right.site_index ==> match r {
            Ok(Some(term)) => {
                &&& term.0 == (DiracMtPairSpec {
                    left: left.radial,
                    left_twice_mu: left.twice_mu,
                    right: right.radial,
                    right_twice_mu: right.twice_mu,
                })
                &&& phases.ensures((left.site_index,), Ok::<A, E>(term.1))
            },
            Ok(None) => false,
            Err(e) => phases.ensures((left.site_index,), Err::<A, E>(e)),
        },
{
    if left.site_index != right.site_index {
        return Ok(None);
    }
    match phases(left.site_index) {
        Ok(amplitude) => Ok(Some((
            DiracMtPairSpec {
                left: left.radial,
                left_twice_mu: left.twice_mu,
                right: right.radial,
                right_twice_mu: right.twice_mu,
            },
            amplitude,
        ))),
        Err(e) => Err(e),
    }
}

/// A core orbital has no shell action to compare against.
#[derive(Clone, Copy, Debug, PartialEq, Eq, Structural)]
pub struct MissingShellAction;

/// Each sidecar as its site and the `(n, kappa)` of its shells.
pub open spec fn sidecar_view(sidecars: Seq<(usize, Vec<(u32, i32)>)>) -> Seq<(usize, Seq<(u32, i32)>)> {
    sidecars.map_values(|s: (usize, Vec<(u32, i32)>)| (s.0, s.1@))
}

/// First sidecar position at or after `i` whose site is `site`.
pub open spec fn sidecar_from(sidecars: Seq<(usize, Seq<(u32, i32)>)>, site: usize, i: int) -> Option<int>
    decreases sidecars.len() - i,
{
    if i < 0 || i >= sidecars.len() {
        None
    } else if sidecars[i].0 == site {
        Some(i)
    } else {
        sidecar_from(sidecars, site, i + 1)
    }
}

/// First shell position at or after `i` with `(n, kappa)`.
pub open spec fn shell_from(shells: Seq<(u32, i32)>, n: u32, kappa: i32, i: int) -> Option<int>
    decreases shells.len() - i,
{
    if i < 0 || i >= shells.len() {
        None
    } else if shells[i] == (n, kappa) {
        Some(i)
    } else {
        shell_from(shells, n, kappa, i + 1)
    }
}

/// First action position at or after `i` for `(site, shell)`.
pub open spec fn action_from(actions: Seq<(usize, usize)>, site: usize, shell: int, i: int) -> Option<int>
    decreases actions.len() - i,
{
    if i < 0 || i >= actions.len() {
        None
    } else if actions[i].0 == site && actions[i].1 == shell {
        Some(i)
    } else {
        action_from(actions, site, shell, i + 1)
    }
}

/// The shell action of a core orbital `(site, n, kappa)`: the first sidecar
/// of its site, the first shell there with its `(n, kappa)`, and the first
/// action of that site and shell position.
pub open spec fn orbital_action(sidecars: Seq<(usize, Seq<(u32, i32)>)>, actions: Seq<(usize, usize)>, orbital: (usize, u32, i32)) -> Option<int> {
    match sidecar_from(sidecars, orbital.0, 0) {
        None => None,
        Some(sc) => match shell_from(sidecars[sc].1, orbital.1, orbital.2, 0) {
            None => None,
            Some(sh) => action_from(actions, orbital.0, sh, 0),
        },
    }
}

/// `sidecar_from` over the remaining positions once the earlier ones are
/// known not to match.
proof fn lemma_sidecar_from_skip(sidecars: Seq<(usize, Seq<(u32, i32)>)>, site: usize, i: int)
    requires
        0 <= i <= sidecars.len(),
        forall|j: int| 0 <= j < i ==> (#[trigger] sidecars[j]).0 != site,
    ensures
        sidecar_from(sidecars, site, 0) == sidecar_from(sidecars, site, i),
    decreases i,
{
    if i > 0 {
        lemma_sidecar_from_skip(sidecars, site, i - 1);
    }
}

proof fn lemma_shell_from_skip(shells: Seq<(u32, i32)>, n: u32, kappa: i32, i: int)
    requires
        0 <= i <= shells.len(),
        forall|j: int| 0 <= j < i ==> (#[trigger] shells[j]) != (n, kappa),
    ensures
        shell_from(shells, n, kappa, 0) == shell_from(shells, n, kappa, i),
    decreases i,
{
    if i > 0 {
        lemma_shell_from_skip(shells, n, kappa, i - 1);
    }
}

proof fn lemma_action_from_skip(actions: Seq<(usize, usize)>, site: usize, shell: int, i: int)
    requires
        0 <= i <= actions.len(),
        forall|j: int| 0 <= j < i ==> !((#[trigger] actions[j]).0 == site && actions[j].1 == shell),
    ensures
        action_from(actions, site, shell, 0) == action_from(actions, site, shell, i),
    decreases i,
{
    if i > 0 {
        lemma_action_from_skip(actions, site, shell, i - 1);
    }
}

/// The shell action of one core orbital, if it has one.
fn find_orbital_action(sidecars: &Vec<(usize, Vec<(u32, i32)>)>, actions: &Vec<(usize, usize)>, orbital: (usize, u32, i32)) -> (r: Option<usize>)
    ensures
        match r {
            Some(a) => orbital_action(sidecar_view(sidecars@), actions@, orbital) == Some(a as int),
            None => orbital_action(sidecar_view(sidecars@), actions@, orbital) is None,
        },
{
    let ghost view = sidecar_view(sidecars@);
    let (site, n, kappa) = orbital;
    let mut sc: usize = 0;
    while sc < sidecars.len() && sidecars[sc].0 != site
        invariant
            sc <= sidecars.len(),
            view == sidecar_view(sidecars@),
            forall|j: int| 0 <= j < sc ==> (#[trigger] view[j]).0 != site,
        decreases sidecars.len() - sc,
    {
        sc = sc + 1;
    }
    proof {
        lemma_sidecar_from_skip(view, site, sc as int);
    }
    if sc == sidecars.len() {
        return None;
    }
    let shells = &sidecars[sc].1;
    let ghost sv = view[sc as int].1;
    assert(sv == shells@);
    let mut sh: usize = 0;
    while sh < shells.len() && !(shells[sh].0 == n && shells[sh].1 == kappa)
        invariant
            sh <= shells.len(),
            sv == shells@,
            forall|j: int| 0 <= j < sh ==> (#[trigger] sv[j]) != (n, kappa),
        decreases shells.len() - sh,
    {
        sh = sh + 1;
    }
    proof {
        lemma_shell_from_skip(sv, n, kappa, sh as int);
    }
    if sh == shells.len() {
        return None;
    }
    let mut a: usize = 0;
    while a < actions.len() && !(actions[a].0 == site && actions[a].1 == sh)
        invariant
            a <= actions.len(),
            forall|j: int| 0 <= j < a ==> !((#[trigger] actions@[j]).0 == site && actions@[j].1 == sh),
        decreases actions.len() - a,
    {
        a = a + 1;
    }
    proof {
        lemma_action_from_skip(actions@, site, sh as int, a as int);
    }
    if a == actions.len() {
        return None;
    }
    Some(a)
}

/// For each core orbital `(site, n, kappa)` in order, the position of the
/// shell action it is compared against (see `orbital_action`), or
/// `MissingShellAction` when one has none.
pub fn core_shell_actions(orbitals: &Vec<(usize, u32, i32)>, sidecars: &Vec<(usize, Vec<(u32, i32)>)>, actions: &Vec<(usize, usize)>) -> (r: Result<Vec<usize>, MissingShellAction>)
    ensures
        match r {
            Err(_) => exists|i: int| 0 <= i < orbitals.len()
                && (#[trigger] orbital_action(sidecar_view(sidecars@), actions@, orbitals@[i])) is None,
            Ok(positions) => {
                &&& positions.len() == orbitals.len()
                &&& forall|i: int| 0 <= i < orbitals.len()
                    ==> #[trigger] orbital_action(sidecar_view(sidecars@), actions@, orbitals@[i]) == Some(positions@[i] as int)
            },
        },
{
    let mut positions: Vec<usize> = Vec::new();
    let mut i: usize = 0;
    while i < orbitals.len()
        invariant
            i <= orbitals.len(),
            positions.len() == i,
            forall|j: int| 0 <= j < i
                ==> #[trigger] orbital_action(sidecar_view(sidecars@), actions@, orbitals@[j]) == Some(positions@[j] as int),
        decreases orbitals.len() - i,
    {
        match find_orbital_action(sidecars, actions, orbitals[i]) {
            None => {
                return Err(MissingShellAction);
            },
            Some(a) => {
                let ghost before = positions@;
                positions.push(a);
                proof {
                    assert forall|j: int| 0 <= j < i + 1
                        implies #[trigger] orbital_action(sidecar_view(sidecars@), actions@, orbitals@[j]) == Some(positions@[j] as int) by {
                        if j < i {
                            assert(positions@[j] == before[j]);
                        }
                    }
                }
            },
        }
        i = i + 1;
    }
    Ok(positions)
}

/// Orbital `x` is the first of its shell `(site, n, kappa)`.
pub open spec fn first_of_shell(orbitals: Seq<(usize, u32, i32)>, x: int) -> bool {
    forall|j: int| 0 <= j < x ==> #[trigger] orbitals[j] != orbitals[x]
}

/// Positions of the first orbital of each distinct shell `(site, n, kappa)`,
/// in order of first appearance.
pub fn distinct_core_shells(orbitals: &Vec<(usize, u32, i32)>) -> (firsts: Vec<usize>)
    ensures
        forall|k: int| 0 <= k < firsts.len() ==> #[trigger] firsts@[k] < orbitals.len(),
        forall|k1: int, k2: int| 0 <= k1 < k2 < firsts.len() ==> #[trigger] firsts@[k1] < #[trigger] firsts@[k2],
        forall|i: int| 0 <= i < orbitals.len() ==> (firsts@.contains(i as usize) <==> #[trigger] first_of_shell(orbitals@, i)),
{
    let mut firsts: Vec<usize> = Vec::new();
    let mut i: usize = 0;
    while i < orbitals.len()
        invariant
            i <= orbitals.len(),
            forall|k: int| 0 <= k < firsts.len() ==> #[trigger] firsts@[k] < i,
            forall|k1: int, k2: int| 0 <= k1 < k2 < firsts.len() ==> #[trigger] firsts@[k1] < #[trigger] firsts@[k2],
            forall|x: int| 0 <= x < i ==> (firsts@.contains(x as usize) <==> #[trigger] first_of_shell(orbitals@, x)),
        decreases orbitals.len() - i,
    {
        let current = orbitals[i];
        let mut seen = false;
        let mut k: usize = 0;
        while k < firsts.len()
            invariant
                k <= firsts.len(),
                i < orbitals.len(),
                current == orbitals@[i as int],
                forall|k3: int| 0 <= k3 < firsts.len() ==> #[trigger] firsts@[k3] < i,
                seen <==> exists|k2: int| 0 <= k2 < k && orbitals@[firsts@[k2] as int] == current,
            decreases firsts.len() - k,
        {
            let f = firsts[k];
            if orbitals[f].0 == current.0 && orbitals[f].1 == current.1 && orbitals[f].2 == current.2 {
                seen = true;
            }
            k = k + 1;
        }
        proof {
            // An earlier equal orbital means an earlier first one of the same shell.
            if !seen {
                assert forall|j: int| 0 <= j < i implies #[trigger] orbitals@[j] != orbitals@[i as int] by {
                    if orbitals@[j] == orbitals@[i as int] {
                        lemma_first_equal(orbitals@, firsts@, j, i as int);
                    }
                }
            } else {
                let k2 = choose|k2: int| 0 <= k2 < firsts.len() && orbitals@[firsts@[k2] as int] == current;
                assert(firsts@[k2] < i);
            }
        }
        let ghost before = firsts@;
        if !seen {
            firsts.push(i);
            proof {
                assert forall|x: int| 0 <= x < i + 1 implies (firsts@.contains(x as usize) <==> #[trigger] first_of_shell(orbitals@, x)) by {
                    if x < i {
                        if before.contains(x as usize) {
                            let q = choose|q: int| 0 <= q < before.len() && before[q] == x as usize;
                            assert(firsts@[q] == x as usize);
                        }
                        if firsts@.contains(x as usize) {
                            let q = choose|q: int| 0 <= q < firsts@.len() && firsts@[q] == x as usize;
                            if q < before.len() {
                                assert(before[q] == x as usize);
                            }
                        }
                    } else {
                        assert(firsts@[before.len() as int] == i);
                    }
                }
            }
        } else {
            proof {
                assert forall|x: int| 0 <= x < i + 1 implies (firsts@.contains(x as usize) <==> #[trigger] first_of_shell(orbitals@, x)) by {
                    if x == i {
                        let k2 = choose|k2: int| 0 <= k2 < firsts.len() && orbitals@[firsts@[k2] as int] == current;
                        let f = firsts@[k2] as int;
                        assert(orbitals@[f] == orbitals@[x]);
                        if firsts@.contains(x as usize) {
                            let q = choose|q: int| 0 <= q < firsts@.len() && firsts@[q] == x as usize;
                            assert(firsts@[q] < i);
                        }
                    }
                }
            }
        }
        i = i + 1;
    }
    firsts
}

/// An orbital equal to an earlier one has a listed first occurrence equal
/// to it.
proof fn lemma_first_equal(orbitals: Seq<(usize, u32, i32)>, firsts: Seq<usize>, j: int, i: int)
    requires
        0 <= j < i < orbitals.len(),
        orbitals.len() <= usize::MAX,
        orbitals[j] == orbitals[i],
        forall|x: int| 0 <= x < i ==> (firsts.contains(x as usize) <==> #[trigger] first_of_shell(orbitals, x)),
    ensures
        exists|k: int| 0 <= k < firsts.len() && orbitals[firsts[k] as int] == orbitals[i],
    decreases j,
{
    if first_of_shell(orbitals, j) {
        assert(firsts.contains(j as usize));
        let k = choose|k: int| 0 <= k < firsts.len() && firsts[k] == j as usize;
        assert(orbitals[firsts[k] as int] == orbitals[i]);
    } else {
        let j2 = choose|j2: int| 0 <= j2 < j && #[trigger] orbitals[j2] == orbitals[j];
        lemma_first_equal(orbitals, firsts, j2, i);
    }
}

} // verus!
