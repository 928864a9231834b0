//! The base valence channel of every `l` of a site when its basis is
//! materialized: a single scalar channel, or the relativistic partners of
//! one shell. The scalar route averages the partners; the spinor route
//! needs one channel per Dirac partner `kappa` of `l`.
use vstd::prelude::*;
use crate::channels::{ChannelIdentity, ChannelTreatment, identity_l, identity_n, identity_ok, scf_channel_angular_momentum};
use crate::kappa::spinor_kappas_for_l;

verus! {

/// What base-channel selection and local-orbital numbering read of one
/// basis channel recipe.
#[derive(Clone, Debug, PartialEq, Eq)]
pub struct ChannelRecipeShape {
    pub site: String,
    pub identity: ChannelIdentity,
    pub treatment: ChannelTreatment,
}

/// One Dirac partner `kappa` of an `l` and the channel that carries it: the
/// scalar channel of `l`, or the relativistic channel with that `kappa`.
#[derive(Clone, Copy, Debug, PartialEq, Eq, Structural)]
pub struct SpinorBase {
    pub kappa: i32,
    pub channel: usize,
}

/// Why an `l` of a site has no base channel.
#[derive(Clone, Copy, Debug, PartialEq, Eq, Structural)]
pub enum BaseChannelError {
    /// The valence channels of `l` are neither one scalar channel nor the
    /// relativistic channels of one principal quantum number.
    Ambiguous { l: u32 },
    /// No valence channel has this `l`.
    Missing { l: u32 },
    /// The relativistic channels of `l` do not carry `kappa` exactly once.
    MissingSpinor { l: u32, kappa: i32 },
    /// A relativistic base channel's `kappa` names no Dirac channel.
    Kappa { kappa: i32 },
    /// `l` has no signed-32-bit Dirac partner.
    AngularMomentumOverflow { l: u32 },
}

// ---------------------------------------------------------------------
// Specification.

/// Channel `c` is a valence channel of `site` with orbital angular momentum `l`.
pub open spec fn valence_of(site: String, c: ChannelRecipeShape, l: u32) -> bool {
    &&& c.site@ == site@
    &&& c.treatment == ChannelTreatment::Valence
    &&& identity_l(c.identity) == l
}

/// Positions, in order, of the valence channels of `site` at `l` among the
/// first `upto` channels.
pub open spec fn valence_at(site: String, channels: Seq<ChannelRecipeShape>, l: u32, upto: int) -> Seq<usize>
    decreases upto,
{
    if upto <= 0 {
        Seq::empty()
    } else if valence_of(site, channels[upto - 1], l) {
        valence_at(site, channels, l, upto - 1).push((upto - 1) as usize)
    } else {
        valence_at(site, channels, l, upto - 1)
    }
}

/// All valence channel positions of `site` at `l`.
pub open spec fn valence_all(site: String, channels: Seq<ChannelRecipeShape>, l: u32) -> Seq<usize> {
    valence_at(site, channels, l, channels.len() as int)
}

/// Some listed channel is scalar.
pub open spec fn has_scalar(channels: Seq<ChannelRecipeShape>, m: Seq<usize>) -> bool {
    exists|j: int| 0 <= j < m.len() && (#[trigger] channels[m[j] as int]).identity is ScalarL
}

/// The listed channels do not all share the first one's `n`.
pub open spec fn mixed_n(channels: Seq<ChannelRecipeShape>, m: Seq<usize>) -> bool {
    exists|j: int| 0 <= j < m.len() && identity_n((#[trigger] channels[m[j] as int]).identity) != identity_n(channels[m[0] as int].identity)
}

/// `j` is the first listed channel whose `kappa` is not a Dirac channel.
pub open spec fn first_bad_partner(channels: Seq<ChannelRecipeShape>, kappa_ok: Seq<bool>, m: Seq<usize>, j: int) -> bool {
    &&& 0 <= j < m.len()
    &&& !kappa_ok[m[j] as int]
    &&& forall|j2: int| 0 <= j2 < j ==> #[trigger] kappa_ok[m[j2] as int]
}

/// The `kappa` of a relativistic identity.
pub open spec fn identity_kappa(identity: ChannelIdentity) -> i32 {
    match identity {
        ChannelIdentity::Kappa { kappa, .. } => kappa,
        ChannelIdentity::ScalarL { .. } => 0,
    }
}

/// The scalar route's verdict on `l`: `None` when its valence channels are
/// one scalar channel, or relativistic channels of one `n` with valid
/// `kappa` values.
pub open spec fn scalar_base_error(site: String, channels: Seq<ChannelRecipeShape>, kappa_ok: Seq<bool>, l: u32) -> Option<BaseChannelError> {
    let m = valence_all(site, channels, l);
    if m.len() == 1 && channels[m[0] as int].identity is ScalarL {
        None
    } else if !has_scalar(channels, m) && m.len() > 0 {
        if mixed_n(channels, m) {
            Some(BaseChannelError::Ambiguous { l })
        } else if exists|j: int| #[trigger] first_bad_partner(channels, kappa_ok, m, j) {
            let j = choose|j: int| #[trigger] first_bad_partner(channels, kappa_ok, m, j);
            Some(BaseChannelError::Kappa { kappa: identity_kappa(channels[m[j] as int].identity) })
        } else {
            None
        }
    } else if m.len() == 0 {
        Some(BaseChannelError::Missing { l })
    } else {
        Some(BaseChannelError::Ambiguous { l })
    }
}

/// `l` is the first angular momentum the scalar route rejects.
pub open spec fn first_scalar_gap(site: String, channels: Seq<ChannelRecipeShape>, kappa_ok: Seq<bool>, l: u32) -> bool {
    &&& scalar_base_error(site, channels, kappa_ok, l) is Some
    &&& forall|l2: u32| l2 < l ==> (#[trigger] scalar_base_error(site, channels, kappa_ok, l2)) is None
}

/// The Dirac partners of `l`: `-(l + 1)`, then `l` when `l > 0`.
pub open spec fn partners(l: u32) -> Seq<i32> {
    if l == 0 {
        seq![-1i32]
    } else {
        seq![(-(l + 1)) as i32, l as i32]
    }
}

/// Positions among `m` of relativistic channels with `kappa`, in order.
pub open spec fn kappa_matches(channels: Seq<ChannelRecipeShape>, m: Seq<usize>, kappa: i32, upto: int) -> Seq<usize>
    decreases upto,
{
    if upto <= 0 {
        Seq::empty()
    } else if channels[m[upto - 1] as int].identity matches ChannelIdentity::Kappa { kappa: k, .. } && k == kappa {
        kappa_matches(channels, m, kappa, upto - 1).push(m[upto - 1])
    } else {
        kappa_matches(channels, m, kappa, upto - 1)
    }
}

/// The spinor route's verdict on `l` and, when accepted, its bases.
pub open spec fn spinor_base_at(site: String, channels: Seq<ChannelRecipeShape>, l: u32) -> Result<Seq<SpinorBase>, BaseChannelError> {
    let m = valence_all(site, channels, l);
    if (m.len() == 1 && channels[m[0] as int].identity is ScalarL) || (!has_scalar(channels, m) && m.len() > 0) {
        if l >= i32::MAX {
            Err(BaseChannelError::AngularMomentumOverflow { l })
        } else if m.len() == 1 && channels[m[0] as int].identity is ScalarL {
            Ok(partners(l).map_values(|k: i32| SpinorBase { kappa: k, channel: m[0] }))
        } else if exists|p: int| 0 <= p < partners(l).len() && kappa_matches(channels, m, #[trigger] partners(l)[p], m.len() as int).len() != 1 {
            let p = choose|p: int| 0 <= p < partners(l).len() && kappa_matches(channels, m, #[trigger] partners(l)[p], m.len() as int).len() != 1
                && forall|p2: int| 0 <= p2 < p ==> kappa_matches(channels, m, #[trigger] partners(l)[p2], m.len() as int).len() == 1;
            Err(BaseChannelError::MissingSpinor { l, kappa: partners(l)[p] })
        } else {
            Ok(partners(l).map_values(|k: i32| SpinorBase { kappa: k, channel: kappa_matches(channels, m, k, m.len() as int)[0] }))
        }
    } else if m.len() == 0 {
        Err(BaseChannelError::Missing { l })
    } else {
        Err(BaseChannelError::Ambiguous { l })
    }
}

/// Bases of the spinor route for `l` in `0..upto`, or its first rejection.
pub open spec fn spinor_bases_upto(site: String, channels: Seq<ChannelRecipeShape>, upto: int) -> Result<Seq<SpinorBase>, BaseChannelError>
    decreases upto,
{
    if upto <= 0 {
        Ok(Seq::empty())
    } else {
        match spinor_bases_upto(site, channels, upto - 1) {
            Err(e) => Err(e),
            Ok(prev) => match spinor_base_at(site, channels, (upto - 1) as u32) {
                Err(e) => Err(e),
                Ok(bases) => Ok(prev + bases),
            },
        }
    }
}

/// Every channel identity has a `kappa` whose `l` can be formed.
pub open spec fn channels_ok(channels: Seq<ChannelRecipeShape>) -> bool {
    forall|i: int| 0 <= i < channels.len() ==> identity_ok(#[trigger] channels[i].identity)
}

// ---------------------------------------------------------------------
// Implementation.

/// Positions of the valence channels of `site` at `l`.
fn valence_positions(site: &String, channels: &Vec<ChannelRecipeShape>, l: u32) -> (m: Vec<usize>)
    requires
        channels_ok(channels@),
    ensures
        m@ == valence_all(*site, channels@, l),
        forall|j: int| 0 <= j < m.len() ==> #[trigger] m@[j] < channels.len(),
{
    let mut m: Vec<usize> = Vec::new();
    let mut i: usize = 0;
    while i < channels.len()
        invariant
            i <= channels.len(),
            channels_ok(channels@),
            m@ == valence_at(*site, channels@, l, i as int),
            forall|j: int| 0 <= j < m.len() ==> #[trigger] m@[j] < i,
        decreases channels.len() - i,
    {
        let c = &channels[i];
        assert(identity_ok(channels@[i as int].identity));
        if c.site == *site && c.treatment == ChannelTreatment::Valence && scf_channel_angular_momentum(c.identity) == l {
            m.push(i);
        }
        i = i + 1;
    }
    m
}

/// Whether a listed channel is scalar.
fn any_scalar(channels: &Vec<ChannelRecipeShape>, m: &Vec<usize>) -> (b: bool)
    requires
        forall|j: int| 0 <= j < m.len() ==> #[trigger] m@[j] < channels.len(),
    ensures
        b == has_scalar(channels@, m@),
{
    let mut j: usize = 0;
    while j < m.len()
        invariant
            j <= m.len(),
            forall|j3: int| 0 <= j3 < m.len() ==> #[trigger] m@[j3] < channels.len(),
            forall|j2: int| 0 <= j2 < j ==> !((#[trigger] channels@[m@[j2] as int]).identity is ScalarL),
        decreases m.len() - j,
    {
        match channels[m[j]].identity {
            ChannelIdentity::ScalarL { .. } => {
                return true;
            },
            ChannelIdentity::Kappa { .. } => {},
        }
        j = j + 1;
    }
    false
}

/// The scalar route's verdict on one `l`.
fn scalar_base_check(site: &String, channels: &Vec<ChannelRecipeShape>, kappa_ok: &Vec<bool>, l: u32, m: &Vec<usize>) -> (r: Option<BaseChannelError>)
    requires
        kappa_ok.len() == channels.len(),
        m@ == valence_all(*site, channels@, l),
        forall|j: int| 0 <= j < m.len() ==> #[trigger] m@[j] < channels.len(),
    ensures
        r == scalar_base_error(*site, channels@, kappa_ok@, l),
{
    if m.len() == 1 {
        match channels[m[0]].identity {
            ChannelIdentity::ScalarL { .. } => {
                return None;
            },
            ChannelIdentity::Kappa { .. } => {},
        }
    }
    let scalar = any_scalar(channels, m);
    if !scalar && m.len() > 0 {
        let n0 = match channels[m[0]].identity {
            ChannelIdentity::ScalarL { n, .. } => n,
            ChannelIdentity::Kappa { n, .. } => n,
        };
        let mut j: usize = 0;
        while j < m.len()
            invariant
                j <= m.len(),
                m.len() > 0,
                m@ == valence_all(*site, channels@, l),
                !has_scalar(channels@, m@),
                forall|j3: int| 0 <= j3 < m.len() ==> #[trigger] m@[j3] < channels.len(),
                n0 == identity_n(channels@[m@[0] as int].identity),
                forall|j2: int| 0 <= j2 < j ==> identity_n((#[trigger] channels@[m@[j2] as int]).identity) == n0,
            decreases m.len() - j,
        {
            let n = match channels[m[j]].identity {
                ChannelIdentity::ScalarL { n, .. } => n,
                ChannelIdentity::Kappa { n, .. } => n,
            };
            if n != n0 {
                proof {
                    assert(mixed_n(channels@, m@));
                    if m.len() == 1 {
                        assert(!(channels@[m@[0] as int].identity is ScalarL));
                    }
                }
                return Some(BaseChannelError::Ambiguous { l });
            }
            j = j + 1;
        }
        proof {
            assert(!mixed_n(channels@, m@)) by {
                if mixed_n(channels@, m@) {
                    let j2 = choose|j2: int| 0 <= j2 < m.len() && identity_n((#[trigger] channels@[m@[j2] as int]).identity) != identity_n(channels@[m@[0] as int].identity);
                    assert(identity_n(channels@[m@[j2] as int].identity) == n0);
                }
            }
        }
        let mut j: usize = 0;
        while j < m.len()
            invariant
                j <= m.len(),
                m.len() > 0,
                kappa_ok.len() == channels.len(),
                m@ == valence_all(*site, channels@, l),
                !has_scalar(channels@, m@),
                !mixed_n(channels@, m@),
                forall|j3: int| 0 <= j3 < m.len() ==> #[trigger] m@[j3] < channels.len(),
                forall|j2: int| 0 <= j2 < j ==> #[trigger] kappa_ok@[m@[j2] as int],
            decreases m.len() - j,
        {
            if !kappa_ok[m[j]] {
                let kappa = match channels[m[j]].identity {
                    ChannelIdentity::Kappa { kappa, .. } => kappa,
                    ChannelIdentity::ScalarL { .. } => 0,
                };
                proof {
                    if m.len() == 1 {
                        assert(!(channels@[m@[0] as int].identity is ScalarL));
                    }
                    assert(first_bad_partner(channels@, kappa_ok@, m@, j as int));
                    let c = choose|c: int| #[trigger] first_bad_partner(channels@, kappa_ok@, m@, c);
                    if c < j {
                        assert(kappa_ok@[m@[c] as int]);
                    } else if c > j {
                        assert(kappa_ok@[m@[j as int] as int]);
                    }
                }
                return Some(BaseChannelError::Kappa { kappa });
            }
            j = j + 1;
        }
        proof {
            assert forall|c: int| !#[trigger] first_bad_partner(channels@, kappa_ok@, m@, c) by {
                if 0 <= c < m.len() {
                    assert(kappa_ok@[m@[c] as int]);
                }
            }
        }
        return None;
    }
    if m.len() == 0 {
        Some(BaseChannelError::Missing { l })
    } else {
        Some(BaseChannelError::Ambiguous { l })
    }
}

/// Base valence channels of a site for the scalar route: for every `l` in
/// `0..=l_max`, the positions of its valence channels, which must be one
/// scalar channel or the relativistic partners of one `n` (averaged by
/// degeneracy downstream). `kappa_ok[i]` says whether channel `i`'s
/// `kappa` names a Dirac channel (always true for a scalar channel).
pub fn scalar_base_channels(site: &String, l_max: u32, channels: &Vec<ChannelRecipeShape>, kappa_ok: &Vec<bool>) -> (r: Result<Vec<Vec<usize>>, BaseChannelError>)
    requires
        kappa_ok.len() == channels.len(),
        channels_ok(channels@),
    ensures
        match r {
            Err(e) => exists|l: u32| l <= l_max && #[trigger] first_scalar_gap(*site, channels@, kappa_ok@, l) && scalar_base_error(*site, channels@, kappa_ok@, l) == Some(e),
            Ok(bases) => {
                &&& bases.len() == l_max + 1
                &&& forall|l: u32| l <= l_max ==> (#[trigger] scalar_base_error(*site, channels@, kappa_ok@, l)) is None
                    && bases@[l as int]@ == valence_all(*site, channels@, l)
            },
        },
{
    let mut bases: Vec<Vec<usize>> = Vec::new();
    let mut l: u32 = 0;
    loop
        invariant
            l <= l_max,
            kappa_ok.len() == channels.len(),
            channels_ok(channels@),
            bases.len() == l,
            forall|l2: u32| l2 < l ==> (#[trigger] scalar_base_error(*site, channels@, kappa_ok@, l2)) is None
                && bases@[l2 as int]@ == valence_all(*site, channels@, l2),
        decreases l_max - l,
    {
        let m = valence_positions(site, channels, l);
        match scalar_base_check(site, channels, kappa_ok, l, &m) {
            Some(e) => {
                proof {
                    assert(first_scalar_gap(*site, channels@, kappa_ok@, l));
                }
                return Err(e);
            },
            None => {},
        }
        bases.push(m);
        if l == l_max {
            return Ok(bases);
        }
        l = l + 1;
    }
}

/// Positions among `m` of the relativistic channels with `kappa`.
fn matches_of(channels: &Vec<ChannelRecipeShape>, m: &Vec<usize>, kappa: i32) -> (r: Vec<usize>)
    requires
        forall|j: int| 0 <= j < m.len() ==> #[trigger] m@[j] < channels.len(),
    ensures
        r@ == kappa_matches(channels@, m@, kappa, m.len() as int),
{
    let mut r: Vec<usize> = Vec::new();
    let mut j: usize = 0;
    while j < m.len()
        invariant
            j <= m.len(),
            forall|j3: int| 0 <= j3 < m.len() ==> #[trigger] m@[j3] < channels.len(),
            r@ == kappa_matches(channels@, m@, kappa, j as int),
        decreases m.len() - j,
    {
        match channels[m[j]].identity {
            ChannelIdentity::Kappa { kappa: k, .. } => {
                if k == kappa {
                    r.push(m[j]);
                }
            },
            ChannelIdentity::ScalarL { .. } => {},
        }
        j = j + 1;
    }
    r
}

/// The spinor route's bases of one `l`, or its rejection.
fn spinor_base_for(site: &String, channels: &Vec<ChannelRecipeShape>, l: u32) -> (r: Result<Vec<SpinorBase>, BaseChannelError>)
    requires
        channels_ok(channels@),
    ensures
        match spinor_base_at(*site, channels@, l) {
            Ok(bases) => r matches Ok(v) && v@ == bases,
            Err(e) => r == Err::<Vec<SpinorBase>, BaseChannelError>(e),
        },
{
    let m = valence_positions(site, channels, l);
    let single_scalar = m.len() == 1 && match channels[m[0]].identity {
        ChannelIdentity::ScalarL { .. } => true,
        ChannelIdentity::Kappa { .. } => false,
    };
    let scalar = any_scalar(channels, &m);
    let relativistic = !scalar && m.len() > 0;
    if !single_scalar && !relativistic {
        if m.len() == 0 {
            return Err(BaseChannelError::Missing { l });
        }
        return Err(BaseChannelError::Ambiguous { l });
    }
    let kappas = match spinor_kappas_for_l(l) {
        None => {
            return Err(BaseChannelError::AngularMomentumOverflow { l });
        },
        Some(ks) => ks,
    };
    proof {
        assert(kappas@ =~= partners(l));
    }
    let mut bases: Vec<SpinorBase> = Vec::new();
    if single_scalar {
        let mut p: usize = 0;
        while p < kappas.len()
            invariant
                p <= kappas.len(),
                kappas@ == partners(l),
                m.len() == 1,
                bases@ == partners(l).take(p as int).map_values(|k: i32| SpinorBase { kappa: k, channel: m@[0] }),
            decreases kappas.len() - p,
        {
            bases.push(SpinorBase { kappa: kappas[p], channel: m[0] });
            proof {
                assert(partners(l).take(p as int + 1).map_values(|k: i32| SpinorBase { kappa: k, channel: m@[0] })
                    =~= partners(l).take(p as int).map_values(|k: i32| SpinorBase { kappa: k, channel: m@[0] }).push(SpinorBase { kappa: kappas@[p as int], channel: m@[0] }));
            }
            p = p + 1;
        }
        proof {
            assert(partners(l).take(kappas.len() as int) =~= partners(l));
        }
        return Ok(bases);
    }
    let mut p: usize = 0;
    while p < kappas.len()
        invariant
            p <= kappas.len(),
            kappas@ == partners(l),
            l < i32::MAX,
            !has_scalar(channels@, m@),
            m.len() > 0,
            m@ == valence_all(*site, channels@, l),
            forall|j: int| 0 <= j < m.len() ==> #[trigger] m@[j] < channels.len(),
            forall|p2: int| 0 <= p2 < p ==> kappa_matches(channels@, m@, #[trigger] partners(l)[p2], m.len() as int).len() == 1,
            bases@ == partners(l).take(p as int).map_values(|k: i32| SpinorBase { kappa: k, channel: kappa_matches(channels@, m@, k, m.len() as int)[0] }),
        decreases kappas.len() - p,
    {
        let kappa = kappas[p];
        let found = matches_of(channels, &m, kappa);
        if found.len() != 1 {
            proof {
                let q = choose|q: int| 0 <= q < partners(l).len() && kappa_matches(channels@, m@, #[trigger] partners(l)[q], m.len() as int).len() != 1
                    && forall|p2: int| 0 <= p2 < q ==> kappa_matches(channels@, m@, #[trigger] partners(l)[p2], m.len() as int).len() == 1;
                assert(0 <= p < partners(l).len() && kappa_matches(channels@, m@, partners(l)[p as int], m.len() as int).len() != 1
                    && forall|p2: int| 0 <= p2 < p ==> kappa_matches(channels@, m@, #[trigger] partners(l)[p2], m.len() as int).len() == 1);
                if q < p {
                    assert(kappa_matches(channels@, m@, partners(l)[q], m.len() as int).len() == 1);
                } else if q > p {
                    assert(kappa_matches(channels@, m@, partners(l)[p as int], m.len() as int).len() == 1);
                }
            }
            return Err(BaseChannelError::MissingSpinor { l, kappa });
        }
        bases.push(SpinorBase { kappa, channel: found[0] });
        proof {
            assert(partners(l).take(p as int + 1).map_values(|k: i32| SpinorBase { kappa: k, channel: kappa_matches(channels@, m@, k, m.len() as int)[0] })
                =~= partners(l).take(p as int).map_values(|k: i32| SpinorBase { kappa: k, channel: kappa_matches(channels@, m@, k, m.len() as int)[0] }).push(SpinorBase { kappa, channel: found@[0] }));
        }
        p = p + 1;
    }
    proof {
        assert(partners(l).take(kappas.len() as int) =~= partners(l));
        assert forall|q: int| 0 <= q < partners(l).len() implies kappa_matches(channels@, m@, #[trigger] partners(l)[q], m.len() as int).len() == 1 by {}
    }
    Ok(bases)
}

/// Base valence channels of a site for the spinor route: for every `l` in
/// `0..=l_max` and each Dirac partner `kappa` of `l`, the channel that
/// carries it (the single scalar channel of `l`, or the one relativistic
/// channel with that `kappa`), `l` after `l`.
pub fn spinor_base_channels(site: &String, l_max: u32, channels: &Vec<ChannelRecipeShape>) -> (r: Result<Vec<SpinorBase>, BaseChannelError>)
    requires
        channels_ok(channels@),
    ensures
        match spinor_bases_upto(*site, channels@, l_max as int + 1) {
            Ok(bases) => r matches Ok(v) && v@ == bases,
            Err(e) => r == Err::<Vec<SpinorBase>, BaseChannelError>(e),
        },
{
    let mut bases: Vec<SpinorBase> = Vec::new();
    let mut l: u32 = 0;
    loop
        invariant
            l <= l_max,
            channels_ok(channels@),
            spinor_bases_upto(*site, channels@, l as int) == Ok::<Seq<SpinorBase>, BaseChannelError>(bases@),
        decreases l_max - l,
    {
        match spinor_base_for(site, channels, l) {
            Err(e) => {
                proof {
                    lemma_spinor_err_sticks(*site, channels@, l as int + 1, l_max as int + 1);
                }
                return Err(e);
            },
            Ok(more) => {
                let mut i: usize = 0;
                let ghost prefix = bases@;
                while i < more.len()
                    invariant
                        i <= more.len(),
                        bases@ == prefix + more@.take(i as int),
                    decreases more.len() - i,
                {
                    bases.push(more[i]);
                    proof {
                        assert(prefix + more@.take(i as int + 1) =~= (prefix + more@.take(i as int)).push(more@[i as int]));
                    }
                    i = i + 1;
                }
                proof {
                    assert(more@.take(more.len() as int) =~= more@);
                }
            },
        }
        if l == l_max {
            return Ok(bases);
        }
        l = l + 1;
    }
}

/// Once the spinor route rejects an `l` the rejection is the result.
proof fn lemma_spinor_err_sticks(site: String, channels: Seq<ChannelRecipeShape>, a: int, b: int)
    requires
        0 <= a <= b,
        spinor_bases_upto(site, channels, a) is Err,
    ensures
        spinor_bases_upto(site, channels, b) == spinor_bases_upto(site, channels, a),
    decreases b - a,
{
    if a < b {
        lemma_spinor_err_sticks(site, channels, a, b - 1);
    }
}

/// Recipe `j` is a local orbital of `site` with angular momentum `l`.
pub open spec fn lo_of(r: ChannelRecipeShape, site: String, l: u32) -> bool {
    r.treatment == ChannelTreatment::Lo && r.site@ == site@ && identity_l(r.identity) == l
}

/// Number of local-orbital recipes of `site` and `l` among the first `upto`.
pub open spec fn lo_count_before(recipes: Seq<ChannelRecipeShape>, site: String, l: u32, upto: int) -> nat
    decreases upto,
{
    if upto <= 0 {
        0
    } else if lo_of(recipes[upto - 1], site, l) {
        lo_count_before(recipes, site, l, upto - 1) + 1
    } else {
        lo_count_before(recipes, site, l, upto - 1)
    }
}

/// Ordinal of each recipe among the local orbitals of its site and `l`
/// (`None` for a recipe that is not a local orbital): the `k`-th local
/// orbital of a site and `l` is anchored to the `k`-th snapshot local
/// orbital of that `l`.
pub fn lo_ordinals(recipes: &Vec<ChannelRecipeShape>) -> (ordinals: Vec<Option<usize>>)
    requires
        channels_ok(recipes@),
    ensures
        ordinals.len() == recipes.len(),
        forall|i: int| 0 <= i < recipes.len() ==> #[trigger] ordinals@[i] == (if recipes@[i].treatment == ChannelTreatment::Lo {
            Some(lo_count_before(recipes@, recipes@[i].site, identity_l(recipes@[i].identity), i) as usize)
        } else {
            None
        }),
{
    let mut ordinals: Vec<Option<usize>> = Vec::new();
    let mut i: usize = 0;
    while i < recipes.len()
        invariant
            i <= recipes.len(),
            channels_ok(recipes@),
            ordinals.len() == i,
            forall|x: int| 0 <= x < i ==> #[trigger] ordinals@[x] == (if recipes@[x].treatment == ChannelTreatment::Lo {
                Some(lo_count_before(recipes@, recipes@[x].site, identity_l(recipes@[x].identity), x) as usize)
            } else {
                None
            }),
        decreases recipes.len() - i,
    {
        let r = &recipes[i];
        let ghost before = ordinals@;
        if r.treatment == ChannelTreatment::Lo {
            assert(identity_ok(recipes@[i as int].identity));
            let l = scf_channel_angular_momentum(r.identity);
            let mut count: usize = 0;
            let mut j: usize = 0;
            while j < i
                invariant
                    j <= i < recipes.len(),
                    l == identity_l(recipes@[i as int].identity),
                    *r == recipes@[i as int],
                    channels_ok(recipes@),
                    count == lo_count_before(recipes@, r.site, l, j as int),
                    count <= j,
                decreases i - j,
            {
                let q = &recipes[j];
                assert(identity_ok(recipes@[j as int].identity));
                if q.treatment == ChannelTreatment::Lo && q.site == r.site && scf_channel_angular_momentum(q.identity) == l {
                    count = count + 1;
                }
                j = j + 1;
            }
            ordinals.push(Some(count));
        } else {
            ordinals.push(None);
        }
        proof {
            assert forall|x: int| 0 <= x < i + 1 implies #[trigger] ordinals@[x] == (if recipes@[x].treatment == ChannelTreatment::Lo {
                Some(lo_count_before(recipes@, recipes@[x].site, identity_l(recipes@[x].identity), x) as usize)
            } else {
                None
            }) by {
                if x < i {
                    assert(ordinals@[x] == before[x]);
                }
            }
        }
        i = i + 1;
    }
    ordinals
}

/// The snapshot local orbitals of angular momentum `l` among the first
/// `upto`, in order.
pub open spec fn snapshot_los_of_l<E>(los: Seq<(u32, E)>, l: u32, upto: int) -> Seq<E>
    decreases upto,
{
    if upto <= 0 {
        Seq::empty()
    } else if los[upto - 1].0 == l {
        snapshot_los_of_l(los, l, upto - 1).push(los[upto - 1].1)
    } else {
        snapshot_los_of_l(los, l, upto - 1)
    }
}

/// The energy of the `ordinal`-th snapshot local orbital of `l`, if the
/// snapshot has that many.
pub fn snapshot_lo_anchor<E: Copy>(los: &Vec<(u32, E)>, l: u32, ordinal: usize) -> (r: Option<E>)
    ensures
        ordinal < snapshot_los_of_l(los@, l, los.len() as int).len() ==> r == Some(snapshot_los_of_l(los@, l, los.len() as int)[ordinal as int]),
        ordinal >= snapshot_los_of_l(los@, l, los.len() as int).len() ==> r is None,
{
    let mut seen: usize = 0;
    let mut i: usize = 0;
    while i < los.len()
        invariant
            i <= los.len(),
            seen == snapshot_los_of_l(los@, l, i as int).len(),
            seen <= ordinal,
            seen <= i,
        decreases los.len() - i,
    {
        if los[i].0 == l {
            if seen == ordinal {
                proof {
                    lemma_los_of_l_prefix(los@, l, i as int + 1, los.len() as int);
                    assert(snapshot_los_of_l(los@, l, i as int + 1)[ordinal as int] == los@[i as int].1);
                }
                return Some(los[i].1);
            }
            seen = seen + 1;
        }
        i = i + 1;
    }
    None
}

/// Fewer snapshot local orbitals give a prefix of the ones of `l`.
proof fn lemma_los_of_l_prefix<E>(los: Seq<(u32, E)>, l: u32, a: int, b: int)
    requires
        0 <= a <= b,
    ensures
        snapshot_los_of_l(los, l, a).len() <= snapshot_los_of_l(los, l, b).len(),
        forall|x: int| 0 <= x < snapshot_los_of_l(los, l, a).len()
            ==> #[trigger] snapshot_los_of_l(los, l, b)[x] == snapshot_los_of_l(los, l, a)[x],
    decreases b - a,
{
    if a < b {
        lemma_los_of_l_prefix(los, l, a, b - 1);
    }
}

/// The largest principal quantum number among the channels of `site`, or
/// 1 when it has none; it sets how far the site's core mesh extends.
pub fn maximum_principal_n(site: &String, recipes: &Vec<ChannelRecipeShape>) -> (n: u32)
    ensures
        forall|i: int| 0 <= i < recipes.len() && (#[trigger] recipes@[i]).site@ == site@ ==> identity_n(recipes@[i].identity) <= n,
        (exists|i: int| 0 <= i < recipes.len() && (#[trigger] recipes@[i]).site@ == site@ && identity_n(recipes@[i].identity) == n)
            || (n == 1 && forall|i: int| 0 <= i < recipes.len() ==> (#[trigger] recipes@[i]).site@ != site@),
{
    let mut best: Option<u32> = None;
    let mut i: usize = 0;
    while i < recipes.len()
        invariant
            i <= recipes.len(),
            match best {
                None => forall|j: int| 0 <= j < i ==> (#[trigger] recipes@[j]).site@ != site@,
                Some(b) => {
                    &&& forall|j: int| 0 <= j < i && (#[trigger] recipes@[j]).site@ == site@ ==> identity_n(recipes@[j].identity) <= b
                    &&& exists|j: int| 0 <= j < i && (#[trigger] recipes@[j]).site@ == site@ && identity_n(recipes@[j].identity) == b
                },
            },
        decreases recipes.len() - i,
    {
        if recipes[i].site == *site {
            let n = match recipes[i].identity {
                ChannelIdentity::ScalarL { n, .. } => n,
                ChannelIdentity::Kappa { n, .. } => n,
            };
            match best {
                None => {
                    best = Some(n);
                },
                Some(b) => {
                    if n > b {
                        best = Some(n);
                    }
                },
            }
        }
        i = i + 1;
    }
    match best {
        None => 1,
        Some(b) => b,
    }
}

/// Recipe `c` is a local orbital (LO or HDLO) of `site`.
pub open spec fn local_of(c: ChannelRecipeShape, site: String) -> bool {
    c.site@ == site@ && (c.treatment == ChannelTreatment::Lo || c.treatment == ChannelTreatment::Hdlo)
}

/// Positions of the scalar local orbitals of `site` among the first
/// `upto` recipes, each with its `l`.
pub open spec fn scalar_locals_upto(site: String, recipes: Seq<ChannelRecipeShape>, upto: int) -> Seq<(usize, u32)>
    decreases upto,
{
    if upto <= 0 {
        Seq::empty()
    } else if local_of(recipes[upto - 1], site) && recipes[upto - 1].identity is ScalarL {
        scalar_locals_upto(site, recipes, upto - 1).push(((upto - 1) as usize, identity_l(recipes[upto - 1].identity)))
    } else {
        scalar_locals_upto(site, recipes, upto - 1)
    }
}

/// The scalar route's local orbitals of a site: each scalar LO or HDLO
/// recipe of the site, in order, with its `l` (its energy is the recipe's
/// spin-resolved energy).
pub fn scalar_resolved_local_orbitals(site: &String, recipes: &Vec<ChannelRecipeShape>) -> (r: Vec<(usize, u32)>)
    ensures
        r@ == scalar_locals_upto(*site, recipes@, recipes.len() as int),
{
    let mut r: Vec<(usize, u32)> = Vec::new();
    let mut i: usize = 0;
    while i < recipes.len()
        invariant
            i <= recipes.len(),
            r@ == scalar_locals_upto(*site, recipes@, i as int),
        decreases recipes.len() - i,
    {
        let c = &recipes[i];
        if c.site == *site && (c.treatment == ChannelTreatment::Lo || c.treatment == ChannelTreatment::Hdlo) {
            match c.identity {
                ChannelIdentity::ScalarL { l, .. } => {
                    r.push((i, l));
                },
                ChannelIdentity::Kappa { .. } => {},
            }
        }
        i = i + 1;
    }
    r
}

/// Spinor requests `(recipe position, kappa)` of the site's local-orbital
/// recipes among the first `upto`, or the first rejection.
pub open spec fn spinor_locals_upto(site: String, recipes: Seq<ChannelRecipeShape>, kappa_ok: Seq<bool>, upto: int) -> Result<Seq<(usize, i32)>, BaseChannelError>
    decreases upto,
{
    if upto <= 0 {
        Ok(Seq::empty())
    } else {
        match spinor_locals_upto(site, recipes, kappa_ok, upto - 1) {
            Err(e) => Err(e),
            Ok(prev) => {
                let c = recipes[upto - 1];
                if !local_of(c, site) {
                    Ok(prev)
                } else {
                    match c.identity {
                        ChannelIdentity::ScalarL { l, .. } => if l >= i32::MAX {
                            Err(BaseChannelError::AngularMomentumOverflow { l })
                        } else {
                            Ok(prev + partners(l).map_values(|k: i32| ((upto - 1) as usize, k)))
                        },
                        ChannelIdentity::Kappa { kappa, .. } => if !kappa_ok[upto - 1] {
                            Err(BaseChannelError::Kappa { kappa })
                        } else {
                            Ok(prev.push(((upto - 1) as usize, kappa)))
                        },
                    }
                }
            },
        }
    }
}

/// Once a local-orbital recipe is rejected the rejection is the result.
proof fn lemma_locals_err_sticks(site: String, recipes: Seq<ChannelRecipeShape>, kappa_ok: Seq<bool>, a: int, b: int)
    requires
        0 <= a <= b,
        spinor_locals_upto(site, recipes, kappa_ok, a) is Err,
    ensures
        spinor_locals_upto(site, recipes, kappa_ok, b) == spinor_locals_upto(site, recipes, kappa_ok, a),
    decreases b - a,
{
    if a < b {
        lemma_locals_err_sticks(site, recipes, kappa_ok, a, b - 1);
    }
}

/// The spinor route's local orbitals of a site: for each LO or HDLO recipe
/// of the site, in order, one request per Dirac channel it names (both
/// partners of a scalar `l`), as `(recipe position, kappa)`; the LO energy
/// of each is the recipe's energy for that `kappa`. `kappa_ok[i]` says
/// whether recipe `i`'s `kappa` names a Dirac channel.
pub fn spinor_resolved_local_orbitals(site: &String, recipes: &Vec<ChannelRecipeShape>, kappa_ok: &Vec<bool>) -> (r: Result<Vec<(usize, i32)>, BaseChannelError>)
    requires
        kappa_ok.len() == recipes.len(),
    ensures
        match spinor_locals_upto(*site, recipes@, kappa_ok@, recipes.len() as int) {
            Ok(requests) => r matches Ok(v) && v@ == requests,
            Err(e) => r == Err::<Vec<(usize, i32)>, BaseChannelError>(e),
        },
{
    let mut out: Vec<(usize, i32)> = Vec::new();
    let mut i: usize = 0;
    while i < recipes.len()
        invariant
            i <= recipes.len() == kappa_ok.len(),
            spinor_locals_upto(*site, recipes@, kappa_ok@, i as int) == Ok::<Seq<(usize, i32)>, BaseChannelError>(out@),
        decreases recipes.len() - i,
    {
        let c = &recipes[i];
        if c.site == *site && (c.treatment == ChannelTreatment::Lo || c.treatment == ChannelTreatment::Hdlo) {
            match c.identity {
                ChannelIdentity::ScalarL { l, .. } => {
                    match spinor_kappas_for_l(l) {
                        None => {
                            proof {
                                lemma_locals_err_sticks(*site, recipes@, kappa_ok@, i as int + 1, recipes.len() as int);
                            }
                            return Err(BaseChannelError::AngularMomentumOverflow { l });
                        },
                        Some(kappas) => {
                            let ghost prefix = out@;
                            proof {
                                assert(kappas@ =~= partners(l));
                            }
                            let mut p: usize = 0;
                            while p < kappas.len()
                                invariant
                                    p <= kappas.len(),
                                    kappas@ == partners(l),
                                    out@ == prefix + partners(l).take(p as int).map_values(|k: i32| (i, k)),
                                decreases kappas.len() - p,
                            {
                                out.push((i, kappas[p]));
                                proof {
                                    assert(prefix + partners(l).take(p as int + 1).map_values(|k: i32| (i, k))
                                        =~= (prefix + partners(l).take(p as int).map_values(|k: i32| (i, k))).push((i, kappas@[p as int])));
                                }
                                p = p + 1;
                            }
                            proof {
                                assert(partners(l).take(kappas.len() as int) =~= partners(l));
                            }
                        },
                    }
                },
                ChannelIdentity::Kappa { kappa, .. } => {
                    if !kappa_ok[i] {
                        proof {
                            lemma_locals_err_sticks(*site, recipes@, kappa_ok@, i as int + 1, recipes.len() as int);
                        }
                        return Err(BaseChannelError::Kappa { kappa });
                    }
                    out.push((i, kappa));
                },
            }
        }
        i = i + 1;
    }
    Ok(out)
}

} // verus!
