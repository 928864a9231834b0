//! Spinor APW matching channels of one site and the projection coordinate
//! tables of the MLDUMP export: APW `(P, Pdot)` per channel, then confined
//! LO/RLO functions per `kappa` shell, magnetic channel and ordinal.
use vstd::prelude::*;
use crate::kappa::{valid_kappa, spec_degeneracy, spec_twice_mu_at, degeneracy, twice_mu_values};
use crate::mldump_tables::stored;
use crate::spinor_layout::SPINOR_RADIAL_LO0;

verus! {

/// One relativistic APW matching channel `(kappa, 2mu)`.
#[derive(Clone, Copy, Debug, PartialEq, Eq, Structural)]
pub struct RelativisticChannel {
    pub kappa: i32,
    pub twice_mu: i64,
}

/// A site's APW channel list is not in canonical order.
#[derive(Clone, Copy, Debug, PartialEq, Eq, Structural)]
pub enum ChannelSequenceError {
    /// A new `kappa` run repeats an earlier `kappa` or does not increase.
    KappaOrder { kappa: i32 },
    /// The runs are ordered but do not list each `kappa`'s channels in
    /// ascending `2mu`, each exactly once.
    Sequence,
}

/// Projection coordinate tables of one site.
#[derive(Debug, PartialEq, Eq)]
pub struct SiteProjectionTables {
    pub n_projection: usize,
    pub n_apw_projection: usize,
    pub coordinate: Vec<i64>,
    pub signed_kappa: Vec<i64>,
    pub twice_mu: Vec<i64>,
    pub radial_n: Vec<i64>,
}

// ---------------------------------------------------------------------
// Specification.

/// The `kappa` runs of the first `upto` channels, or the `kappa` of the
/// first run that repeats an earlier one or does not increase.
pub open spec fn kappa_runs(channels: Seq<RelativisticChannel>, upto: int) -> Result<Seq<i32>, i32>
    decreases upto,
{
    if upto <= 0 {
        Ok(Seq::empty())
    } else {
        match kappa_runs(channels, upto - 1) {
            Err(k) => Err(k),
            Ok(ks) => {
                let kappa = channels[upto - 1].kappa;
                if ks.len() > 0 && ks.last() == kappa {
                    Ok(ks)
                } else if ks.len() > 0 && (ks.contains(kappa) || kappa <= ks.last()) {
                    Err(kappa)
                } else {
                    Ok(ks.push(kappa))
                }
            },
        }
    }
}

/// The channels of one `kappa` in ascending `2mu`.
pub open spec fn kappa_channels(kappa: i32) -> Seq<RelativisticChannel> {
    Seq::new(spec_degeneracy(kappa as int) as nat, |i: int| RelativisticChannel {
        kappa,
        twice_mu: spec_twice_mu_at(kappa as int, i) as i64,
    })
}

/// The channels of the first `upto` kappas, kappa after kappa.
pub open spec fn expand(ks: Seq<i32>, upto: int) -> Seq<RelativisticChannel>
    decreases upto,
{
    if upto <= 0 {
        Seq::empty()
    } else {
        expand(ks, upto - 1) + kappa_channels(ks[upto - 1])
    }
}

/// Verdict on a site's channel list.
pub open spec fn channel_sequence_verdict(channels: Seq<RelativisticChannel>) -> Result<(), ChannelSequenceError> {
    match kappa_runs(channels, channels.len() as int) {
        Err(kappa) => Err(ChannelSequenceError::KappaOrder { kappa }),
        Ok(ks) => if expand(ks, ks.len() as int) == channels {
            Ok(())
        } else {
            Err(ChannelSequenceError::Sequence)
        },
    }
}

/// The LO/RLO rows `(kappa, 2mu, radial n)` of magnetic channel `i` of a
/// shell with `count` local orbitals.
pub open spec fn mu_block(kappa: i32, count: usize, i: int) -> Seq<(i32, i64, int)> {
    Seq::new(count as nat, |o: int| (kappa, spec_twice_mu_at(kappa as int, i) as i64, SPINOR_RADIAL_LO0 + o))
}

/// The LO/RLO rows of the first `upto` magnetic channels of a shell.
pub open spec fn shell_rows(kappa: i32, count: usize, upto: int) -> Seq<(i32, i64, int)>
    decreases upto,
{
    if upto <= 0 {
        Seq::empty()
    } else {
        shell_rows(kappa, count, upto - 1) + mu_block(kappa, count, upto - 1)
    }
}

/// The LO/RLO rows of the first `upto` shells `(kappa, count)`.
pub open spec fn lo_rows(counts: Seq<(i32, usize)>, upto: int) -> Seq<(i32, i64, int)>
    decreases upto,
{
    if upto <= 0 {
        Seq::empty()
    } else {
        lo_rows(counts, upto - 1) + shell_rows(counts[upto - 1].0, counts[upto - 1].1, spec_degeneracy(counts[upto - 1].0 as int))
    }
}

/// All LO/RLO rows of a site.
pub open spec fn all_lo_rows(counts: Seq<(i32, usize)>) -> Seq<(i32, i64, int)> {
    lo_rows(counts, counts.len() as int)
}

// ---------------------------------------------------------------------
// Proof.

/// A shorter expansion is a prefix of a longer one.
proof fn lemma_expand_prefix(ks: Seq<i32>, r: int, r2: int)
    requires
        0 <= r <= r2,
    ensures
        expand(ks, r).len() <= expand(ks, r2).len(),
        expand(ks, r2).subrange(0, expand(ks, r).len() as int) == expand(ks, r),
    decreases r2 - r,
{
    if r < r2 {
        lemma_expand_prefix(ks, r, r2 - 1);
        let a = expand(ks, r2 - 1);
        let b = kappa_channels(ks[r2 - 1]);
        assert((a + b).subrange(0, a.len() as int) =~= a);
        assert(expand(ks, r2).subrange(0, expand(ks, r).len() as int) =~= a.subrange(0, expand(ks, r).len() as int));
    }
}

/// Fewer shells give a prefix of the LO rows.
proof fn lemma_lo_rows_prefix(counts: Seq<(i32, usize)>, r: int, r2: int)
    requires
        0 <= r <= r2,
    ensures
        lo_rows(counts, r).len() <= lo_rows(counts, r2).len(),
    decreases r2 - r,
{
    if r < r2 {
        lemma_lo_rows_prefix(counts, r, r2 - 1);
    }
}

/// Fewer magnetic channels give a prefix of a shell's rows.
proof fn lemma_shell_rows_prefix(kappa: i32, count: usize, r: int, r2: int)
    requires
        0 <= r <= r2,
    ensures
        shell_rows(kappa, count, r).len() <= shell_rows(kappa, count, r2).len(),
    decreases r2 - r,
{
    if r < r2 {
        lemma_shell_rows_prefix(kappa, count, r, r2 - 1);
    }
}

// ---------------------------------------------------------------------
// Implementation.

/// Check that a site's APW channels run over strictly increasing `kappa`,
/// each run listing that `kappa`'s channels in ascending `2mu`.
pub fn require_canonical_channel_sequence(channels: &Vec<RelativisticChannel>) -> (r: Result<(), ChannelSequenceError>)
    requires
        forall|c: int| 0 <= c < channels.len() ==> valid_kappa(#[trigger] channels@[c].kappa),
    ensures
        r == channel_sequence_verdict(channels@),
{
    let mut kappas: Vec<i32> = Vec::new();
    let mut c: usize = 0;
    while c < channels.len()
        invariant
            c <= channels.len(),
            forall|c2: int| 0 <= c2 < channels.len() ==> valid_kappa(#[trigger] channels@[c2].kappa),
            kappa_runs(channels@, c as int) == Ok::<Seq<i32>, i32>(kappas@),
            forall|k: int| 0 <= k < kappas.len() ==> valid_kappa(#[trigger] kappas@[k]),
        decreases channels.len() - c,
    {
        let kappa = channels[c].kappa;
        let n = kappas.len();
        if n > 0 && kappas[n - 1] == kappa {
            c = c + 1;
            continue;
        }
        if n > 0 {
            let last = kappas[n - 1];
            let mut seen = false;
            let mut k: usize = 0;
            while k < n
                invariant
                    k <= n == kappas.len(),
                    seen == exists|k2: int| 0 <= k2 < k && kappas@[k2] == kappa,
                decreases n - k,
            {
                if kappas[k] == kappa {
                    seen = true;
                }
                k = k + 1;
            }
            if seen || kappa <= last {
                proof {
                    assert(seen ==> kappas@.contains(kappa));
                    assert(kappas@.contains(kappa) ==> seen);
                    lemma_runs_err_sticks(channels@, c as int + 1, channels.len() as int);
                }
                return Err(ChannelSequenceError::KappaOrder { kappa });
            }
            proof {
                assert(!kappas@.contains(kappa)) by {
                    if kappas@.contains(kappa) {
                        let k2 = choose|k2: int| 0 <= k2 < kappas.len() && kappas@[k2] == kappa;
                        assert(exists|k3: int| 0 <= k3 < n && kappas@[k3] == kappa);
                    }
                }
            }
        }
        kappas.push(kappa);
        c = c + 1;
    }
    let ghost ks = kappas@;
    let mut pos: usize = 0;
    let mut r: usize = 0;
    while r < kappas.len()
        invariant
            r <= kappas.len(),
            ks == kappas@,
            forall|k: int| 0 <= k < kappas.len() ==> valid_kappa(#[trigger] kappas@[k]),
            pos == expand(ks, r as int).len(),
            pos <= channels.len(),
            channels@.subrange(0, pos as int) == expand(ks, r as int),
            kappa_runs(channels@, channels.len() as int) == Ok::<Seq<i32>, i32>(ks),
        decreases kappas.len() - r,
    {
        let kappa = kappas[r];
        let deg = degeneracy(kappa) as usize;
        let values = twice_mu_values(kappa);
        let ghost block = kappa_channels(kappa);
        let mut i: usize = 0;
        while i < deg
            invariant
                i <= deg,
                deg == spec_degeneracy(kappa as int),
                kappa == ks[r as int],
                r < ks.len(),
                values.len() == deg,
                forall|j: int| 0 <= j < deg ==> #[trigger] values@[j] == spec_twice_mu_at(kappa as int, j),
                block == kappa_channels(kappa),
                pos == expand(ks, r as int).len() + i,
                pos <= channels.len(),
                channels@.subrange(0, pos as int) == expand(ks, r as int) + block.take(i as int),
                kappa_runs(channels@, channels.len() as int) == Ok::<Seq<i32>, i32>(ks),
            decreases deg - i,
        {
            let expected = RelativisticChannel { kappa, twice_mu: values[i] };
            if pos >= channels.len() || channels[pos] != expected {
                proof {
                    lemma_expand_prefix(ks, r as int + 1, ks.len() as int);
                    let full = expand(ks, ks.len() as int);
                    let upto = expand(ks, r as int + 1);
                    assert(upto == expand(ks, r as int) + block);
                    assert(upto[pos as int] == expected);
                    if full == channels@ {
                        assert(full.subrange(0, upto.len() as int)[pos as int] == upto[pos as int]);
                        assert(channels@[pos as int] == expected);
                    }
                }
                return Err(ChannelSequenceError::Sequence);
            }
            proof {
                assert(block[i as int] == expected);
                assert(channels@.subrange(0, pos as int + 1) =~= channels@.subrange(0, pos as int).push(channels@[pos as int]));
                assert(block.take(i as int + 1) =~= block.take(i as int).push(block[i as int]));
                assert(expand(ks, r as int) + block.take(i as int + 1) =~= (expand(ks, r as int) + block.take(i as int)).push(expected));
            }
            pos = pos + 1;
            i = i + 1;
        }
        proof {
            assert(block.take(deg as int) =~= block);
        }
        r = r + 1;
    }
    if pos != channels.len() {
        proof {
            assert(expand(ks, ks.len() as int).len() == pos);
        }
        return Err(ChannelSequenceError::Sequence);
    }
    proof {
        assert(channels@.subrange(0, pos as int) =~= channels@);
    }
    Ok(())
}

/// The `kappa` runs found so far strictly increase.
proof fn lemma_runs_increase(channels: Seq<RelativisticChannel>, upto: int)
    requires
        0 <= upto,
        kappa_runs(channels, upto) is Ok,
    ensures
        forall|i: int, j: int| 0 <= i < j < kappa_runs(channels, upto)->Ok_0.len()
            ==> #[trigger] kappa_runs(channels, upto)->Ok_0[i] < #[trigger] kappa_runs(channels, upto)->Ok_0[j],
    decreases upto,
{
    if upto > 0 {
        lemma_runs_increase(channels, upto - 1);
        let ks = kappa_runs(channels, upto - 1)->Ok_0;
        let kappa = channels[upto - 1].kappa;
        if !(ks.len() > 0 && ks.last() == kappa) && !(ks.len() > 0 && (ks.contains(kappa) || kappa <= ks.last())) {
            let ks2 = ks.push(kappa);
            assert forall|i: int, j: int| 0 <= i < j < ks2.len() implies #[trigger] ks2[i] < #[trigger] ks2[j] by {
                if j == ks.len() as int && i < j - 1 {
                    assert(ks[i] < ks[ks.len() - 1]);
                }
            }
        }
    }
}

/// An accepted channel list is, `kappa` after `kappa` in strictly
/// increasing order, each `kappa`'s channels in ascending `2mu`, each
/// exactly once: there is a strictly increasing `kappa` list whose
/// channel ladders, concatenated, are the list.
pub proof fn lemma_canonical_channels_shape(channels: Seq<RelativisticChannel>)
    requires
        channel_sequence_verdict(channels) is Ok,
    ensures
        exists|ks: Seq<i32>| {
            &&& forall|i: int, j: int| 0 <= i < j < ks.len() ==> #[trigger] ks[i] < #[trigger] ks[j]
            &&& channels == expand(ks, ks.len() as int)
        },
{
    lemma_runs_increase(channels, channels.len() as int);
    let ks = kappa_runs(channels, channels.len() as int)->Ok_0;
    assert(channels == expand(ks, ks.len() as int));
}

/// The runs of a canonical list, read up to the end of the ladder of
/// `ks[n - 1]`, are the first `n` kappas.
proof fn lemma_runs_of_expansion(ks: Seq<i32>, n: int)
    requires
        0 <= n <= ks.len(),
        forall|i: int, j: int| 0 <= i < j < ks.len() ==> #[trigger] ks[i] < #[trigger] ks[j],
        forall|i: int| 0 <= i < ks.len() ==> #[trigger] ks[i] != 0,
    ensures
        kappa_runs(expand(ks, ks.len() as int), expand(ks, n).len() as int) == Ok::<Seq<i32>, i32>(ks.subrange(0, n)),
    decreases n,
{
    let c = expand(ks, ks.len() as int);
    if n == 0 {
        assert(ks.subrange(0, 0) =~= Seq::<i32>::empty());
    } else {
        lemma_runs_of_expansion(ks, n - 1);
        lemma_expand_prefix(ks, n, ks.len() as int);
        let base = expand(ks, n - 1).len() as int;
        let ladder = kappa_channels(ks[n - 1]);
        assert(expand(ks, n) == expand(ks, n - 1) + ladder);
        assert(ladder.len() >= 1);
        assert forall|t: int| 0 <= t < ladder.len() implies #[trigger] c[base + t].kappa == ks[n - 1] by {
            assert(c[base + t] == c.subrange(0, expand(ks, n).len() as int)[base + t]);
            assert(expand(ks, n)[base + t] == ladder[t]);
        }
        let prev = ks.subrange(0, n - 1);
        let cur = ks.subrange(0, n);
        assert(cur =~= prev.push(ks[n - 1]));
        assert forall|t: int| 1 <= t <= ladder.len() implies #[trigger] kappa_runs(c, base + t) == Ok::<Seq<i32>, i32>(cur) by {
            lemma_runs_ladder_step(c, base, t, ks[n - 1], prev);
        }
        assert(kappa_runs(c, base + ladder.len()) == Ok::<Seq<i32>, i32>(cur));
    }
}

/// Reading `t` channels of one `kappa` run that follows runs `prev` (all
/// below `kappa`) gives the runs `prev` then `kappa`.
proof fn lemma_runs_ladder_step(c: Seq<RelativisticChannel>, base: int, t: int, kappa: i32, prev: Seq<i32>)
    requires
        0 <= base,
        1 <= t,
        base + t <= c.len(),
        kappa_runs(c, base) == Ok::<Seq<i32>, i32>(prev),
        forall|i: int| 0 <= i < prev.len() ==> #[trigger] prev[i] < kappa,
        forall|u: int| 0 <= u < t ==> #[trigger] c[base + u].kappa == kappa,
    ensures
        kappa_runs(c, base + t) == Ok::<Seq<i32>, i32>(prev.push(kappa)),
    decreases t,
{
    if t == 1 {
        assert(c[base + 0].kappa == kappa);
        if prev.contains(kappa) {
            let i = choose|i: int| 0 <= i < prev.len() && prev[i] == kappa;
            assert(prev[i] < kappa);
        }
        if prev.len() > 0 {
            assert(prev[prev.len() - 1] < kappa);
        }
    } else {
        lemma_runs_ladder_step(c, base, t - 1, kappa, prev);
        assert(c[base + (t - 1)].kappa == kappa);
        assert(prev.push(kappa).last() == kappa);
    }
}

/// A list made of the full `2mu` ladders of a strictly increasing list of
/// nonzero kappas, kappa after kappa, is accepted.
pub proof fn lemma_canonical_channels_accepted(ks: Seq<i32>)
    requires
        forall|i: int, j: int| 0 <= i < j < ks.len() ==> #[trigger] ks[i] < #[trigger] ks[j],
        forall|i: int| 0 <= i < ks.len() ==> #[trigger] ks[i] != 0,
    ensures
        channel_sequence_verdict(expand(ks, ks.len() as int)) == Ok::<(), ChannelSequenceError>(()),
{
    lemma_runs_of_expansion(ks, ks.len() as int);
    assert(ks.subrange(0, ks.len() as int) =~= ks);
}

/// Once a `kappa` run is out of order it is the verdict.
proof fn lemma_runs_err_sticks(channels: Seq<RelativisticChannel>, a: int, b: int)
    requires
        0 <= a <= b,
        kappa_runs(channels, a) is Err,
    ensures
        kappa_runs(channels, b) == kappa_runs(channels, a),
    decreases b - a,
{
    if a < b {
        lemma_runs_err_sticks(channels, a, b - 1);
    }
}

/// Projection coordinate tables of a site: coordinates `2c` and `2c + 1`
/// are `(P, Pdot)` of APW channel `c`, then the LO/RLO rows of each shell
/// `(kappa, count)` per magnetic channel, ordinal fastest. A radial `n`
/// that does not fit `i64` is stored as `i64::MIN`.
pub fn site_projection_tables(channels: &Vec<RelativisticChannel>, counts: &Vec<(i32, usize)>) -> (t: SiteProjectionTables)
    requires
        forall|s: int| 0 <= s < counts.len() ==> valid_kappa(#[trigger] counts@[s].0),
        2 * channels.len() + all_lo_rows(counts@).len() <= i64::MAX,
    ensures
        t.n_apw_projection == 2 * channels.len(),
        t.n_projection == 2 * channels.len() + all_lo_rows(counts@).len(),
        t.coordinate.len() == t.n_projection,
        t.signed_kappa.len() == t.n_projection,
        t.twice_mu.len() == t.n_projection,
        t.radial_n.len() == t.n_projection,
        forall|row: int| 0 <= row < t.n_projection ==> #[trigger] t.coordinate@[row] == row,
        forall|c: int, n: int| 0 <= c < channels.len() && 0 <= n < 2 ==> {
            &&& #[trigger] t.signed_kappa@[2 * c + n] == channels@[c].kappa
            &&& t.twice_mu@[2 * c + n] == channels@[c].twice_mu
            &&& t.radial_n@[2 * c + n] == n
        },
        forall|x: int| 0 <= x < all_lo_rows(counts@).len() ==> {
            &&& #[trigger] t.signed_kappa@[2 * channels.len() + x] == all_lo_rows(counts@)[x].0
            &&& t.twice_mu@[2 * channels.len() + x] == all_lo_rows(counts@)[x].1
            &&& t.radial_n@[2 * channels.len() + x] == stored(all_lo_rows(counts@)[x].2)
        },
{
    let n_channel = channels.len();
    let mut coordinate: Vec<i64> = Vec::new();
    let mut signed_kappa: Vec<i64> = Vec::new();
    let mut twice_mu: Vec<i64> = Vec::new();
    let mut radial_n: Vec<i64> = Vec::new();
    let ghost lo_all = all_lo_rows(counts@);
    proof {
        lemma_lo_rows_prefix(counts@, 0, counts.len() as int);
    }
    let mut c: usize = 0;
    while c < n_channel
        invariant
            c <= n_channel == channels.len(),
            2 * channels.len() + lo_all.len() <= i64::MAX,
            coordinate.len() == 2 * c,
            signed_kappa.len() == 2 * c,
            twice_mu.len() == 2 * c,
            radial_n.len() == 2 * c,
            forall|row: int| 0 <= row < 2 * c ==> #[trigger] coordinate@[row] == row,
            forall|c2: int, n: int| 0 <= c2 < c && 0 <= n < 2 ==> {
                &&& #[trigger] signed_kappa@[2 * c2 + n] == channels@[c2].kappa
                &&& twice_mu@[2 * c2 + n] == channels@[c2].twice_mu
                &&& radial_n@[2 * c2 + n] == n
            },
        decreases n_channel - c,
    {
        let ch = channels[c];
        let base = (2 * c) as i64;
        let ghost sk0 = signed_kappa@;
        let ghost tm0 = twice_mu@;
        let ghost rn0 = radial_n@;
        coordinate.push(base);
        signed_kappa.push(ch.kappa as i64);
        twice_mu.push(ch.twice_mu);
        radial_n.push(0);
        coordinate.push(base + 1);
        signed_kappa.push(ch.kappa as i64);
        twice_mu.push(ch.twice_mu);
        radial_n.push(1);
        proof {
            assert forall|c2: int, n: int| 0 <= c2 < c + 1 && 0 <= n < 2 implies {
                &&& #[trigger] signed_kappa@[2 * c2 + n] == channels@[c2].kappa
                &&& twice_mu@[2 * c2 + n] == channels@[c2].twice_mu
                &&& radial_n@[2 * c2 + n] == n
            } by {
                let idx = 2 * c2 + n;
                if c2 < c {
                    assert(idx < 2 * c);
                    assert(signed_kappa@[idx] == sk0[idx]);
                    assert(twice_mu@[idx] == tm0[idx]);
                    assert(radial_n@[idx] == rn0[idx]);
                } else {
                    assert(idx == 2 * c || idx == 2 * c + 1);
                }
            }
        }
        c = c + 1;
    }
    let apw = 2 * n_channel;
    let mut s: usize = 0;
    while s < counts.len()
        invariant
            s <= counts.len(),
            n_channel == channels.len(),
            apw == 2 * n_channel,
            forall|s2: int| 0 <= s2 < counts.len() ==> valid_kappa(#[trigger] counts@[s2].0),
            lo_all == all_lo_rows(counts@),
            apw + lo_all.len() <= i64::MAX,
            lo_rows(counts@, s as int).len() <= lo_all.len(),
            coordinate.len() == apw + lo_rows(counts@, s as int).len(),
            signed_kappa.len() == coordinate.len(),
            twice_mu.len() == coordinate.len(),
            radial_n.len() == coordinate.len(),
            forall|row: int| 0 <= row < coordinate.len() ==> #[trigger] coordinate@[row] == row,
            forall|c2: int, n: int| 0 <= c2 < n_channel && 0 <= n < 2 ==> {
                &&& #[trigger] signed_kappa@[2 * c2 + n] == channels@[c2].kappa
                &&& twice_mu@[2 * c2 + n] == channels@[c2].twice_mu
                &&& radial_n@[2 * c2 + n] == n
            },
            forall|x: int| 0 <= x < lo_rows(counts@, s as int).len() ==> {
                &&& #[trigger] signed_kappa@[apw + x] == lo_rows(counts@, s as int)[x].0
                &&& twice_mu@[apw + x] == lo_rows(counts@, s as int)[x].1
                &&& radial_n@[apw + x] == stored(lo_rows(counts@, s as int)[x].2)
            },
        decreases counts.len() - s,
    {
        let (kappa, count) = counts[s];
        let deg = degeneracy(kappa) as usize;
        let values = twice_mu_values(kappa);
        let ghost prev = lo_rows(counts@, s as int);
        proof {
            lemma_lo_rows_prefix(counts@, s as int + 1, counts.len() as int);
            lemma_shell_rows_prefix(kappa, count, 0, deg as int);
            assert(prev + shell_rows(kappa, count, 0) =~= prev);
        }
        let mut i: usize = 0;
        while i < deg
            invariant
                i <= deg,
                deg == spec_degeneracy(kappa as int),
                s < counts.len(),
                counts@[s as int] == (kappa, count),
                values.len() == deg,
                forall|j: int| 0 <= j < deg ==> #[trigger] values@[j] == spec_twice_mu_at(kappa as int, j),
                n_channel == channels.len(),
                apw == 2 * n_channel,
                prev == lo_rows(counts@, s as int),
                lo_rows(counts@, s as int + 1) == prev + shell_rows(kappa, count, deg as int),
                shell_rows(kappa, count, i as int).len() <= shell_rows(kappa, count, deg as int).len(),
                lo_rows(counts@, s as int + 1).len() <= lo_all.len(),
                apw + lo_all.len() <= i64::MAX,
                coordinate.len() == apw + prev.len() + shell_rows(kappa, count, i as int).len(),
                signed_kappa.len() == coordinate.len(),
                twice_mu.len() == coordinate.len(),
                radial_n.len() == coordinate.len(),
                forall|row: int| 0 <= row < coordinate.len() ==> #[trigger] coordinate@[row] == row,
                forall|c2: int, n: int| 0 <= c2 < n_channel && 0 <= n < 2 ==> {
                    &&& #[trigger] signed_kappa@[2 * c2 + n] == channels@[c2].kappa
                    &&& twice_mu@[2 * c2 + n] == channels@[c2].twice_mu
                    &&& radial_n@[2 * c2 + n] == n
                },
                forall|x: int| 0 <= x < prev.len() + shell_rows(kappa, count, i as int).len() ==> {
                    &&& #[trigger] signed_kappa@[apw + x] == (prev + shell_rows(kappa, count, i as int))[x].0
                    &&& twice_mu@[apw + x] == (prev + shell_rows(kappa, count, i as int))[x].1
                    &&& radial_n@[apw + x] == stored((prev + shell_rows(kappa, count, i as int))[x].2)
                },
            decreases deg - i,
        {
            let tm = values[i];
            let ghost block = mu_block(kappa, count, i as int);
            let ghost before = prev + shell_rows(kappa, count, i as int);
            proof {
                lemma_shell_rows_prefix(kappa, count, i as int + 1, deg as int);
                assert(shell_rows(kappa, count, i as int + 1) == shell_rows(kappa, count, i as int) + block);
            }
            let mut o: usize = 0;
            while o < count
                invariant
                    o <= count,
                    s < counts.len(),
                    i < deg,
                    tm == spec_twice_mu_at(kappa as int, i as int),
                    block == mu_block(kappa, count, i as int),
                    before == prev + shell_rows(kappa, count, i as int),
                    n_channel == channels.len(),
                    apw == 2 * n_channel,
                    before.len() + block.len() <= lo_all.len(),
                    apw + lo_all.len() <= i64::MAX,
                    coordinate.len() == apw + before.len() + o,
                    signed_kappa.len() == coordinate.len(),
                    twice_mu.len() == coordinate.len(),
                    radial_n.len() == coordinate.len(),
                    forall|row: int| 0 <= row < coordinate.len() ==> #[trigger] coordinate@[row] == row,
                    forall|c2: int, n: int| 0 <= c2 < n_channel && 0 <= n < 2 ==> {
                        &&& #[trigger] signed_kappa@[2 * c2 + n] == channels@[c2].kappa
                        &&& twice_mu@[2 * c2 + n] == channels@[c2].twice_mu
                        &&& radial_n@[2 * c2 + n] == n
                    },
                    forall|x: int| 0 <= x < before.len() + o ==> {
                        &&& #[trigger] signed_kappa@[apw + x] == (before + block.take(o as int))[x].0
                        &&& twice_mu@[apw + x] == (before + block.take(o as int))[x].1
                        &&& radial_n@[apw + x] == stored((before + block.take(o as int))[x].2)
                    },
                decreases count - o,
            {
                let row = coordinate.len();
                let ghost sk0 = signed_kappa@;
                let ghost tm0 = twice_mu@;
                let ghost rn0 = radial_n@;
                coordinate.push(row as i64);
                signed_kappa.push(kappa as i64);
                twice_mu.push(tm);
                let n_value: i64 = if (o as u64) <= 0x7fff_ffff_ffff_fffdu64 {
                    (o as i64) + 2
                } else {
                    i64::MIN
                };
                radial_n.push(n_value);
                proof {
                    let cur = before + block.take(o as int);
                    let next = before + block.take(o as int + 1);
                    assert(next =~= cur.push(block[o as int]));
                    assert(block[o as int] == (kappa, tm, SPINOR_RADIAL_LO0 + o));
                    assert forall|x: int| 0 <= x < before.len() + o + 1 implies {
                        &&& #[trigger] signed_kappa@[apw + x] == next[x].0
                        &&& twice_mu@[apw + x] == next[x].1
                        &&& radial_n@[apw + x] == stored(next[x].2)
                    } by {
                        if x < before.len() + o {
                            assert(next[x] == cur[x]);
                            assert(signed_kappa@[apw + x] == sk0[apw + x]);
                            assert(twice_mu@[apw + x] == tm0[apw + x]);
                            assert(radial_n@[apw + x] == rn0[apw + x]);
                        } else {
                            assert(apw + x == row);
                        }
                    }
                    assert forall|c2: int, n: int| 0 <= c2 < n_channel && 0 <= n < 2 implies {
                        &&& #[trigger] signed_kappa@[2 * c2 + n] == channels@[c2].kappa
                        &&& twice_mu@[2 * c2 + n] == channels@[c2].twice_mu
                        &&& radial_n@[2 * c2 + n] == n
                    } by {
                        let idx = 2 * c2 + n;
                        assert(idx < apw);
                        assert(signed_kappa@[idx] == sk0[idx]);
                        assert(twice_mu@[idx] == tm0[idx]);
                        assert(radial_n@[idx] == rn0[idx]);
                    }
                }
                o = o + 1;
            }
            proof {
                assert(block.take(count as int) =~= block);
                assert(before + block =~= prev + shell_rows(kappa, count, i as int + 1));
            }
            i = i + 1;
        }
        s = s + 1;
    }
    let n_projection = coordinate.len();
    SiteProjectionTables {
        n_projection,
        n_apw_projection: apw,
        coordinate,
        signed_kappa,
        twice_mu,
        radial_n,
    }
}

} // verus!
