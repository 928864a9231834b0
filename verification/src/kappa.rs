//! Relativistic quantum numbers: the signed Dirac `kappa`, its orbital
//! angular momentum, total angular momentum `2j` and the `2mu` channels.
use vstd::prelude::*;

verus! {

/// Orbital angular momentum `l` of a Dirac channel: `l = kappa` for
/// `kappa > 0` and `l = -kappa - 1` for `kappa < 0`.
pub open spec fn spec_l_of_kappa(kappa: int) -> int {
    if kappa > 0 {
        kappa
    } else {
        -kappa - 1
    }
}

/// `|kappa|`.
pub open spec fn spec_abs(kappa: int) -> int {
    if kappa < 0 {
        -kappa
    } else {
        kappa
    }
}

/// Twice the total angular momentum: `2j = 2|kappa| - 1`.
pub open spec fn spec_twice_j(kappa: int) -> int {
    2 * spec_abs(kappa) - 1
}

/// Number of magnetic channels of a shell: `2j + 1 = 2|kappa|`.
pub open spec fn spec_degeneracy(kappa: int) -> int {
    2 * spec_abs(kappa)
}

/// The `i`-th magnetic channel `2mu = -2j + 2i` in ascending order.
pub open spec fn spec_twice_mu_at(kappa: int, i: int) -> int {
    -spec_twice_j(kappa) + 2 * i
}

/// Position of `2mu` among the ascending channels of `kappa`, if it is one.
pub open spec fn spec_mu_index(kappa: int, twice_mu: int) -> Option<int> {
    let twice_j = spec_twice_j(kappa);
    if twice_mu < -twice_j || twice_mu > twice_j || (twice_mu + twice_j) % 2 != 0 {
        None
    } else {
        Some((twice_mu + twice_j) / 2)
    }
}

/// A usable Dirac quantum number: nonzero and small enough that `2|kappa|`
/// fits the signed 32-bit range.
pub open spec fn valid_kappa(kappa: i32) -> bool {
    kappa != 0 && -0x3fff_ffff <= kappa <= 0x3fff_ffff
}

/// Orbital angular momentum of `kappa`.
///
/// A nonpositive `kappa` gives `-kappa - 1` in the unsigned type, so `0`
/// gives `u32::MAX`, as the two's-complement conversion does.
pub fn angular_momentum_from_kappa(kappa: i32) -> (l: u32)
    requires
        kappa != i32::MIN,
    ensures
        kappa != 0 ==> l == spec_l_of_kappa(kappa as int),
        kappa == 0 ==> l == u32::MAX,
{
    if kappa > 0 {
        kappa as u32
    } else if kappa == 0 {
        u32::MAX
    } else {
        (-kappa - 1) as u32
    }
}

/// `2j` of a valid `kappa`.
pub fn twice_j(kappa: i32) -> (r: i32)
    requires
        valid_kappa(kappa),
    ensures
        r == spec_twice_j(kappa as int),
        r >= 1,
{
    if kappa < 0 {
        2 * (-kappa) - 1
    } else {
        2 * kappa - 1
    }
}

/// Number of magnetic channels `2|kappa|` of a valid `kappa`.
pub fn degeneracy(kappa: i32) -> (r: u32)
    requires
        valid_kappa(kappa),
    ensures
        r == spec_degeneracy(kappa as int),
        r >= 2,
{
    if kappa < 0 {
        (2 * (-kappa)) as u32
    } else {
        (2 * kappa) as u32
    }
}

/// The ascending magnetic channels `-2j, -2j + 2, ..., 2j` of `kappa`.
pub fn twice_mu_values(kappa: i32) -> (values: Vec<i64>)
    requires
        valid_kappa(kappa),
    ensures
        values.len() == spec_degeneracy(kappa as int),
        forall|i: int|
            0 <= i < values.len() ==> #[trigger] values[i] == spec_twice_mu_at(kappa as int, i),
{
    let twice_j = twice_j(kappa) as i64;
    let count = degeneracy(kappa) as usize;
    let mut values: Vec<i64> = Vec::new();
    let mut i: usize = 0;
    while i < count
        invariant
            i <= count,
            count == spec_degeneracy(kappa as int),
            twice_j == spec_twice_j(kappa as int),
            values.len() == i,
            forall|k: int|
                0 <= k < i ==> #[trigger] values[k] == spec_twice_mu_at(kappa as int, k),
        decreases count - i,
    {
        values.push(-twice_j + 2 * (i as i64));
        i = i + 1;
    }
    values
}

/// Position of `2mu` in the ascending channel list of `kappa`, or `None`
/// when `2mu` is not one of its channels.
pub fn mu_index(kappa: i32, twice_mu: i64) -> (r: Option<usize>)
    requires
        valid_kappa(kappa),
    ensures
        match spec_mu_index(kappa as int, twice_mu as int) {
            Some(i) => r == Some(i as usize),
            None => r is None,
        },
{
    let twice_j = twice_j(kappa) as i64;
    if twice_mu < -twice_j || twice_mu > twice_j || (twice_mu + twice_j) % 2 != 0 {
        return None;
    }
    Some(((twice_mu + twice_j) / 2) as usize)
}

/// The Dirac channels of orbital angular momentum `l`: `kappa = -(l + 1)`,
/// followed by `kappa = l` when `l > 0`. `None` when `l + 1` leaves the
/// signed 32-bit range.
pub fn spinor_kappas_for_l(l: u32) -> (kappas: Option<Vec<i32>>)
    ensures
        match kappas {
            None => l >= i32::MAX,
            Some(ks) => {
                &&& l < i32::MAX
                &&& ks.len() == (if l == 0 { 1int } else { 2int })
                &&& ks[0] == -(l + 1)
                &&& l > 0 ==> ks[1] == l
            },
        },
{
    if l >= i32::MAX as u32 {
        return None;
    }
    let li = l as i32;
    let mut kappas: Vec<i32> = Vec::new();
    kappas.push(-(li + 1));
    if li != 0 {
        kappas.push(li);
    }
    Some(kappas)
}

/// The channel at position `i` of `kappa` has position `i`:
/// `mu_index` inverts the ascending enumeration of `2mu`.
pub proof fn lemma_mu_index_inverts_enumeration(kappa: int, i: int)
    requires
        kappa != 0,
        0 <= i < spec_degeneracy(kappa),
    ensures
        spec_mu_index(kappa, spec_twice_mu_at(kappa, i)) == Some(i),
{
    let tj = spec_twice_j(kappa);
    let tm = spec_twice_mu_at(kappa, i);
    assert(tm + tj == 2 * i);
    assert((2 * i) % 2 == 0);
    assert((2 * i) / 2 == i);
}

/// Every channel of `kappa` has the orbital angular momentum it was asked
/// for: both Dirac partners of `l` have `l_of_kappa == l`.
pub proof fn lemma_spinor_kappas_share_l(l: int)
    requires
        l >= 0,
    ensures
        spec_l_of_kappa(-(l + 1)) == l,
        l > 0 ==> spec_l_of_kappa(l) == l,
{
}

} // verus!
