//! Valence radial identities of a solved site: per scalar `l` or per Dirac
//! `kappa`, the APW base, its energy derivative and then the local
//! orbitals in ordinal order.
use vstd::prelude::*;
use crate::spinor_layout::{DiracRadialKey, RadialShell, spec_shells, find_kappa, lo_increment};

verus! {

/// The scalar `l` of a site does not fit `u32`.
#[derive(Clone, Copy, Debug, PartialEq, Eq, Structural)]
pub struct AngularMomentumOverflow;

// ---------------------------------------------------------------------
// Specification.

/// Radials `(l, n)` of one scalar `l` with `lo_count` local orbitals:
/// `n = 0, 1` for `u`, `udot`, then `n = 2 + ordinal`.
pub open spec fn scalar_l_keys(l: int, lo_count: int) -> Seq<(u32, usize)> {
    Seq::new((lo_count + 2) as nat, |i: int| (l as u32, i as usize))
}

/// Local orbitals of `l`: the site's list for `l`, none past its end.
pub open spec fn lo_count_at(lo_counts: Seq<usize>, l: int) -> int {
    if l < lo_counts.len() {
        lo_counts[l] as int
    } else {
        0
    }
}

/// Radials of the first `upto` linearized `l` of a site.
pub open spec fn scalar_keys(lo_counts: Seq<usize>, upto: int) -> Seq<(u32, usize)>
    decreases upto,
{
    if upto <= 0 {
        Seq::empty()
    } else {
        scalar_keys(lo_counts, upto - 1) + scalar_l_keys(upto - 1, lo_count_at(lo_counts, upto - 1))
    }
}

/// Radials of one Dirac solution `kappa` with `lo_count` local orbitals:
/// `n = 0, 1` for `(P, Q)` and its energy derivative, then `n = 2 + ordinal`.
pub open spec fn solution_keys(kappa: i32, lo_count: usize) -> Seq<DiracRadialKey> {
    Seq::new((lo_count + 2) as nat, |i: int| DiracRadialKey { kappa, n: i as usize })
}

/// Radials of the first `upto` solutions `(kappa, lo_count)`.
pub open spec fn spinor_keys(solutions: Seq<(i32, usize)>, upto: int) -> Seq<DiracRadialKey>
    decreases upto,
{
    if upto <= 0 {
        Seq::empty()
    } else {
        spinor_keys(solutions, upto - 1) + solution_keys(solutions[upto - 1].0, solutions[upto - 1].1)
    }
}

/// One shell per solution, in solution order.
pub open spec fn solution_shells(solutions: Seq<(i32, usize)>, upto: int) -> Seq<RadialShell> {
    Seq::new(upto as nat, |i: int| RadialShell { kappa: solutions[i].0, lo_count: solutions[i].1 })
}

// ---------------------------------------------------------------------
// Proof.

/// `find_kappa` after appending a shell.
proof fn lemma_find_kappa_push(shells: Seq<RadialShell>, x: RadialShell, kappa: i32)
    ensures
        find_kappa(shells.push(x), kappa) == (if find_kappa(shells, kappa) >= 0 {
            find_kappa(shells, kappa)
        } else if x.kappa == kappa {
            shells.len() as int
        } else {
            -1
        }),
{
    assert(shells.push(x).drop_last() =~= shells);
}

/// A `kappa` that no shell has is not found.
proof fn lemma_find_kappa_absent(shells: Seq<RadialShell>, kappa: i32)
    requires
        forall|i: int| 0 <= i < shells.len() ==> (#[trigger] shells[i]).kappa != kappa,
    ensures
        find_kappa(shells, kappa) == -1,
    decreases shells.len(),
{
    if shells.len() > 0 {
        lemma_find_kappa_absent(shells.drop_last(), kappa);
    }
}

/// Appending the first `t` radials of a solution whose `kappa` is new opens
/// one shell at the end and counts the local orbitals among them.
proof fn lemma_block_shells(prefix: Seq<DiracRadialKey>, kappa: i32, lo_count: usize, t: int)
    requires
        0 <= t <= lo_count + 2,
        lo_count + 2 <= usize::MAX,
        find_kappa(spec_shells(prefix), kappa) == -1,
    ensures
        t == 0 ==> spec_shells(prefix + solution_keys(kappa, lo_count).take(t)) == spec_shells(prefix),
        t > 0 ==> spec_shells(prefix + solution_keys(kappa, lo_count).take(t))
            == spec_shells(prefix).push(RadialShell { kappa, lo_count: (if t >= 2 { t - 2 } else { 0 }) as usize }),
    decreases t,
{
    let block = solution_keys(kappa, lo_count);
    let sp = spec_shells(prefix);
    if t == 0 {
        assert(prefix + block.take(0) =~= prefix);
    } else {
        lemma_block_shells(prefix, kappa, lo_count, t - 1);
        let before = prefix + block.take(t - 1);
        let after = prefix + block.take(t);
        assert(after =~= before.push(block[t - 1]));
        assert(after.drop_last() =~= before);
        assert(block[t - 1] == DiracRadialKey { kappa, n: (t - 1) as usize });
        if t == 1 {
            assert(spec_shells(before) == sp);
            assert(lo_increment(0) == 0);
        } else {
            let shell = RadialShell { kappa, lo_count: (if t - 1 >= 2 { t - 3 } else { 0 }) as usize };
            assert(spec_shells(before) == sp.push(shell));
            lemma_find_kappa_push(sp, shell, kappa);
            assert(find_kappa(spec_shells(before), kappa) == sp.len());
            assert(sp.push(shell).update(sp.len() as int, RadialShell {
                kappa,
                lo_count: (shell.lo_count + lo_increment((t - 1) as usize)) as usize,
            }) =~= sp.push(RadialShell { kappa, lo_count: (if t >= 2 { t - 2 } else { 0 }) as usize }));
        }
    }
}

/// A solved site with pairwise distinct solution `kappa` values has one
/// shell per solution, in solution order, with that solution's number of
/// local orbitals: its valence radials fill the spinor site-projection
/// layout shell by shell.
pub proof fn lemma_spinor_keys_shells(solutions: Seq<(i32, usize)>, upto: int)
    requires
        0 <= upto <= solutions.len(),
        forall|i: int| 0 <= i < solutions.len() ==> (#[trigger] solutions[i]).1 <= usize::MAX - 2,
        forall|i: int, j: int| 0 <= i < j < solutions.len() ==> (#[trigger] solutions[i]).0 != (#[trigger] solutions[j]).0,
    ensures
        spec_shells(spinor_keys(solutions, upto)) == solution_shells(solutions, upto),
    decreases upto,
{
    if upto > 0 {
        lemma_spinor_keys_shells(solutions, upto - 1);
        let prev_keys = spinor_keys(solutions, upto - 1);
        let prev = solution_shells(solutions, upto - 1);
        let (kappa, lo_count) = solutions[upto - 1];
        assert forall|i: int| 0 <= i < prev.len() implies (#[trigger] prev[i]).kappa != kappa by {
            assert(solutions[i].0 != solutions[upto - 1].0);
        }
        lemma_find_kappa_absent(prev, kappa);
        lemma_block_shells(prev_keys, kappa, lo_count, lo_count + 2);
        let block = solution_keys(kappa, lo_count);
        assert(block.take(lo_count + 2) =~= block);
        assert(prev.push(RadialShell { kappa, lo_count }) =~= solution_shells(solutions, upto));
    }
}

// ---------------------------------------------------------------------
// Implementation.

/// Valence radials `(l, n)` of a scalar site with `n_l` linearized `l`
/// and `lo_counts[l]` local orbitals per `l` (none past its end), or
/// `AngularMomentumOverflow` when an `l` does not fit `u32`.
pub fn scalar_valence_keys(n_l: usize, lo_counts: &Vec<usize>) -> (r: Result<Vec<(u32, usize)>, AngularMomentumOverflow>)
    requires
        forall|l: int| 0 <= l < lo_counts.len() ==> #[trigger] lo_counts@[l] <= usize::MAX - 2,
    ensures
        match r {
            Ok(keys) => n_l <= 0x1_0000_0000 && keys@ == scalar_keys(lo_counts@, n_l as int),
            Err(_) => n_l > 0x1_0000_0000,
        },
{
    let mut keys: Vec<(u32, usize)> = Vec::new();
    let mut l: usize = 0;
    while l < n_l
        invariant
            l <= n_l,
            l <= 0x1_0000_0000,
            forall|l2: int| 0 <= l2 < lo_counts.len() ==> #[trigger] lo_counts@[l2] <= usize::MAX - 2,
            keys@ == scalar_keys(lo_counts@, l as int),
        decreases n_l - l,
    {
        if (l as u64) > 0xffff_ffffu64 {
            return Err(AngularMomentumOverflow);
        }
        let count: usize = if l < lo_counts.len() { lo_counts[l] } else { 0 };
        let lu = l as u32;
        let ghost prefix = keys@;
        let mut i: usize = 0;
        while i < count + 2
            invariant
                i <= count + 2,
                count + 2 <= usize::MAX,
                count == lo_count_at(lo_counts@, l as int),
                lu == l,
                keys@ == prefix + scalar_l_keys(l as int, count as int).take(i as int),
            decreases count + 2 - i,
        {
            keys.push((lu, i));
            proof {
                assert(prefix + scalar_l_keys(l as int, count as int).take(i as int + 1)
                    =~= (prefix + scalar_l_keys(l as int, count as int).take(i as int)).push((lu, i)));
            }
            i = i + 1;
        }
        proof {
            assert(scalar_l_keys(l as int, count as int).take(count as int + 2) =~= scalar_l_keys(l as int, count as int));
        }
        l = l + 1;
    }
    Ok(keys)
}

/// Valence radials of a Dirac site: for each solution `(kappa, lo_count)`
/// in order, `(kappa, P)`, `(kappa, Pdot)`, then its local orbitals.
pub fn spinor_valence_keys(solutions: &Vec<(i32, usize)>) -> (keys: Vec<DiracRadialKey>)
    requires
        forall|s: int| 0 <= s < solutions.len() ==> (#[trigger] solutions@[s]).1 <= usize::MAX - 2,
    ensures
        keys@ == spinor_keys(solutions@, solutions.len() as int),
{
    let mut keys: Vec<DiracRadialKey> = Vec::new();
    let mut s: usize = 0;
    while s < solutions.len()
        invariant
            s <= solutions.len(),
            forall|s2: int| 0 <= s2 < solutions.len() ==> (#[trigger] solutions@[s2]).1 <= usize::MAX - 2,
            keys@ == spinor_keys(solutions@, s as int),
        decreases solutions.len() - s,
    {
        let (kappa, count) = solutions[s];
        let ghost prefix = keys@;
        let mut i: usize = 0;
        while i < count + 2
            invariant
                s < solutions.len(),
                solutions@[s as int] == (kappa, count),
                i <= count + 2,
                count + 2 <= usize::MAX,
                keys@ == prefix + solution_keys(kappa, count).take(i as int),
            decreases count + 2 - i,
        {
            keys.push(DiracRadialKey { kappa, n: i });
            proof {
                assert(prefix + solution_keys(kappa, count).take(i as int + 1)
                    =~= (prefix + solution_keys(kappa, count).take(i as int)).push(DiracRadialKey { kappa, n: i }));
            }
            i = i + 1;
        }
        proof {
            assert(solution_keys(kappa, count).take(count as int + 2) =~= solution_keys(kappa, count));
        }
        s = s + 1;
    }
    keys
}

/// Whether two sites' valence radial identities agree: as many sites, and
/// per site the same `(kappa, n)` list.
pub fn same_radial_identity(expected: &Vec<Vec<DiracRadialKey>>, actual: &Vec<Vec<DiracRadialKey>>) -> (r: bool)
    ensures
        r <==> (expected.len() == actual.len() && forall|s: int| 0 <= s < expected.len() ==> (#[trigger] expected@[s])@ == actual@[s]@),
{
    if expected.len() != actual.len() {
        return false;
    }
    let mut s: usize = 0;
    while s < expected.len()
        invariant
            s <= expected.len() == actual.len(),
            forall|s2: int| 0 <= s2 < s ==> (#[trigger] expected@[s2])@ == actual@[s2]@,
        decreases expected.len() - s,
    {
        let left = &expected[s];
        let right = &actual[s];
        if left.len() != right.len() {
            return false;
        }
        let mut i: usize = 0;
        while i < left.len()
            invariant
                s < expected.len() == actual.len(),
                *left == expected@[s as int],
                *right == actual@[s as int],
                i <= left.len() == right.len(),
                forall|i2: int| 0 <= i2 < i ==> (#[trigger] left@[i2]) == right@[i2],
            decreases left.len() - i,
        {
            if left[i].kappa != right[i].kappa || left[i].n != right[i].n {
                return false;
            }
            i = i + 1;
        }
        proof {
            assert(left@ =~= right@);
        }
        s = s + 1;
    }
    true
}

} // verus!
