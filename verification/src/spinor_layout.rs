//! Spinor site-projection layout: the live APW-then-LO coordinate order of
//! one muffin-tin site and its inverse.
//!
//! A site's valence Dirac radials group into shells by `kappa` in order of
//! first appearance. Coordinates first list every shell's APW `(P, Pdot)`
//! pair per magnetic channel (radial column fastest), then every shell's
//! confined LO/RLO functions per magnetic channel (LO ordinal fastest).
use vstd::prelude::*;
use crate::kappa::{
    valid_kappa, spec_degeneracy, spec_mu_index, spec_twice_mu_at, degeneracy, mu_index,
    twice_mu_values, lemma_mu_index_inverts_enumeration,
};
use crate::site_coords::ProductOrbitalKind;

verus! {

/// `DiracRadialId.n` of the APW base `(P, Q)`.
pub const SPINOR_RADIAL_P: usize = 0;

/// `DiracRadialId.n` of the analytic energy derivative `(Pdot, Qdot)`.
pub const SPINOR_RADIAL_PDOT: usize = 1;

/// First signed-`kappa` LO/RLO `DiracRadialId.n`.
pub const SPINOR_RADIAL_LO0: usize = 2;

/// The `(kappa, n)` identity of one valence Dirac radial of a site.
#[derive(Clone, Copy, Debug, PartialEq, Eq, Structural)]
pub struct DiracRadialKey {
    pub kappa: i32,
    pub n: usize,
}

/// Identity of one Dirac product radial: site, kind, `kappa` and ordinal.
#[derive(Clone, Copy, Debug, PartialEq, Eq, Structural)]
pub struct DiracRadialId {
    pub site: usize,
    pub kind: ProductOrbitalKind,
    pub kappa: i32,
    pub n: usize,
}

/// One `kappa` shell of a site with its number of LO/RLO radials.
#[derive(Clone, Copy, Debug, PartialEq, Eq, Structural)]
pub struct RadialShell {
    pub kappa: i32,
    pub lo_count: usize,
}

/// Position of the first shell with `kappa`, or `-1`.
pub open spec fn find_kappa(shells: Seq<RadialShell>, kappa: i32) -> int
    decreases shells.len(),
{
    if shells.len() == 0 {
        -1
    } else {
        let p = find_kappa(shells.drop_last(), kappa);
        if p >= 0 {
            p
        } else if shells.last().kappa == kappa {
            shells.len() - 1
        } else {
            -1
        }
    }
}

/// Whether a radial is a local orbital (`n >= 2`), as a count.
pub open spec fn lo_increment(n: usize) -> int {
    if n >= SPINOR_RADIAL_LO0 {
        1
    } else {
        0
    }
}

/// Shells of a radial list: each radial joins the shell of its `kappa`,
/// opening a new one at the end on first appearance, and adds to its LO
/// count when it is a local orbital.
pub open spec fn spec_shells(radials: Seq<DiracRadialKey>) -> Seq<RadialShell>
    decreases radials.len(),
{
    if radials.len() == 0 {
        Seq::empty()
    } else {
        let prev = spec_shells(radials.drop_last());
        let r = radials.last();
        let p = find_kappa(prev, r.kappa);
        if p >= 0 {
            prev.update(p, RadialShell { kappa: r.kappa, lo_count: (prev[p].lo_count + lo_increment(r.n)) as usize })
        } else {
            prev.push(RadialShell { kappa: r.kappa, lo_count: lo_increment(r.n) as usize })
        }
    }
}

/// Sum of the magnetic degeneracies of the first `s` shells.
pub open spec fn deg_prefix(shells: Seq<RadialShell>, s: int) -> int
    decreases s,
{
    if s <= 0 {
        0
    } else {
        deg_prefix(shells, s - 1) + spec_degeneracy(shells[s - 1].kappa as int)
    }
}

/// Number of LO/RLO coordinates of the first `s` shells.
pub open spec fn lo_prefix(shells: Seq<RadialShell>, s: int) -> int
    decreases s,
{
    if s <= 0 {
        0
    } else {
        lo_prefix(shells, s - 1) + spec_degeneracy(shells[s - 1].kappa as int) * shells[s - 1].lo_count
    }
}

/// Number of APW coordinates of a site: two per magnetic channel.
pub open spec fn apw_count(shells: Seq<RadialShell>) -> int {
    2 * deg_prefix(shells, shells.len() as int)
}

/// Coordinate of shell `s`, magnetic channel `mu` and radial ordinal `n`.
pub open spec fn row_of(shells: Seq<RadialShell>, s: int, mu: int, n: int) -> int {
    if n < SPINOR_RADIAL_LO0 {
        2 * (deg_prefix(shells, s) + mu) + n
    } else {
        apw_count(shells) + lo_prefix(shells, s) + mu * shells[s].lo_count + n - SPINOR_RADIAL_LO0
    }
}

/// `(s, mu, n)` names a coordinate of the site: an existing shell, one of
/// its magnetic channels, and the APW pair or one of its local orbitals.
pub open spec fn valid_slot(shells: Seq<RadialShell>, s: int, mu: int, n: int) -> bool {
    &&& 0 <= s < shells.len()
    &&& 0 <= mu < spec_degeneracy(shells[s].kappa as int)
    &&& 0 <= n < SPINOR_RADIAL_LO0 + shells[s].lo_count
}

/// Site-projection coordinate of `(kappa, 2mu, n)` on a site with these
/// radials, when `kappa` is a shell of the site, `2mu` one of its channels
/// and `n` the APW pair or one of its local orbitals.
pub open spec fn spec_site_projection_row(radials: Seq<DiracRadialKey>, kappa: i32, twice_mu: int, n: int) -> Option<int> {
    let shells = spec_shells(radials);
    let s = find_kappa(shells, kappa);
    if s < 0 {
        None
    } else {
        match spec_mu_index(kappa as int, twice_mu) {
            None => None,
            Some(mu) => if n < SPINOR_RADIAL_LO0 || n - SPINOR_RADIAL_LO0 < shells[s].lo_count {
                Some(row_of(shells, s, mu, n))
            } else {
                None
            },
        }
    }
}

/// Every radial carries a usable `kappa`.
pub open spec fn radials_valid(radials: Seq<DiracRadialKey>) -> bool {
    forall|i: int| 0 <= i < radials.len() ==> valid_kappa(#[trigger] radials[i].kappa)
}

/// A site whose radials are valid and whose coordinate count fits `usize`.
pub open spec fn site_fits(radials: Seq<DiracRadialKey>) -> bool {
    let shells = spec_shells(radials);
    &&& radials_valid(radials)
    &&& apw_count(shells) + lo_prefix(shells, shells.len() as int) <= usize::MAX
}

// ---------------------------------------------------------------------
// Facts about shells and prefix sums.

proof fn lemma_find_kappa_facts(shells: Seq<RadialShell>, kappa: i32)
    ensures
        -1 <= find_kappa(shells, kappa) < shells.len(),
        find_kappa(shells, kappa) >= 0 ==> shells[find_kappa(shells, kappa)].kappa == kappa,
        find_kappa(shells, kappa) < 0 ==> forall|i: int| 0 <= i < shells.len() ==> shells[i].kappa != kappa,
        find_kappa(shells, kappa) >= 0 ==> forall|i: int| 0 <= i < find_kappa(shells, kappa) ==> shells[i].kappa != kappa,
    decreases shells.len(),
{
    if shells.len() > 0 {
        let d = shells.drop_last();
        lemma_find_kappa_facts(d, kappa);
        assert(forall|i: int| 0 <= i < d.len() ==> d[i] == shells[i]);
    }
}

/// Shells of a radial list have pairwise distinct `kappa`, each a `kappa`
/// of the list, and LO counts bounded by the list's length.
proof fn lemma_shells_facts(radials: Seq<DiracRadialKey>)
    ensures
        forall|i: int, j: int|
            0 <= i < j < spec_shells(radials).len() ==> spec_shells(radials)[i].kappa != spec_shells(radials)[j].kappa,
        forall|i: int|
            0 <= i < spec_shells(radials).len() ==> exists|k: int| 0 <= k < radials.len() && #[trigger] spec_shells(radials)[i].kappa == radials[k].kappa,
        forall|i: int| 0 <= i < spec_shells(radials).len() ==> #[trigger] spec_shells(radials)[i].lo_count <= radials.len(),
        spec_shells(radials).len() <= radials.len(),
    decreases radials.len(),
{
    if radials.len() > 0 {
        let prev_r = radials.drop_last();
        lemma_shells_facts(prev_r);
        let prev = spec_shells(prev_r);
        let r = radials.last();
        lemma_find_kappa_facts(prev, r.kappa);
        let shells = spec_shells(radials);
        assert forall|i: int| 0 <= i < shells.len() implies exists|k: int| 0 <= k < radials.len() && #[trigger] shells[i].kappa == radials[k].kappa by {
            if i < prev.len() && shells[i].kappa == prev[i].kappa {
                let k = choose|k: int| 0 <= k < prev_r.len() && prev[i].kappa == prev_r[k].kappa;
                assert(radials[k] == prev_r[k]);
            } else {
                assert(shells[i].kappa == radials[radials.len() - 1].kappa);
            }
        }
    }
}

/// Number of local-orbital radials (`n >= 2`) of `kappa` in a radial list.
pub open spec fn lo_radial_count(radials: Seq<DiracRadialKey>, kappa: i32) -> nat {
    radials.filter(|r: DiracRadialKey| r.kappa == kappa && r.n >= SPINOR_RADIAL_LO0).len()
}

/// Every radial's `kappa` has a shell.
proof fn lemma_shells_cover(radials: Seq<DiracRadialKey>)
    ensures
        forall|k: int| #![trigger radials[k]] 0 <= k < radials.len()
            ==> exists|i: int| 0 <= i < spec_shells(radials).len() && #[trigger] spec_shells(radials)[i].kappa == radials[k].kappa,
    decreases radials.len(),
{
    if radials.len() > 0 {
        let prev_r = radials.drop_last();
        lemma_shells_cover(prev_r);
        let prev = spec_shells(prev_r);
        let r = radials.last();
        let shells = spec_shells(radials);
        lemma_find_kappa_facts(prev, r.kappa);
        let p = find_kappa(prev, r.kappa);
        assert forall|k: int| #![trigger radials[k]] 0 <= k < radials.len()
            implies exists|i: int| 0 <= i < shells.len() && #[trigger] shells[i].kappa == radials[k].kappa by {
            if k < prev_r.len() {
                assert(radials[k] == prev_r[k]);
                let i = choose|i: int| 0 <= i < prev.len() && #[trigger] prev[i].kappa == prev_r[k].kappa;
                assert(shells[i].kappa == prev[i].kappa);
            } else if p >= 0 {
                assert(shells[p].kappa == r.kappa);
            } else {
                assert(shells[prev.len() as int].kappa == r.kappa);
            }
        }
    }
}

/// A `kappa` with no shell occurs in no radial.
proof fn lemma_no_shell_absent(radials: Seq<DiracRadialKey>, kappa: i32)
    requires
        forall|i: int| 0 <= i < spec_shells(radials).len() ==> spec_shells(radials)[i].kappa != kappa,
    ensures
        forall|k: int| 0 <= k < radials.len() ==> #[trigger] radials[k].kappa != kappa,
{
    lemma_shells_cover(radials);
    assert forall|k: int| 0 <= k < radials.len() implies #[trigger] radials[k].kappa != kappa by {
        let x = radials[k];
        let i = choose|i: int| 0 <= i < spec_shells(radials).len() && #[trigger] spec_shells(radials)[i].kappa == radials[k].kappa;
        assert(spec_shells(radials)[i].kappa != kappa);
    }
}

/// Kappa `a` first appears before any occurrence of kappa `b`.
pub open spec fn appears_before(radials: Seq<DiracRadialKey>, a: i32, b: i32) -> bool {
    exists|k: int| 0 <= k < radials.len() && #[trigger] radials[k].kappa == a
        && forall|k2: int| 0 <= k2 <= k ==> radials[k2].kappa != b
}

proof fn lemma_appears_before_extends(radials: Seq<DiracRadialKey>, r: DiracRadialKey, a: i32, b: i32)
    requires
        appears_before(radials, a, b),
    ensures
        appears_before(radials.push(r), a, b),
{
    let k = choose|k: int| 0 <= k < radials.len() && #[trigger] radials[k].kappa == a
        && forall|k2: int| 0 <= k2 <= k ==> radials[k2].kappa != b;
    let ext = radials.push(r);
    assert(ext[k].kappa == a);
    assert forall|k2: int| 0 <= k2 <= k implies ext[k2].kappa != b by {
        assert(ext[k2] == radials[k2]);
    }
}

/// Shells are listed in order of their kappas' first appearance.
proof fn lemma_shells_first_appearance(radials: Seq<DiracRadialKey>)
    ensures
        forall|i: int, j: int| 0 <= i < j < spec_shells(radials).len()
            ==> appears_before(radials, #[trigger] spec_shells(radials)[i].kappa, #[trigger] spec_shells(radials)[j].kappa),
    decreases radials.len(),
{
    if radials.len() > 0 {
        let prev_r = radials.drop_last();
        lemma_shells_first_appearance(prev_r);
        lemma_shells_facts(prev_r);
        let prev = spec_shells(prev_r);
        let r = radials.last();
        let shells = spec_shells(radials);
        assert(radials =~= prev_r.push(r));
        lemma_find_kappa_facts(prev, r.kappa);
        let p = find_kappa(prev, r.kappa);
        if p < 0 {
            lemma_no_shell_absent(prev_r, r.kappa);
        }
        assert forall|i: int, j: int| 0 <= i < j < shells.len()
            implies appears_before(radials, #[trigger] shells[i].kappa, #[trigger] shells[j].kappa) by {
            assert(shells[i].kappa == prev[i].kappa);
            if j < prev.len() {
                assert(shells[j].kappa == prev[j].kappa);
                assert(appears_before(prev_r, prev[i].kappa, prev[j].kappa));
                lemma_appears_before_extends(prev_r, r, prev[i].kappa, prev[j].kappa);
            } else {
                let k = choose|k: int| 0 <= k < prev_r.len() && #[trigger] prev[i].kappa == prev_r[k].kappa;
                assert(radials[k] == prev_r[k]);
                assert forall|k2: int| 0 <= k2 <= k implies radials[k2].kappa != shells[j].kappa by {
                    assert(radials[k2] == prev_r[k2]);
                }
            }
        }
    }
}

/// A `kappa` with no shell has no local-orbital radial.
proof fn lemma_no_shell_no_lo(radials: Seq<DiracRadialKey>, kappa: i32)
    requires
        forall|i: int| 0 <= i < spec_shells(radials).len() ==> spec_shells(radials)[i].kappa != kappa,
    ensures
        lo_radial_count(radials, kappa) == 0,
{
    lemma_shells_cover(radials);
    let q = |x: DiracRadialKey| x.kappa == kappa && x.n >= SPINOR_RADIAL_LO0;
    if radials.filter(q).len() > 0 {
        let x = radials.filter(q)[0];
        radials.lemma_filter_pred(q, 0);
        radials.lemma_filter_contains_rev(q, x);
        assert(radials.filter(q).contains(x));
        let k = choose|k: int| 0 <= k < radials.len() && radials[k] == x;
        assert(exists|i: int| 0 <= i < spec_shells(radials).len() && #[trigger] spec_shells(radials)[i].kappa == radials[k].kappa);
    }
}

/// Each shell counts the local-orbital radials of its `kappa`.
proof fn lemma_shells_lo_counts(radials: Seq<DiracRadialKey>)
    requires
        radials.len() <= usize::MAX,
    ensures
        forall|i: int| 0 <= i < spec_shells(radials).len()
            ==> #[trigger] spec_shells(radials)[i].lo_count == lo_radial_count(radials, spec_shells(radials)[i].kappa),
    decreases radials.len(),
{
    if radials.len() > 0 {
        let prev_r = radials.drop_last();
        lemma_shells_lo_counts(prev_r);
        let prev = spec_shells(prev_r);
        let r = radials.last();
        let shells = spec_shells(radials);
        lemma_find_kappa_facts(prev, r.kappa);
        assert(radials =~= prev_r.push(r));
        assert forall|kappa: i32| lo_radial_count(radials, kappa) == lo_radial_count(prev_r, kappa)
            + (if r.kappa == kappa && r.n >= SPINOR_RADIAL_LO0 { 1int } else { 0int }) by {
            let q = |x: DiracRadialKey| x.kappa == kappa && x.n >= SPINOR_RADIAL_LO0;
            prev_r.lemma_filter_len_push(q, r);
        }
        lemma_shells_facts(prev_r);
        let p = find_kappa(prev, r.kappa);
        assert forall|i: int| 0 <= i < shells.len()
            implies #[trigger] shells[i].lo_count == lo_radial_count(radials, shells[i].kappa) by {
            if i < prev.len() {
                let kap = prev[i].kappa;
                assert(shells[i].kappa == kap);
                assert(lo_radial_count(radials, kap) == lo_radial_count(prev_r, kap)
                    + (if r.kappa == kap && r.n >= SPINOR_RADIAL_LO0 { 1int } else { 0int }));
                assert(prev[i].lo_count == lo_radial_count(prev_r, kap));
                if p >= 0 && i == p {
                    assert(prev[p].lo_count <= prev_r.len());
                } else {
                    assert(kap != r.kappa);
                }
            } else {
                assert(shells[i].kappa == r.kappa);
                lemma_no_shell_no_lo(prev_r, r.kappa);
                assert(lo_radial_count(radials, r.kappa) == lo_radial_count(prev_r, r.kappa)
                    + (if r.n >= SPINOR_RADIAL_LO0 { 1int } else { 0int }));
            }
        }
    }
}

/// The shells of a radial list group it by `kappa`: their kappas are
/// pairwise distinct and are exactly the kappas of the list, listed in
/// order of first appearance, and each shell counts the list's local
/// orbitals of its `kappa`.
pub proof fn lemma_shells_group_by_kappa(radials: Seq<DiracRadialKey>)
    ensures
        forall|i: int, j: int| 0 <= i < j < spec_shells(radials).len()
            ==> #[trigger] spec_shells(radials)[i].kappa != #[trigger] spec_shells(radials)[j].kappa,
        forall|i: int| 0 <= i < spec_shells(radials).len()
            ==> exists|k: int| 0 <= k < radials.len() && #[trigger] spec_shells(radials)[i].kappa == radials[k].kappa,
        forall|k: int| #![trigger radials[k]] 0 <= k < radials.len()
            ==> exists|i: int| 0 <= i < spec_shells(radials).len() && #[trigger] spec_shells(radials)[i].kappa == radials[k].kappa,
        forall|i: int, j: int| 0 <= i < j < spec_shells(radials).len()
            ==> appears_before(radials, #[trigger] spec_shells(radials)[i].kappa, #[trigger] spec_shells(radials)[j].kappa),
        radials.len() <= usize::MAX ==> forall|i: int| 0 <= i < spec_shells(radials).len()
            ==> #[trigger] spec_shells(radials)[i].lo_count == lo_radial_count(radials, spec_shells(radials)[i].kappa),
{
    lemma_shells_facts(radials);
    lemma_shells_cover(radials);
    lemma_shells_first_appearance(radials);
    if radials.len() <= usize::MAX {
        lemma_shells_lo_counts(radials);
    }
}

/// The position of a shell's own `kappa` is the shell.
proof fn lemma_find_own(shells: Seq<RadialShell>, s: int)
    requires
        0 <= s < shells.len(),
        forall|i: int, j: int| 0 <= i < j < shells.len() ==> shells[i].kappa != shells[j].kappa,
    ensures
        find_kappa(shells, shells[s].kappa) == s,
{
    lemma_find_kappa_facts(shells, shells[s].kappa);
}

proof fn lemma_prefix_nonneg(shells: Seq<RadialShell>, a: int)
    requires
        0 <= a <= shells.len(),
        forall|i: int| 0 <= i < shells.len() ==> #[trigger] shells[i].kappa != 0,
    ensures
        0 <= deg_prefix(shells, a),
        0 <= lo_prefix(shells, a),
    decreases a,
{
    if a > 0 {
        lemma_prefix_nonneg(shells, a - 1);
        let d = spec_degeneracy(shells[a - 1].kappa as int);
        assert(d * shells[a - 1].lo_count >= 0) by (nonlinear_arith)
            requires
                d >= 2,
                shells[a - 1].lo_count >= 0,
        ;
    }
}

proof fn lemma_prefix_monotone(shells: Seq<RadialShell>, a: int, b: int)
    requires
        0 <= a <= b <= shells.len(),
        forall|i: int| 0 <= i < shells.len() ==> #[trigger] shells[i].kappa != 0,
    ensures
        deg_prefix(shells, a) + 2 * (b - a) <= deg_prefix(shells, b),
        lo_prefix(shells, a) <= lo_prefix(shells, b),
        0 <= deg_prefix(shells, a),
        0 <= lo_prefix(shells, a),
    decreases b - a,
{
    lemma_prefix_nonneg(shells, a);
    if a < b {
        lemma_prefix_monotone(shells, a, b - 1);
        let d = spec_degeneracy(shells[b - 1].kappa as int);
        assert(d * shells[b - 1].lo_count >= 0) by (nonlinear_arith)
            requires
                d >= 2,
                shells[b - 1].lo_count >= 0,
        ;
    }
}

/// A slot's coordinate lies in its shell's block and below the total.
proof fn lemma_row_in_block(shells: Seq<RadialShell>, s: int, mu: int, n: int)
    requires
        valid_slot(shells, s, mu, n),
        forall|i: int| 0 <= i < shells.len() ==> #[trigger] shells[i].kappa != 0,
    ensures
        n < SPINOR_RADIAL_LO0 ==> 2 * deg_prefix(shells, s) <= row_of(shells, s, mu, n) < 2 * deg_prefix(shells, s + 1),
        n >= SPINOR_RADIAL_LO0 ==> apw_count(shells) + lo_prefix(shells, s) <= row_of(shells, s, mu, n)
            < apw_count(shells) + lo_prefix(shells, s + 1),
        0 <= row_of(shells, s, mu, n) < apw_count(shells) + lo_prefix(shells, shells.len() as int),
        2 * deg_prefix(shells, s + 1) <= apw_count(shells),
        0 <= lo_prefix(shells, s),
        0 <= deg_prefix(shells, s),
{
    lemma_prefix_nonneg(shells, s);
    lemma_prefix_nonneg(shells, s + 1);
    lemma_prefix_monotone(shells, s + 1, shells.len() as int);
    lemma_prefix_monotone(shells, 0, s);
    let lo = shells[s].lo_count as int;
    let d = spec_degeneracy(shells[s].kappa as int);
    if n >= SPINOR_RADIAL_LO0 {
        let k = n - SPINOR_RADIAL_LO0;
        assert(mu * lo + k < d * lo) by (nonlinear_arith)
            requires
                0 <= mu < d,
                0 <= k < lo,
        ;
        assert(mu * lo >= 0) by (nonlinear_arith)
            requires
                0 <= mu,
                0 <= lo,
        ;
    }
}

proof fn lemma_prefix_strict(shells: Seq<RadialShell>, a: int, b: int)
    requires
        0 <= a < b <= shells.len(),
        forall|i: int| 0 <= i < shells.len() ==> #[trigger] shells[i].kappa != 0,
    ensures
        deg_prefix(shells, a + 1) <= deg_prefix(shells, b),
        lo_prefix(shells, a + 1) <= lo_prefix(shells, b),
{
    lemma_prefix_monotone(shells, a + 1, b);
}

/// Distinct slots have distinct coordinates.
pub proof fn lemma_row_injective(shells: Seq<RadialShell>, s1: int, m1: int, n1: int, s2: int, m2: int, n2: int)
    requires
        valid_slot(shells, s1, m1, n1),
        valid_slot(shells, s2, m2, n2),
        forall|i: int| 0 <= i < shells.len() ==> #[trigger] shells[i].kappa != 0,
        row_of(shells, s1, m1, n1) == row_of(shells, s2, m2, n2),
    ensures
        s1 == s2,
        m1 == m2,
        n1 == n2,
{
    lemma_row_in_block(shells, s1, m1, n1);
    lemma_row_in_block(shells, s2, m2, n2);
    lemma_prefix_monotone(shells, s1 + 1, shells.len() as int);
    lemma_prefix_monotone(shells, s2 + 1, shells.len() as int);
    let total_apw = apw_count(shells);
    let r1 = row_of(shells, s1, m1, n1);
    let r2 = row_of(shells, s2, m2, n2);
    if s1 < s2 {
        lemma_prefix_strict(shells, s1, s2);
        assert(r1 == r2);
        if n1 < SPINOR_RADIAL_LO0 {
            assert(r1 < 2 * deg_prefix(shells, s1 + 1));
            if n2 < SPINOR_RADIAL_LO0 {
                assert(2 * deg_prefix(shells, s2) <= r2);
            } else {
                assert(total_apw <= r2);
            }
        } else {
            assert(r1 < total_apw + lo_prefix(shells, s1 + 1));
            if n2 < SPINOR_RADIAL_LO0 {
                assert(r2 < total_apw);
            } else {
                assert(total_apw + lo_prefix(shells, s2) <= r2);
            }
        }
    } else if s2 < s1 {
        lemma_prefix_strict(shells, s2, s1);
        if n2 < SPINOR_RADIAL_LO0 {
            assert(r2 < 2 * deg_prefix(shells, s2 + 1));
            if n1 < SPINOR_RADIAL_LO0 {
                assert(2 * deg_prefix(shells, s1) <= r1);
            } else {
                assert(total_apw <= r1);
            }
        } else {
            assert(r2 < total_apw + lo_prefix(shells, s2 + 1));
            if n1 < SPINOR_RADIAL_LO0 {
                assert(r1 < total_apw);
            } else {
                assert(total_apw + lo_prefix(shells, s1) <= r1);
            }
        }
    }
    assert(s1 == s2);
    let lo = shells[s1].lo_count as int;
    if n1 < SPINOR_RADIAL_LO0 && n2 < SPINOR_RADIAL_LO0 {
        assert(2 * (deg_prefix(shells, s1) + m1) + n1 == 2 * (deg_prefix(shells, s1) + m2) + n2);
        assert(m1 == m2 && n1 == n2);
    } else if n1 < SPINOR_RADIAL_LO0 {
        assert(r1 < total_apw);
        assert(total_apw <= r2);
    } else if n2 < SPINOR_RADIAL_LO0 {
        assert(r2 < total_apw);
        assert(total_apw <= r1);
    } else if n1 >= SPINOR_RADIAL_LO0 && n2 >= SPINOR_RADIAL_LO0 {
        let k1 = n1 - SPINOR_RADIAL_LO0;
        let k2 = n2 - SPINOR_RADIAL_LO0;
        assert(m1 * lo + k1 == m2 * lo + k2);
        assert(m1 == m2 && k1 == k2) by (nonlinear_arith)
            requires
                m1 * lo + k1 == m2 * lo + k2,
                0 <= k1 < lo,
                0 <= k2 < lo,
                0 <= m1,
                0 <= m2,
        ;
    }
}

// ---------------------------------------------------------------------
// Executable layout.

fn find_shell(shells: &Vec<RadialShell>, kappa: i32) -> (r: Option<usize>)
    ensures
        match r {
            Some(p) => p as int == find_kappa(shells@, kappa),
            None => find_kappa(shells@, kappa) < 0,
        },
{
    proof { lemma_find_kappa_facts(shells@, kappa); }
    let mut i: usize = 0;
    while i < shells.len()
        invariant
            i <= shells.len(),
            forall|j: int| 0 <= j < i ==> shells@[j].kappa != kappa,
            -1 <= find_kappa(shells@, kappa) < shells@.len(),
            find_kappa(shells@, kappa) >= 0 ==> shells@[find_kappa(shells@, kappa)].kappa == kappa,
            find_kappa(shells@, kappa) < 0 ==> forall|j: int| 0 <= j < shells@.len() ==> shells@[j].kappa != kappa,
            find_kappa(shells@, kappa) >= 0 ==> forall|j: int| 0 <= j < find_kappa(shells@, kappa) ==> shells@[j].kappa != kappa,
        decreases shells.len() - i,
    {
        if shells[i].kappa == kappa {
            return Some(i);
        }
        i = i + 1;
    }
    None
}

/// Group a site's valence radials into `kappa` shells in order of first
/// appearance, counting each shell's local orbitals.
pub fn shells(radials: &Vec<DiracRadialKey>) -> (r: Vec<RadialShell>)
    ensures
        r@ == spec_shells(radials@),
{
    let mut shells: Vec<RadialShell> = Vec::new();
    let mut i: usize = 0;
    while i < radials.len()
        invariant
            i <= radials.len(),
            shells@ == spec_shells(radials@.take(i as int)),
        decreases radials.len() - i,
    {
        let radial = radials[i];
        proof {
            assert(radials@.take(i as int + 1).drop_last() =~= radials@.take(i as int));
            assert(radials@.take(i as int + 1).last() == radial);
            lemma_shells_facts(radials@.take(i as int));
        }
        let is_lo = radial.n >= SPINOR_RADIAL_LO0;
        let found = find_shell(&shells, radial.kappa);
        proof { lemma_find_kappa_facts(shells@, radial.kappa); }
        match found {
            Some(p) => {
                if is_lo {
                    assert(radials@.take(i as int).len() == i);
                    assert(spec_shells(radials@.take(i as int))[p as int].lo_count <= i);
                    let updated = RadialShell { kappa: radial.kappa, lo_count: shells[p].lo_count + 1 };
                    shells.set(p, updated);
                } else {
                    let updated = RadialShell { kappa: radial.kappa, lo_count: shells[p].lo_count };
                    shells.set(p, updated);
                }
            },
            None => {
                shells.push(RadialShell { kappa: radial.kappa, lo_count: if is_lo { 1 } else { 0 } });
            },
        }
        i = i + 1;
    }
    assert(radials@.take(radials.len() as int) =~= radials@);
    shells
}

proof fn lemma_site_shells(radials: Seq<DiracRadialKey>)
    requires
        radials_valid(radials),
    ensures
        forall|i: int| 0 <= i < spec_shells(radials).len() ==> valid_kappa(#[trigger] spec_shells(radials)[i].kappa),
        forall|i: int| 0 <= i < spec_shells(radials).len() ==> #[trigger] spec_shells(radials)[i].kappa != 0,
        forall|i: int, j: int|
            0 <= i < j < spec_shells(radials).len() ==> spec_shells(radials)[i].kappa != spec_shells(radials)[j].kappa,
{
    lemma_shells_facts(radials);
    let shells = spec_shells(radials);
    assert forall|i: int| 0 <= i < shells.len() implies valid_kappa(#[trigger] shells[i].kappa) by {
        let k = choose|k: int| 0 <= k < radials.len() && shells[i].kappa == radials[k].kappa;
        assert(valid_kappa(radials[k].kappa));
    }
}

/// Sums of degeneracies and LO coordinates of the first `s` shells.
fn prefix_sums(shells: &Vec<RadialShell>, s: usize) -> (r: (usize, usize))
    requires
        s <= shells.len(),
        forall|i: int| 0 <= i < shells.len() ==> valid_kappa(#[trigger] shells@[i].kappa),
        apw_count(shells@) + lo_prefix(shells@, shells.len() as int) <= usize::MAX,
    ensures
        r.0 == deg_prefix(shells@, s as int),
        r.1 == lo_prefix(shells@, s as int),
{
    proof {
        assert(forall|i: int| 0 <= i < shells.len() ==> #[trigger] shells@[i].kappa != 0);
    }
    let mut deg: usize = 0;
    let mut lo: usize = 0;
    let mut i: usize = 0;
    while i < s
        invariant
            i <= s <= shells.len(),
            forall|j: int| 0 <= j < shells.len() ==> valid_kappa(#[trigger] shells@[j].kappa),
            forall|j: int| 0 <= j < shells.len() ==> #[trigger] shells@[j].kappa != 0,
            apw_count(shells@) + lo_prefix(shells@, shells.len() as int) <= usize::MAX,
            deg == deg_prefix(shells@, i as int),
            lo == lo_prefix(shells@, i as int),
        decreases s - i,
    {
        proof {
            lemma_prefix_monotone(shells@, i as int + 1, shells.len() as int);
            lemma_prefix_monotone(shells@, 0, i as int + 1);
        }
        let d = degeneracy(shells[i].kappa) as usize;
        let c = shells[i].lo_count;
        deg = deg + d;
        lo = lo + d * c;
        i = i + 1;
    }
    (deg, lo)
}

/// Site-projection coordinate of `(site, kappa, 2mu, radial_n)` in the live
/// APW-then-LO order; `None` for an unknown site, `kappa`, channel or
/// radial ordinal.
pub fn site_projection_row(
    site_radials: &Vec<Vec<DiracRadialKey>>,
    site: usize,
    kappa: i32,
    twice_mu: i64,
    radial_n: usize,
) -> (r: Option<usize>)
    requires
        valid_kappa(kappa),
        forall|i: int| 0 <= i < site_radials.len() ==> site_fits(#[trigger] site_radials@[i]@),
    ensures
        site >= site_radials.len() ==> r is None,
        site < site_radials.len() ==> match spec_site_projection_row(site_radials@[site as int]@, kappa, twice_mu as int, radial_n as int) {
            Some(row) => r is Some && r->0 == row,
            None => r is None,
        },
{
    if site >= site_radials.len() {
        return None;
    }
    let radials = &site_radials[site];
    assert(site_fits(radials@));
    let mu = match mu_index(kappa, twice_mu) {
        Some(mu) => mu,
        None => {
            let ghost sh = spec_shells(radials@);
            return None;
        },
    };
    let shells = shells(radials);
    proof { lemma_site_shells(radials@); }
    let s = match find_shell(&shells, kappa) {
        Some(s) => s,
        None => return None,
    };
    proof {
        lemma_find_kappa_facts(shells@, kappa);
        lemma_prefix_monotone(shells@, s as int + 1, shells.len() as int);
        lemma_prefix_monotone(shells@, 0, s as int);
    }
    if radial_n < SPINOR_RADIAL_LO0 {
        let (preceding_channels, _) = prefix_sums(&shells, s);
        proof { lemma_row_in_block(shells@, s as int, mu as int, radial_n as int); }
        return Some(2 * (preceding_channels + mu) + radial_n);
    }
    if radial_n - SPINOR_RADIAL_LO0 >= shells[s].lo_count {
        return None;
    }
    let (all_channels, _) = prefix_sums(&shells, shells.len());
    let (_, preceding_locals) = prefix_sums(&shells, s);
    proof { lemma_row_in_block(shells@, s as int, mu as int, radial_n as int); }
    Some(2 * all_channels + preceding_locals + mu * shells[s].lo_count + (radial_n - SPINOR_RADIAL_LO0))
}

/// What a defined spec coordinate is made of: a shell, a channel of it,
/// and a radial ordinal of it.
proof fn lemma_row_slot(radials: Seq<DiracRadialKey>, kappa: i32, twice_mu: int, n: int)
    requires
        radials_valid(radials),
        n >= 0,
        spec_site_projection_row(radials, kappa, twice_mu, n) is Some,
    ensures
        ({
            let shells = spec_shells(radials);
            let s = find_kappa(shells, kappa);
            &&& 0 <= s < shells.len()
            &&& shells[s].kappa == kappa
            &&& spec_mu_index(kappa as int, twice_mu) is Some
            &&& valid_slot(shells, s, spec_mu_index(kappa as int, twice_mu)->0, n)
            &&& twice_mu == spec_twice_mu_at(kappa as int, spec_mu_index(kappa as int, twice_mu)->0)
            &&& spec_site_projection_row(radials, kappa, twice_mu, n) == Some(row_of(shells, s, spec_mu_index(kappa as int, twice_mu)->0, n))
        }),
{
    let shells = spec_shells(radials);
    lemma_find_kappa_facts(shells, kappa);
    lemma_site_shells(radials);
    let s = find_kappa(shells, kappa);
    let mu = spec_mu_index(kappa as int, twice_mu)->0;
    assert(valid_kappa(shells[s].kappa));
}

/// Site-projection coordinates are one-to-one: two `(kappa, 2mu, n)` that
/// name the same coordinate of a site are the same.
pub proof fn lemma_site_projection_row_injective(
    radials: Seq<DiracRadialKey>,
    kappa1: i32,
    twice_mu1: int,
    n1: int,
    kappa2: i32,
    twice_mu2: int,
    n2: int,
)
    requires
        radials_valid(radials),
        n1 >= 0,
        n2 >= 0,
        spec_site_projection_row(radials, kappa1, twice_mu1, n1) is Some,
        spec_site_projection_row(radials, kappa1, twice_mu1, n1) == spec_site_projection_row(radials, kappa2, twice_mu2, n2),
    ensures
        kappa1 == kappa2,
        twice_mu1 == twice_mu2,
        n1 == n2,
{
    lemma_row_slot(radials, kappa1, twice_mu1, n1);
    lemma_row_slot(radials, kappa2, twice_mu2, n2);
    let shells = spec_shells(radials);
    lemma_site_shells(radials);
    let s1 = find_kappa(shells, kappa1);
    let s2 = find_kappa(shells, kappa2);
    let m1 = spec_mu_index(kappa1 as int, twice_mu1)->0;
    let m2 = spec_mu_index(kappa2 as int, twice_mu2)->0;
    lemma_row_injective(shells, s1, m1, n1, s2, m2, n2);
}

/// Invert a site-projection coordinate to its Dirac radial and `2mu`.
///
/// Every `(kappa, 2mu, n)` whose coordinate is `coordinate` is the result,
/// and `None` is returned exactly when no radial of the site has it.
pub fn site_projection_identity(
    site_radials: &Vec<Vec<DiracRadialKey>>,
    site: usize,
    coordinate: usize,
) -> (r: Option<(DiracRadialId, i64)>)
    requires
        forall|i: int| 0 <= i < site_radials.len() ==> site_fits(#[trigger] site_radials@[i]@),
    ensures
        match r {
            Some((id, twice_mu)) => {
                &&& site < site_radials.len()
                &&& id.site == site
                &&& id.kind == ProductOrbitalKind::Valence
                &&& spec_site_projection_row(site_radials@[site as int]@, id.kappa, twice_mu as int, id.n as int) == Some(coordinate as int)
            },
            None => site >= site_radials.len() || forall|kappa: i32, twice_mu: i64, n: usize|
                spec_site_projection_row(site_radials@[site as int]@, kappa, twice_mu as int, n as int) != Some(coordinate as int),
        },
        site < site_radials.len() ==> forall|kappa: i32, twice_mu: i64, n: usize|
            spec_site_projection_row(site_radials@[site as int]@, kappa, twice_mu as int, n as int) == Some(coordinate as int)
            ==> r == Some((DiracRadialId { site, kind: ProductOrbitalKind::Valence, kappa, n }, twice_mu)),
{
    if site >= site_radials.len() {
        return None;
    }
    let radials = &site_radials[site];
    assert(site_fits(radials@));
    let shells = shells(radials);
    proof {
        lemma_site_shells(radials@);
        lemma_shells_facts(radials@);
    }
    let ghost sh = shells@;
    let ghost c = coordinate as int;
    let mut s: usize = 0;
    while s < shells.len()
        invariant
            s <= shells.len(),
            sh == shells@,
            c == coordinate as int,
            sh == spec_shells(radials@),
            site < site_radials.len(),
            radials@ == site_radials@[site as int]@,
            forall|i: int| 0 <= i < site_radials.len() ==> site_fits(#[trigger] site_radials@[i]@),
            forall|i: int| 0 <= i < sh.len() ==> valid_kappa(#[trigger] sh[i].kappa),
            forall|i: int| 0 <= i < sh.len() ==> #[trigger] sh[i].lo_count <= radials.len(),
            forall|i: int, j: int| 0 <= i < j < sh.len() ==> sh[i].kappa != sh[j].kappa,
            forall|s2: int, m2: int, n2: int| 0 <= s2 < s && valid_slot(sh, s2, m2, n2) ==> row_of(sh, s2, m2, n2) != c,
        decreases shells.len() - s,
    {
        let kappa = shells[s].kappa;
        let lo_count = shells[s].lo_count;
        proof {
            lemma_find_own(sh, s as int);
        }
        let mus = twice_mu_values(kappa);
        proof {
            assert(sh[s as int].lo_count <= radials.len());
            lemma_shell_lo_fits(sh, s as int);
        }
        let mut i: usize = 0;
        while i < mus.len()
            invariant
                i <= mus.len(),
                s < shells.len(),
                kappa == sh[s as int].kappa,
                lo_count == sh[s as int].lo_count,
                lo_count <= radials.len(),
                lo_count + 2 <= usize::MAX,
                mus.len() == spec_degeneracy(kappa as int),
                forall|k: int| 0 <= k < mus.len() ==> #[trigger] mus@[k] == spec_twice_mu_at(kappa as int, k),
                find_kappa(sh, kappa) == s,
                sh == shells@,
                c == coordinate as int,
                sh == spec_shells(radials@),
                site < site_radials.len(),
                radials@ == site_radials@[site as int]@,
                forall|i2: int| 0 <= i2 < site_radials.len() ==> site_fits(#[trigger] site_radials@[i2]@),
                forall|i2: int| 0 <= i2 < sh.len() ==> valid_kappa(#[trigger] sh[i2].kappa),
                forall|i2: int, j: int| 0 <= i2 < j < sh.len() ==> sh[i2].kappa != sh[j].kappa,
                forall|s2: int, m2: int, n2: int| 0 <= s2 < s && valid_slot(sh, s2, m2, n2) ==> row_of(sh, s2, m2, n2) != c,
                forall|m2: int, n2: int| 0 <= m2 < i && valid_slot(sh, s as int, m2, n2) ==> row_of(sh, s as int, m2, n2) != c,
            decreases mus.len() - i,
        {
            let twice_mu = mus[i];
            proof {
                lemma_mu_index_inverts_enumeration(kappa as int, i as int);
            }
            let mut n: usize = 0;
            while n < SPINOR_RADIAL_LO0 || n - SPINOR_RADIAL_LO0 < lo_count
                invariant
                    n <= SPINOR_RADIAL_LO0 + lo_count,
                    i < mus.len(),
                    s < shells.len(),
                    kappa == sh[s as int].kappa,
                    lo_count == sh[s as int].lo_count,
                    lo_count <= radials.len(),
                    lo_count + 2 <= usize::MAX,
                    mus.len() == spec_degeneracy(kappa as int),
                    twice_mu == spec_twice_mu_at(kappa as int, i as int),
                    spec_mu_index(kappa as int, twice_mu as int) == Some(i as int),
                    find_kappa(sh, kappa) == s,
                    sh == shells@,
                    c == coordinate as int,
                    sh == spec_shells(radials@),
                    site < site_radials.len(),
                    radials@ == site_radials@[site as int]@,
                    forall|i2: int| 0 <= i2 < site_radials.len() ==> site_fits(#[trigger] site_radials@[i2]@),
                    forall|i2: int| 0 <= i2 < sh.len() ==> valid_kappa(#[trigger] sh[i2].kappa),
                    forall|i2: int, j: int| 0 <= i2 < j < sh.len() ==> sh[i2].kappa != sh[j].kappa,
                    forall|s2: int, m2: int, n2: int| 0 <= s2 < s && valid_slot(sh, s2, m2, n2) ==> row_of(sh, s2, m2, n2) != c,
                    forall|m2: int, n2: int| 0 <= m2 < i && valid_slot(sh, s as int, m2, n2) ==> row_of(sh, s as int, m2, n2) != c,
                    forall|n2: int| 0 <= n2 < n ==> row_of(sh, s as int, i as int, n2) != c,
                decreases SPINOR_RADIAL_LO0 + lo_count - n,
            {
                let row = site_projection_row(site_radials, site, kappa, twice_mu, n);
                assert(spec_site_projection_row(radials@, kappa, twice_mu as int, n as int) == Some(row_of(sh, s as int, i as int, n as int)));
                assert(spec_site_projection_row(site_radials@[site as int]@, kappa, twice_mu as int, n as int) == Some(row_of(sh, s as int, i as int, n as int)));
                assert(row is Some && row->0 == row_of(sh, s as int, i as int, n as int));
                let hit = match row {
                    Some(x) => x == coordinate,
                    None => false,
                };
                if hit {
                    let id = DiracRadialId { site, kind: ProductOrbitalKind::Valence, kappa, n };
                    proof {
                        assert forall|k2: i32, t2: i64, n2: usize|
                            spec_site_projection_row(site_radials@[site as int]@, k2, t2 as int, n2 as int) == Some(coordinate as int)
                            implies r_eq(Some((id, twice_mu)), Some((DiracRadialId { site, kind: ProductOrbitalKind::Valence, kappa: k2, n: n2 }, t2))) by {
                            lemma_site_projection_row_injective(radials@, kappa, twice_mu as int, n as int, k2, t2 as int, n2 as int);
                        }
                    }
                    return Some((id, twice_mu));
                }
                assert(row_of(sh, s as int, i as int, n as int) != c);
                n = n + 1;
            }
            i = i + 1;
        }
        s = s + 1;
    }
    proof {
        assert forall|kappa: i32, twice_mu: i64, n: usize|
            spec_site_projection_row(site_radials@[site as int]@, kappa, twice_mu as int, n as int) != Some(coordinate as int) by {
            if spec_site_projection_row(radials@, kappa, twice_mu as int, n as int) == Some(coordinate as int) {
                lemma_row_slot(radials@, kappa, twice_mu as int, n as int);
            }
        }
    }
    None
}

proof fn lemma_shell_lo_fits(shells: Seq<RadialShell>, s: int)
    requires
        0 <= s < shells.len(),
        forall|i: int| 0 <= i < shells.len() ==> valid_kappa(#[trigger] shells[i].kappa),
    ensures
        2 + shells[s].lo_count <= apw_count(shells) + lo_prefix(shells, shells.len() as int),
{
    assert(forall|i: int| 0 <= i < shells.len() ==> #[trigger] shells[i].kappa != 0);
    assert(valid_kappa(shells[s].kappa));
    lemma_prefix_nonneg(shells, s);
    lemma_prefix_monotone(shells, s + 1, shells.len() as int);
    let d = spec_degeneracy(shells[s].kappa as int);
    let lo = shells[s].lo_count as int;
    assert(d * lo >= 2 * lo) by (nonlinear_arith)
        requires
            d >= 2,
            lo >= 0,
    ;
}

spec fn r_eq(a: Option<(DiracRadialId, i64)>, b: Option<(DiracRadialId, i64)>) -> bool {
    a == b
}

} // verus!
