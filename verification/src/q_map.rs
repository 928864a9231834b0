//! Regular k meshes and the `k -> k - q` maps of canonical transfers.
use vstd::prelude::*;

verus! {

/// How one stored `k - q` entry's integer wrap compares with its k-points.
#[derive(Clone, Copy, Debug, PartialEq, Eq, Structural)]
pub enum WrapCheck {
    /// `k - q_canonical - (k - q) - G_wrap` vanishes on every axis.
    Consistent,
    /// A coordinate or the residual is not finite.
    NonFinite,
    /// The residual is finite but does not vanish.
    Inconsistent,
}

/// Failure while validating one canonical q record against its k mesh.
#[derive(Clone, Copy, Debug, PartialEq, Eq, Structural)]
pub enum CanonicalQMapError {
    NonFiniteQSlice,
    CanonicalQMismatch,
    IncompatibleMap,
    KMinusQWrap { k_index: usize },
}

/// Entry `i` keeps its k index, maps into the mesh, and hits a target that
/// no earlier entry hit.
pub open spec fn entry_index_ok(n_k: int, maps: Seq<(usize, usize)>, i: int) -> bool {
    &&& i < n_k
    &&& maps[i].0 == i
    &&& maps[i].1 < n_k
    &&& forall|j: int| 0 <= j < i ==> (#[trigger] maps[j]).1 != maps[i].1
}

/// Entry `i` passes every per-entry check.
pub open spec fn entry_ok(n_k: int, maps: Seq<(usize, usize)>, wraps: Seq<WrapCheck>, i: int) -> bool {
    entry_index_ok(n_k, maps, i) && wraps[i] == WrapCheck::Consistent
}

/// The error reported for the first failing entry `i`.
pub open spec fn entry_error(n_k: int, maps: Seq<(usize, usize)>, wraps: Seq<WrapCheck>, i: int) -> CanonicalQMapError {
    if !entry_index_ok(n_k, maps, i) {
        CanonicalQMapError::IncompatibleMap
    } else if wraps[i] == WrapCheck::NonFinite {
        CanonicalQMapError::NonFiniteQSlice
    } else {
        CanonicalQMapError::KMinusQWrap { k_index: i as usize }
    }
}

/// Some of the first `upto` entries hits target `t`.
pub open spec fn hit_before(maps: Seq<(usize, usize)>, upto: int, t: int) -> bool {
    exists|j: int| 0 <= j < upto && (#[trigger] maps[j]).1 == t
}

/// The map has one entry per k and hits every one of the `n_k` mesh points.
pub open spec fn is_complete_map(n_k: int, maps: Seq<(usize, usize)>) -> bool {
    &&& maps.len() == n_k
    &&& forall|t: int| 0 <= t < n_k ==> #[trigger] hit_before(maps, maps.len() as int, t)
}

/// Validate the ordered `k -> k - q` map of one transfer over an `n_k`
/// mesh, entry by entry: each entry must keep its k index and hit a new
/// in-mesh target, and its wrap must be consistent; then the map must have
/// one entry per k and cover every target. `wraps[i]` is entry `i`'s wrap
/// check.
pub fn validate_k_minus_q_map(n_k: usize, maps: &Vec<(usize, usize)>, wraps: &Vec<WrapCheck>) -> (r: Result<(), CanonicalQMapError>)
    requires
        maps.len() == wraps.len(),
    ensures
        match r {
            Ok(()) => {
                &&& forall|i: int| 0 <= i < maps.len() ==> entry_ok(n_k as int, maps@, wraps@, i)
                &&& is_complete_map(n_k as int, maps@)
            },
            Err(e) => {
                ||| exists|i: int| 0 <= i < maps.len() && !entry_ok(n_k as int, maps@, wraps@, i)
                    && (forall|j: int| 0 <= j < i ==> entry_ok(n_k as int, maps@, wraps@, j))
                    && e == entry_error(n_k as int, maps@, wraps@, i)
                ||| (forall|i: int| 0 <= i < maps.len() ==> entry_ok(n_k as int, maps@, wraps@, i))
                    && !is_complete_map(n_k as int, maps@)
                    && e == CanonicalQMapError::IncompatibleMap
            },
        },
{
    let mut targets: Vec<bool> = Vec::new();
    let mut t: usize = 0;
    while t < n_k
        invariant
            t <= n_k,
            targets.len() == t,
            forall|j: int| 0 <= j < t ==> !(#[trigger] targets@[j]),
        decreases n_k - t,
    {
        targets.push(false);
        t = t + 1;
    }
    let mut i: usize = 0;
    while i < maps.len()
        invariant
            i <= maps.len(),
            maps.len() == wraps.len(),
            targets.len() == n_k,
            forall|j: int| 0 <= j < i ==> entry_ok(n_k as int, maps@, wraps@, j),
            forall|x: int| 0 <= x < n_k ==> (#[trigger] targets@[x] <==> hit_before(maps@, i as int, x)),
        decreases maps.len() - i,
    {
        let (stored_k, kq) = maps[i];
        if i >= n_k || stored_k != i || kq >= n_k {
            assert(!entry_ok(n_k as int, maps@, wraps@, i as int));
            assert(entry_error(n_k as int, maps@, wraps@, i as int) == CanonicalQMapError::IncompatibleMap);
            return Err(CanonicalQMapError::IncompatibleMap);
        }
        if targets[kq] {
            proof {
                assert(hit_before(maps@, i as int, kq as int));
                let j = choose|j: int| 0 <= j < i && (#[trigger] maps@[j]).1 == kq;
                assert(!entry_index_ok(n_k as int, maps@, i as int));
                assert(!entry_ok(n_k as int, maps@, wraps@, i as int));
                assert(entry_error(n_k as int, maps@, wraps@, i as int) == CanonicalQMapError::IncompatibleMap);
            }
            return Err(CanonicalQMapError::IncompatibleMap);
        }
        proof {
            assert(entry_index_ok(n_k as int, maps@, i as int));
        }
        targets.set(kq, true);
        match wraps[i] {
            WrapCheck::Consistent => {},
            WrapCheck::NonFinite => {
                assert(!entry_ok(n_k as int, maps@, wraps@, i as int));
                assert(entry_error(n_k as int, maps@, wraps@, i as int) == CanonicalQMapError::NonFiniteQSlice);
                return Err(CanonicalQMapError::NonFiniteQSlice);
            },
            WrapCheck::Inconsistent => {
                assert(!entry_ok(n_k as int, maps@, wraps@, i as int));
                assert(entry_error(n_k as int, maps@, wraps@, i as int) == (CanonicalQMapError::KMinusQWrap { k_index: i }));
                return Err(CanonicalQMapError::KMinusQWrap { k_index: i });
            },
        }
        proof {
            assert forall|x: int| 0 <= x < n_k implies (#[trigger] targets@[x] <==> hit_before(maps@, i as int + 1, x)) by {
                if x == kq {
                    assert(maps@[i as int].1 == x);
                } else {
                    if hit_before(maps@, i as int + 1, x) {
                        let j = choose|j: int| 0 <= j < i + 1 && (#[trigger] maps@[j]).1 == x;
                        assert(j < i);
                    }
                    if hit_before(maps@, i as int, x) {
                        let j = choose|j: int| 0 <= j < i && (#[trigger] maps@[j]).1 == x;
                        assert(j < i + 1);
                    }
                }
            }
        }
        i = i + 1;
    }
    if maps.len() != n_k {
        return Err(CanonicalQMapError::IncompatibleMap);
    }
    let mut x: usize = 0;
    while x < n_k
        invariant
            x <= n_k,
            maps.len() == n_k,
            targets.len() == n_k,
            forall|y: int| 0 <= y < n_k ==> (#[trigger] targets@[y] <==> hit_before(maps@, maps.len() as int, y)),
            forall|y: int| 0 <= y < x ==> #[trigger] targets@[y],
            forall|j: int| 0 <= j < maps.len() ==> entry_ok(n_k as int, maps@, wraps@, j),
        decreases n_k - x,
    {
        if !targets[x] {
            assert(!is_complete_map(n_k as int, maps@)) by {
                assert(!targets@[x as int]);
            }
            return Err(CanonicalQMapError::IncompatibleMap);
        }
        x = x + 1;
    }
    proof {
        assert forall|y: int| 0 <= y < n_k implies #[trigger] hit_before(maps@, maps.len() as int, y) by {
            assert(targets@[y]);
        }
    }
    Ok(())
}

/// A complete, entry-valid map is a permutation: distinct entries hit
/// distinct targets.
pub proof fn lemma_complete_map_is_permutation(n_k: int, maps: Seq<(usize, usize)>, wraps: Seq<WrapCheck>)
    requires
        maps.len() == wraps.len(),
        forall|i: int| 0 <= i < maps.len() ==> entry_ok(n_k, maps, wraps, i),
        is_complete_map(n_k, maps),
    ensures
        forall|i: int, j: int| 0 <= i < j < maps.len() ==> (#[trigger] maps[i]).1 != (#[trigger] maps[j]).1,
        forall|i: int| 0 <= i < maps.len() ==> (#[trigger] maps[i]).0 == i && maps[i].1 < n_k,
{
    assert forall|i: int, j: int| 0 <= i < j < maps.len() implies (#[trigger] maps[i]).1 != (#[trigger] maps[j]).1 by {
        assert(entry_ok(n_k, maps, wraps, j));
    }
    assert forall|i: int| 0 <= i < maps.len() implies (#[trigger] maps[i]).0 == i && maps[i].1 < n_k by {
        assert(entry_ok(n_k, maps, wraps, i));
    }
}

/// Integer coordinates `(k1, k2, k3)` of one regular-mesh point.
#[derive(Clone, Copy, Debug, PartialEq, Eq, Structural)]
pub struct MeshIndex {
    pub k1: usize,
    pub k2: usize,
    pub k3: usize,
}

/// The mesh has more points than `usize` can count.
#[derive(Clone, Copy, Debug, PartialEq, Eq, Structural)]
pub struct KPointCountOverflow;

/// Point `i` of a regular mesh, first axis fastest.
pub open spec fn mesh_point(d1: int, d2: int, i: int) -> MeshIndex {
    MeshIndex { k1: (i % d1) as usize, k2: ((i / d1) % d2) as usize, k3: (i / (d1 * d2)) as usize }
}

/// The points of a regular `d1 x d2 x d3` mesh with the first axis
/// fastest and the third slowest; rejected when the running point count
/// `d1 d2` or `d1 d2 d3` overflows.
pub fn regular_mesh_indices(d1: usize, d2: usize, d3: usize) -> (r: Result<Vec<MeshIndex>, KPointCountOverflow>)
    ensures
        match r {
            Ok(points) => {
                &&& d1 * d2 <= usize::MAX
                &&& d1 * d2 * d3 <= usize::MAX
                &&& points.len() == d1 * d2 * d3
                &&& forall|i: int| 0 <= i < points.len() ==> #[trigger] points@[i] == mesh_point(d1 as int, d2 as int, i)
            },
            Err(_) => d1 * d2 > usize::MAX || d1 * d2 * d3 > usize::MAX,
        },
{
    let d12 = match d1.checked_mul(d2) {
        Some(v) => v,
        None => return Err(KPointCountOverflow),
    };
    let _count = match d12.checked_mul(d3) {
        Some(v) => v,
        None => return Err(KPointCountOverflow),
    };
    let mut points: Vec<MeshIndex> = Vec::new();
    if d1 == 0 || d2 == 0 || d3 == 0 {
        assert(d1 * d2 * d3 == 0) by (nonlinear_arith)
            requires
                d1 == 0 || d2 == 0 || d3 == 0,
        ;
        return Ok(points);
    }
    let mut k3: usize = 0;
    while k3 < d3
        invariant
            k3 <= d3,
            d1 * d2 <= usize::MAX,
            d1 * d2 * d3 <= usize::MAX,
            d1 >= 1,
            d2 >= 1,
            points.len() == k3 * (d1 * d2),
            forall|i: int| 0 <= i < points.len() ==> #[trigger] points@[i] == mesh_point(d1 as int, d2 as int, i),
        decreases d3 - k3,
    {
        let mut k2: usize = 0;
        while k2 < d2
            invariant
                k3 < d3,
                k2 <= d2,
                d1 * d2 * d3 <= usize::MAX,
                d1 >= 1,
                d2 >= 1,
                points.len() == k3 * (d1 * d2) + k2 * d1,
                forall|i: int| 0 <= i < points.len() ==> #[trigger] points@[i] == mesh_point(d1 as int, d2 as int, i),
            decreases d2 - k2,
        {
            let mut k1: usize = 0;
            while k1 < d1
                invariant
                    k3 < d3,
                    k2 < d2,
                    k1 <= d1,
                    d1 * d2 * d3 <= usize::MAX,
                    d1 >= 1,
                    d2 >= 1,
                    points.len() == k3 * (d1 * d2) + k2 * d1 + k1,
                    forall|i: int| 0 <= i < points.len() ==> #[trigger] points@[i] == mesh_point(d1 as int, d2 as int, i),
                decreases d1 - k1,
            {
                proof {
                    lemma_mesh_point(d1 as int, d2 as int, d3 as int, k1 as int, k2 as int, k3 as int);
                }
                points.push(MeshIndex { k1, k2, k3 });
                k1 = k1 + 1;
            }
            proof {
                assert(k3 * (d1 * d2) + k2 * d1 + d1 == k3 * (d1 * d2) + (k2 + 1) * d1) by (nonlinear_arith);
            }
            k2 = k2 + 1;
        }
        proof {
            assert(k3 * (d1 * d2) + d2 * d1 == (k3 + 1) * (d1 * d2)) by (nonlinear_arith);
        }
        k3 = k3 + 1;
    }
    proof {
        assert(d3 * (d1 * d2) == d1 * d2 * d3) by (nonlinear_arith);
    }
    Ok(points)
}

proof fn lemma_mesh_point(d1: int, d2: int, d3: int, k1: int, k2: int, k3: int)
    requires
        d1 >= 1,
        d2 >= 1,
        0 <= k1 < d1,
        0 <= k2 < d2,
        0 <= k3 < d3,
    ensures
        mesh_point(d1, d2, k3 * (d1 * d2) + k2 * d1 + k1) == (MeshIndex { k1: k1 as usize, k2: k2 as usize, k3: k3 as usize }),
        k3 * (d1 * d2) + k2 * d1 + k1 < d1 * d2 * d3,
{
    let i = k3 * (d1 * d2) + k2 * d1 + k1;
    let q = k3 * d2 + k2;
    assert(i == q * d1 + k1) by (nonlinear_arith)
        requires
            i == k3 * (d1 * d2) + k2 * d1 + k1,
            q == k3 * d2 + k2,
    ;
    vstd::arithmetic::div_mod::lemma_fundamental_div_mod_converse(i, d1, q, k1);
    vstd::arithmetic::div_mod::lemma_fundamental_div_mod_converse(q, d2, k3, k2);
    let rest = k2 * d1 + k1;
    assert(0 <= rest < d1 * d2) by (nonlinear_arith)
        requires
            rest == k2 * d1 + k1,
            0 <= k1 < d1,
            0 <= k2 < d2,
    ;
    assert(d1 * d2 != 0) by (nonlinear_arith)
        requires
            d1 >= 1,
            d2 >= 1,
    ;
    vstd::arithmetic::div_mod::lemma_fundamental_div_mod_converse(i, d1 * d2, k3, rest);
    let p = d1 * d2;
    assert((k3 + 1) * p <= d3 * p) by (nonlinear_arith)
        requires
            k3 + 1 <= d3,
            p >= 1,
    ;
    assert(d1 * d2 * d3 == d3 * p) by (nonlinear_arith)
        requires
            p == d1 * d2,
    ;
    assert(i < (k3 + 1) * p) by (nonlinear_arith)
        requires
            i == k3 * p + rest,
            rest < p,
    ;
}

} // verus!
