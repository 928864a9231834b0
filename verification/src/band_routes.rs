//! The band-solve route of an SCF iteration and the bookkeeping of the band
//! states it produces: which solver a relativistic treatment may use on a
//! given potential, and which range of the pooled state list each k-point's
//! spin channels occupy.
//!
//! The potential's field magnitudes are compared with their tolerance by
//! the caller; the verdicts enter here.
use vstd::prelude::*;
use crate::workflow::Relativity;

verus! {

/// The solver a k-point set is handed to.
#[derive(Clone, Copy, Debug, PartialEq, Eq, Structural)]
pub enum BandRoute {
    /// Collinear scalar-relativistic up and down solves.
    Scalar,
    /// Scalar up solve followed by a spin-orbit second variation.
    SecondVariation,
    /// Full four-component spinor solve.
    Spinor,
}

/// What the route decision reads of a potential and its sites.
#[derive(Clone, Debug)]
pub struct RoutePotential {
    /// Both transverse magnetic components are within tolerance.
    pub transverse_within_tolerance: bool,
    /// All three magnetic components are within tolerance.
    pub magnetic_within_tolerance: bool,
    /// Per site: the site is nonmagnetic and scalar.
    pub nonmagnetic_scalar_sites: Vec<bool>,
}

/// Rejections of a band-solve route.
#[derive(Clone, Copy, Debug, PartialEq, Eq, Structural)]
pub enum RouteError {
    /// No k-points to solve.
    EmptyKPointSet,
    /// A collinear route met a transverse magnetic potential.
    TransversePotentialUnsupported,
    /// The second variation needs a nonmagnetic scalar potential.
    SecondVariationRequiresNonmagneticScalar,
    /// The second-variation window would drop the scalar bands below it.
    SecondVariationDropsLowerBands { start: usize },
}

/// Every site is nonmagnetic and scalar.
pub open spec fn all_sites_nonmagnetic(sites: Seq<bool>) -> bool {
    forall|i: int| 0 <= i < sites.len() ==> #[trigger] sites[i]
}

/// The route decision: the spinor treatment always takes the spinor solve;
/// the collinear treatments need a potential without transverse field, and
/// the second variation in addition nonmagnetic scalar sites, no magnetic
/// field, and a window that starts at the lowest scalar band.
pub open spec fn spec_band_route(n_points: int, relativity: Relativity, window_start: int, p: RoutePotential) -> Result<BandRoute, RouteError> {
    if n_points == 0 {
        Err(RouteError::EmptyKPointSet)
    } else if relativity == Relativity::SpinorFirstVariation {
        Ok(BandRoute::Spinor)
    } else if !p.transverse_within_tolerance {
        Err(RouteError::TransversePotentialUnsupported)
    } else if relativity == Relativity::Scalar {
        Ok(BandRoute::Scalar)
    } else if !all_sites_nonmagnetic(p.nonmagnetic_scalar_sites@) || !p.magnetic_within_tolerance {
        Err(RouteError::SecondVariationRequiresNonmagneticScalar)
    } else if window_start != 0 {
        Err(RouteError::SecondVariationDropsLowerBands { start: window_start as usize })
    } else {
        Ok(BandRoute::SecondVariation)
    }
}

/// The second variation is chosen only for a collinear, nonmagnetic
/// potential whose every site is nonmagnetic and scalar and whose window
/// starts at band 0; one magnetic or non-scalar site on a collinear
/// potential rejects it.
pub proof fn lemma_second_variation_needs_every_site(n_points: int, relativity: Relativity, window_start: int, p: RoutePotential)
    ensures
        spec_band_route(n_points, relativity, window_start, p) == Ok::<BandRoute, RouteError>(BandRoute::SecondVariation) ==> {
            &&& relativity == Relativity::SocSecondVariation
            &&& forall|i: int| 0 <= i < p.nonmagnetic_scalar_sites.len() ==> #[trigger] p.nonmagnetic_scalar_sites@[i]
            &&& p.magnetic_within_tolerance
            &&& p.transverse_within_tolerance
            &&& window_start == 0
        },
        n_points != 0 && relativity == Relativity::SocSecondVariation && p.transverse_within_tolerance
            && (exists|i: int| 0 <= i < p.nonmagnetic_scalar_sites.len() && !#[trigger] p.nonmagnetic_scalar_sites@[i])
            ==> spec_band_route(n_points, relativity, window_start, p) == Err::<BandRoute, RouteError>(RouteError::SecondVariationRequiresNonmagneticScalar),
        n_points == 0 ==> spec_band_route(n_points, relativity, window_start, p) == Err::<BandRoute, RouteError>(RouteError::EmptyKPointSet),
        n_points != 0 && relativity == Relativity::SpinorFirstVariation
            ==> spec_band_route(n_points, relativity, window_start, p) == Ok::<BandRoute, RouteError>(BandRoute::Spinor),
        n_points != 0 && relativity != Relativity::SpinorFirstVariation && !p.transverse_within_tolerance
            ==> spec_band_route(n_points, relativity, window_start, p) == Err::<BandRoute, RouteError>(RouteError::TransversePotentialUnsupported),
        n_points != 0 && relativity == Relativity::Scalar && p.transverse_within_tolerance
            ==> spec_band_route(n_points, relativity, window_start, p) == Ok::<BandRoute, RouteError>(BandRoute::Scalar),
        n_points != 0 && relativity == Relativity::SocSecondVariation && p.transverse_within_tolerance && !p.magnetic_within_tolerance
            ==> spec_band_route(n_points, relativity, window_start, p) == Err::<BandRoute, RouteError>(RouteError::SecondVariationRequiresNonmagneticScalar),
        n_points != 0 && relativity == Relativity::SocSecondVariation && p.transverse_within_tolerance && p.magnetic_within_tolerance
            && (forall|i: int| 0 <= i < p.nonmagnetic_scalar_sites.len() ==> #[trigger] p.nonmagnetic_scalar_sites@[i])
            ==> spec_band_route(n_points, relativity, window_start, p) == (if window_start == 0 {
                Ok::<BandRoute, RouteError>(BandRoute::SecondVariation)
            } else {
                Err::<BandRoute, RouteError>(RouteError::SecondVariationDropsLowerBands { start: window_start as usize })
            }),
{
}

/// Decide the band-solve route of `n_points` k-points under a relativistic
/// treatment; `window_start` is the first scalar band of the
/// second-variation window (read only for that treatment).
pub fn band_route(n_points: usize, relativity: Relativity, window_start: usize, potential: &RoutePotential) -> (r: Result<BandRoute, RouteError>)
    ensures
        r == spec_band_route(n_points as int, relativity, window_start as int, *potential),
        r == Ok::<BandRoute, RouteError>(BandRoute::SecondVariation) ==> {
            &&& relativity == Relativity::SocSecondVariation
            &&& forall|i: int| 0 <= i < potential.nonmagnetic_scalar_sites.len() ==> #[trigger] potential.nonmagnetic_scalar_sites@[i]
            &&& potential.magnetic_within_tolerance
            &&& potential.transverse_within_tolerance
            &&& window_start == 0
        },
        n_points > 0 && relativity == Relativity::SocSecondVariation && potential.transverse_within_tolerance
            && (exists|i: int| 0 <= i < potential.nonmagnetic_scalar_sites.len() && !#[trigger] potential.nonmagnetic_scalar_sites@[i])
            ==> r == Err::<BandRoute, RouteError>(RouteError::SecondVariationRequiresNonmagneticScalar),
        n_points == 0 ==> r == Err::<BandRoute, RouteError>(RouteError::EmptyKPointSet),
        n_points != 0 && relativity == Relativity::SpinorFirstVariation ==> r == Ok::<BandRoute, RouteError>(BandRoute::Spinor),
        n_points != 0 && relativity != Relativity::SpinorFirstVariation && !potential.transverse_within_tolerance
            ==> r == Err::<BandRoute, RouteError>(RouteError::TransversePotentialUnsupported),
        n_points != 0 && relativity == Relativity::Scalar && potential.transverse_within_tolerance
            ==> r == Ok::<BandRoute, RouteError>(BandRoute::Scalar),
{
    proof { lemma_second_variation_needs_every_site(n_points as int, relativity, window_start as int, *potential); }
    if n_points == 0 {
        return Err(RouteError::EmptyKPointSet);
    }
    match relativity {
        Relativity::SpinorFirstVariation => Ok(BandRoute::Spinor),
        Relativity::Scalar => if potential.transverse_within_tolerance {
            Ok(BandRoute::Scalar)
        } else {
            Err(RouteError::TransversePotentialUnsupported)
        },
        Relativity::SocSecondVariation => {
            if !potential.transverse_within_tolerance {
                return Err(RouteError::TransversePotentialUnsupported);
            }
            let mut i: usize = 0;
            while i < potential.nonmagnetic_scalar_sites.len()
                invariant
                    n_points != 0,
                    relativity == Relativity::SocSecondVariation,
                    potential.transverse_within_tolerance,
                    i <= potential.nonmagnetic_scalar_sites.len(),
                    forall|j: int| 0 <= j < i ==> #[trigger] potential.nonmagnetic_scalar_sites@[j],
                decreases potential.nonmagnetic_scalar_sites.len() - i,
            {
                if !potential.nonmagnetic_scalar_sites[i] {
                    return Err(RouteError::SecondVariationRequiresNonmagneticScalar);
                }
                i = i + 1;
            }
            if !potential.magnetic_within_tolerance {
                return Err(RouteError::SecondVariationRequiresNonmagneticScalar);
            }
            if window_start != 0 {
                return Err(RouteError::SecondVariationDropsLowerBands { start: window_start });
            }
            Ok(BandRoute::SecondVariation)
        },
    }
}

/// The ranges of the pooled band-state list one k-point's solution
/// occupies, and the list's new length.
#[derive(Clone, Copy, Debug, PartialEq, Eq, Structural)]
pub struct KPointStates {
    pub up_start: usize,
    pub up_end: usize,
    pub down_start: usize,
    pub down_end: usize,
    pub next: usize,
}

/// Append one k-point's bands to a pooled list of `len` states: the scalar
/// route appends the `n_up` up bands, then the `n_down` down bands; the
/// second variation and the spinor solve append their `n_up` bands once,
/// and both spin channels read that one range.
pub open spec fn spec_k_point_states(route: BandRoute, len: int, n_up: int, n_down: int) -> KPointStates {
    match route {
        BandRoute::Scalar => KPointStates {
            up_start: len as usize,
            up_end: (len + n_up) as usize,
            down_start: (len + n_up) as usize,
            down_end: (len + n_up + n_down) as usize,
            next: (len + n_up + n_down) as usize,
        },
        _ => KPointStates {
            up_start: len as usize,
            up_end: (len + n_up) as usize,
            down_start: len as usize,
            down_end: (len + n_up) as usize,
            next: (len + n_up) as usize,
        },
    }
}

/// The state ranges of one k-point solved by `route`, appended after `len`
/// pooled states (`n_down` is read only by the scalar route).
pub fn k_point_states(route: BandRoute, len: usize, n_up: usize, n_down: usize) -> (s: KPointStates)
    requires
        len + n_up + (if route == BandRoute::Scalar { n_down as int } else { 0 }) <= usize::MAX,
    ensures
        s == spec_k_point_states(route, len as int, n_up as int, n_down as int),
{
    match route {
        BandRoute::Scalar => KPointStates {
            up_start: len,
            up_end: len + n_up,
            down_start: len + n_up,
            down_end: len + n_up + n_down,
            next: len + n_up + n_down,
        },
        _ => KPointStates {
            up_start: len,
            up_end: len + n_up,
            down_start: len,
            down_end: len + n_up,
            next: len + n_up,
        },
    }
}

/// Consecutive k-points never share a state: the ranges one k-point
/// occupies end where the next k-point's ranges begin, and its channels
/// lie inside `[len, next)`.
pub proof fn lemma_k_point_states_tile(route: BandRoute, len: int, n_up: int, n_down: int)
    requires
        0 <= len,
        0 <= n_up,
        0 <= n_down,
        len + n_up + n_down <= usize::MAX,
    ensures
        ({
            let s = spec_k_point_states(route, len, n_up, n_down);
            &&& s.up_start == len && s.up_start <= s.up_end <= s.next
            &&& len <= s.down_start <= s.down_end <= s.next
            &&& route == BandRoute::Scalar ==> s.up_end == s.down_start && s.next - len == n_up + n_down
            &&& route != BandRoute::Scalar ==> s.up_start == s.down_start && s.up_end == s.down_end && s.next - len == n_up
        }),
{
}

} // verus!
