use mt_runtime::band_routes::{
    band_route, k_point_states, BandRoute, KPointStates, RouteError, RoutePotential,
};
use mt_runtime::workflow::Relativity;

fn quiet(sites: usize) -> RoutePotential {
    RoutePotential {
        transverse_within_tolerance: true,
        magnetic_within_tolerance: true,
        nonmagnetic_scalar_sites: vec![true; sites],
    }
}

#[test]
fn band_route_follows_the_relativistic_treatment() {
    assert_eq!(band_route(4, Relativity::Scalar, 7, &quiet(2)), Ok(BandRoute::Scalar));
    assert_eq!(
        band_route(4, Relativity::SocSecondVariation, 0, &quiet(2)),
        Ok(BandRoute::SecondVariation)
    );
    assert_eq!(band_route(1, Relativity::SpinorFirstVariation, 3, &quiet(0)), Ok(BandRoute::Spinor));
}

#[test]
fn band_route_rejects_an_empty_k_point_set() {
    assert_eq!(
        band_route(0, Relativity::SpinorFirstVariation, 0, &quiet(1)),
        Err(RouteError::EmptyKPointSet)
    );
}

#[test]
fn collinear_routes_reject_a_transverse_potential() {
    let mut potential = quiet(1);
    potential.transverse_within_tolerance = false;
    assert_eq!(
        band_route(2, Relativity::Scalar, 0, &potential),
        Err(RouteError::TransversePotentialUnsupported)
    );
    assert_eq!(
        band_route(2, Relativity::SocSecondVariation, 1, &potential),
        Err(RouteError::TransversePotentialUnsupported)
    );
    assert_eq!(band_route(2, Relativity::SpinorFirstVariation, 0, &potential), Ok(BandRoute::Spinor));
}

#[test]
fn second_variation_needs_nonmagnetic_scalar_sites_and_a_full_window() {
    let mut potential = quiet(3);
    potential.nonmagnetic_scalar_sites[1] = false;
    assert_eq!(
        band_route(2, Relativity::SocSecondVariation, 1, &potential),
        Err(RouteError::SecondVariationRequiresNonmagneticScalar)
    );
    let mut potential = quiet(3);
    potential.magnetic_within_tolerance = false;
    assert_eq!(
        band_route(2, Relativity::SocSecondVariation, 0, &potential),
        Err(RouteError::SecondVariationRequiresNonmagneticScalar)
    );
    assert_eq!(
        band_route(2, Relativity::SocSecondVariation, 1, &quiet(3)),
        Err(RouteError::SecondVariationDropsLowerBands { start: 1 })
    );
}

#[test]
fn k_point_states_tile_the_pooled_list() {
    assert_eq!(
        k_point_states(BandRoute::Scalar, 10, 4, 3),
        KPointStates { up_start: 10, up_end: 14, down_start: 14, down_end: 17, next: 17 }
    );
    assert_eq!(
        k_point_states(BandRoute::SecondVariation, 6, 8, 99),
        KPointStates { up_start: 6, up_end: 14, down_start: 6, down_end: 14, next: 14 }
    );
    assert_eq!(
        k_point_states(BandRoute::Spinor, 0, 5, 0),
        KPointStates { up_start: 0, up_end: 5, down_start: 0, down_end: 5, next: 5 }
    );
}
