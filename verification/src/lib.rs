//! Verified index, layout and bookkeeping logic of the muffin-tin runtime:
//! relativistic quantum-number algebra, basis-coordinate layouts, channel
//! recipes and local-orbital requests, workflow task resolution, core
//! sidecar admission, pair-column and transfer maps, shape checks of the
//! frozen product inputs and exported bases, band windows of dense
//! coefficient matrices, band-solve routes, and the integer tables of the
//! MLDUMP and CoQui exports.
use vstd::prelude::*;

pub mod kappa;
pub mod site_coords;
pub mod spinor_layout;
pub mod channels;
pub mod workflow;
pub mod mldump_tables;
pub mod selection;
pub mod q_map;
pub mod paths;
pub mod core_table;
pub mod site_match;
pub mod coqui_map;
pub mod column_order;
pub mod lo_tables;
pub mod valence_radials;
pub mod local_orbitals;
pub mod base_channels;
pub mod atomic_request;
pub mod dense_windows;
pub mod band_routes;
pub mod product_shape;
pub mod export_basis;
pub mod ordered_keys;
pub mod sector_thc;
pub mod interstitial_gather;

verus! {

} // verus!
