# mt_runtime

The integer and bookkeeping core of a muffin-tin (LAPW) electronic-structure
runtime, written in Verus: every function in `src/` carries a contract that
Verus proves.

- `kappa`: Dirac `kappa`, `l`, `2j`, the `2mu` channels and their inverse.
- `site_coords`, `lo_tables`: scalar APW/LO site coordinates and the local
  orbital rows of the export, with the law that the exported rows decode back.
- `spinor_layout`, `site_match`, `valence_radials`: spinor site-projection
  rows and their inverse, APW channel order and coordinate tables, and the
  valence radials of a solved site.
- `channels`, `base_channels`, `local_orbitals`: basis channel recipes, base
  channels per `l`, local-orbital numbering and requests.
- `workflow`, `paths`: task sources, recipe sites, the next action of a
  workflow run and input-relative paths.
- `atomic_request`: admission of an atomic-superposition restart request.
- `band_routes`: the band-solve route of a relativistic treatment and the
  state ranges each k-point occupies.
- `core_table`: admission of core sidecars and the canonical flat core table.
- `selection`, `column_order`, `q_map`, `coqui_map`, `mldump_tables`: band
  windows and selections, pair columns, `k - q` maps and export tables.
- `product_shape`: shape validation of a frozen spinor product input and
  the admission of the spinor and scalar Coulomb q slices.
- `export_basis`: exportability of the compiled spinor bases of an MLDUMP
  export.
- `sector_thc`: integer admission of a four-sector THC fit for the exchange
  export.
- `ordered_keys`: order facts for the keys the library gathers in ordered
  sets and maps.
- `interstitial_gather`: the gather table of the interstitial pair
  contraction.
- `dense_windows`: leading bands, band selections and spin halves of dense
  column-major coefficient matrices.

Not in the library: the floating-point work of the runtime (the DFT
solvers and SCF physics, the mixed-product and THC builders, the Coulomb
and exchange contractions, the core relaxation, the MLDUMP and CoQui
writers and the Cholesky factorization). These run on the workspace's own
muffin-tin crates and on sampled `f64` data; the library keeps their index,
layout and admission logic.

`app/` holds file access and the floating-point checks that turn sampled data
into the verdicts the library takes (and re-attaches the sampled values to
the rejections that name them); `tests/` runs the library on examples.
