//! The integer gather table of the interstitial pair contraction: for each
//! left and right plane wave of one k-point, the relative reciprocal vector
//! `G_right - G_left + G_wrap` is looked up among the raw interstitial pair
//! components, and the table records, per component and right plane wave,
//! which left plane wave feeds it.
use vstd::prelude::*;

verus! {

/// Integer reciprocal-lattice coordinates of a plane wave or a relative
/// vector.
#[derive(Clone, Copy, Debug, PartialEq, Eq, Structural)]
pub struct GIndex {
    pub g1: i32,
    pub g2: i32,
    pub g3: i32,
}

/// The table value of a cell no left plane wave feeds.
pub const UNFED: usize = usize::MAX;

/// `G_right - G_left + G_wrap`, axis by axis.
pub open spec fn relative_g(left: GIndex, right: GIndex, wrap: GIndex) -> (int, int, int) {
    (right.g1 - left.g1 + wrap.g1, right.g2 - left.g2 + wrap.g2, right.g3 - left.g3 + wrap.g3)
}

/// `G_right - G_left` and `G_right - G_left + G_wrap` fit `i32` on every axis.
pub open spec fn relative_fits_one(left: GIndex, right: GIndex, wrap: GIndex) -> bool {
    let g = relative_g(left, right, wrap);
    &&& i32::MIN <= right.g1 - left.g1 <= i32::MAX
    &&& i32::MIN <= right.g2 - left.g2 <= i32::MAX
    &&& i32::MIN <= right.g3 - left.g3 <= i32::MAX
    &&& i32::MIN <= g.0 <= i32::MAX
    &&& i32::MIN <= g.1 <= i32::MAX
    &&& i32::MIN <= g.2 <= i32::MAX
}

/// Every relative vector of the k-point is computed without leaving `i32`.
pub open spec fn relative_fits(left: Seq<GIndex>, right: Seq<GIndex>, wrap: GIndex) -> bool {
    forall|lg: int, rg: int| 0 <= lg < left.len() && 0 <= rg < right.len()
        ==> #[trigger] relative_fits_one(left[lg], right[rg], wrap)
}

/// The relative vector as a `GIndex` (meaningful when it fits).
pub open spec fn relative_index(left: GIndex, right: GIndex, wrap: GIndex) -> GIndex {
    let g = relative_g(left, right, wrap);
    GIndex { g1: g.0 as i32, g2: g.1 as i32, g3: g.2 as i32 }
}

/// The last position among the first `upto` components whose vector is
/// `g`: the lookup keeps the last component written for a vector.
pub open spec fn last_position(components: Seq<GIndex>, g: GIndex, upto: int) -> Option<int>
    decreases upto,
{
    if upto <= 0 {
        None
    } else if components[upto - 1] == g {
        Some(upto - 1)
    } else {
        last_position(components, g, upto - 1)
    }
}

/// The component a pair `(lg, rg)` lands on, if any.
pub open spec fn pair_position(components: Seq<GIndex>, left: Seq<GIndex>, right: Seq<GIndex>, wrap: GIndex, lg: int, rg: int) -> Option<int> {
    last_position(components, relative_index(left[lg], right[rg], wrap), components.len() as int)
}

/// The last left plane wave below `upto` whose pair with right plane wave
/// `rg` lands on component `p`.
pub open spec fn last_writer(components: Seq<GIndex>, left: Seq<GIndex>, right: Seq<GIndex>, wrap: GIndex, p: int, rg: int, upto: int) -> Option<int>
    decreases upto,
{
    if upto <= 0 {
        None
    } else if pair_position(components, left, right, wrap, upto - 1, rg) == Some(p) {
        Some(upto - 1)
    } else {
        last_writer(components, left, right, wrap, p, rg, upto - 1)
    }
}

/// A table cell's value for a writer.
pub open spec fn cell_value(w: Option<int>) -> usize {
    match w {
        Some(lg) => lg as usize,
        None => UNFED,
    }
}

/// Cell `(p, rg)` of a row-major table with `width` columns.
pub open spec fn gather_cell(p: int, width: int, rg: int) -> int {
    p * width + rg
}

/// Pair `(lg2, rg2)` comes before pair `(lg, rg)`: left plane waves slow,
/// right plane waves fast.
pub open spec fn pair_before(lg2: int, rg2: int, lg: int, rg: int) -> bool {
    lg2 < lg || (lg2 == lg && rg2 < rg)
}

/// Pair `(lg, rg)` is the first that lands on no component.
pub open spec fn first_unknown_pair(components: Seq<GIndex>, left: Seq<GIndex>, right: Seq<GIndex>, wrap: GIndex, lg: int, rg: int) -> bool {
    &&& 0 <= lg < left.len() && 0 <= rg < right.len()
    &&& pair_position(components, left, right, wrap, lg, rg) is None
    &&& forall|lg2: int, rg2: int| 0 <= lg2 < left.len() && 0 <= rg2 < right.len() && pair_before(lg2, rg2, lg, rg)
        ==> (#[trigger] pair_position(components, left, right, wrap, lg2, rg2)) is Some
}

proof fn lemma_last_position_bounds(components: Seq<GIndex>, g: GIndex, upto: int)
    ensures
        last_position(components, g, upto) matches Some(p) ==> 0 <= p < upto && components[p] == g,
    decreases upto,
{
    if upto > 0 {
        lemma_last_position_bounds(components, g, upto - 1);
    }
}

proof fn lemma_cell_bounds(p: int, width: int, rg: int, rows: int)
    requires
        0 <= p < rows,
        0 <= rg < width,
    ensures
        0 <= gather_cell(p, width, rg) < rows * width,
{
    assert(p * width + rg < (p + 1) * width) by (nonlinear_arith)
        requires
            0 <= rg < width,
    ;
    assert((p + 1) * width <= rows * width) by (nonlinear_arith)
        requires
            p + 1 <= rows,
            0 <= width,
    ;
    assert(0 <= p * width) by (nonlinear_arith)
        requires
            0 <= p,
            0 <= width,
    ;
}

proof fn lemma_cell_injective(p1: int, rg1: int, p2: int, rg2: int, width: int)
    requires
        0 <= p1,
        0 <= p2,
        0 <= rg1 < width,
        0 <= rg2 < width,
        gather_cell(p1, width, rg1) == gather_cell(p2, width, rg2),
    ensures
        p1 == p2,
        rg1 == rg2,
{
    if p1 < p2 {
        assert(p1 * width + rg1 < p2 * width + rg2) by (nonlinear_arith)
            requires
                p1 < p2,
                0 <= rg1 < width,
                0 <= rg2,
        ;
    } else if p2 < p1 {
        assert(p2 * width + rg2 < p1 * width + rg1) by (nonlinear_arith)
            requires
                p2 < p1,
                0 <= rg2 < width,
                0 <= rg1,
        ;
    }
}

fn find_component(components: &Vec<GIndex>, g: GIndex) -> (r: Option<usize>)
    ensures
        match r {
            Some(p) => last_position(components@, g, components.len() as int) == Some(p as int),
            None => last_position(components@, g, components.len() as int) is None,
        },
{
    let mut j: usize = components.len();
    while j > 0
        invariant
            j <= components.len(),
            last_position(components@, g, components.len() as int) == last_position(components@, g, j as int),
        decreases j,
    {
        if components[j - 1] == g {
            return Some(j - 1);
        }
        j = j - 1;
    }
    None
}

/// `c` is the relative vector `right - left + wrap` of a pair, on all
/// three axes.
pub open spec fn is_vector_of(c: GIndex, left: GIndex, right: GIndex, wrap: GIndex) -> bool {
    &&& c.g1 == right.g1 - left.g1 + wrap.g1
    &&& c.g2 == right.g2 - left.g2 + wrap.g2
    &&& c.g3 == right.g3 - left.g3 + wrap.g3
}

/// No later component repeats component `p`'s vector.
pub open spec fn last_of_its_vector(components: Seq<GIndex>, p: int) -> bool {
    forall|q: int| p < q < components.len() ==> #[trigger] components[q] != components[p]
}

proof fn lemma_last_position_meaning(components: Seq<GIndex>, g: GIndex, upto: int)
    requires
        0 <= upto <= components.len(),
    ensures
        last_position(components, g, upto) matches Some(p) ==> 0 <= p < upto && components[p] == g
            && forall|q: int| p < q < upto ==> #[trigger] components[q] != g,
        last_position(components, g, upto) is None ==> forall|q: int| 0 <= q < upto ==> #[trigger] components[q] != g,
    decreases upto,
{
    if upto > 0 {
        lemma_last_position_meaning(components, g, upto - 1);
    }
}

proof fn lemma_relative_index_axes(left: GIndex, right: GIndex, wrap: GIndex)
    requires
        relative_fits_one(left, right, wrap),
    ensures
        is_vector_of(relative_index(left, right, wrap), left, right, wrap),
{
}

proof fn lemma_last_writer_meaning(components: Seq<GIndex>, left: Seq<GIndex>, right: Seq<GIndex>, wrap: GIndex, p: int, rg: int, upto: int)
    requires
        0 <= upto,
    ensures
        last_writer(components, left, right, wrap, p, rg, upto) matches Some(lg) ==> 0 <= lg < upto
            && pair_position(components, left, right, wrap, lg, rg) == Some(p)
            && forall|lg2: int| lg < lg2 < upto ==> #[trigger] pair_position(components, left, right, wrap, lg2, rg) != Some(p),
        last_writer(components, left, right, wrap, p, rg, upto) is None
            ==> forall|lg2: int| 0 <= lg2 < upto ==> #[trigger] pair_position(components, left, right, wrap, lg2, rg) != Some(p),
    decreases upto,
{
    if upto > 0 {
        lemma_last_writer_meaning(components, left, right, wrap, p, rg, upto - 1);
    }
}

/// What a gather table means, on the vectors themselves: every pair of
/// plane waves has its vector `right - left + wrap` among the components;
/// a fed cell `(p, rg)` names a left plane wave whose pair with `rg` has
/// component `p`'s vector, `p` being the last component with that vector;
/// and every left plane wave whose pair with `rg` lands on such a last
/// component `p` is at most the one the cell names.
pub proof fn lemma_gather_table_meaning(components: Seq<GIndex>, left: Seq<GIndex>, right: Seq<GIndex>, wrap: GIndex, table: Seq<usize>)
    requires
        relative_fits(left, right, wrap),
        left.len() <= usize::MAX,
        forall|lg: int, rg: int| 0 <= lg < left.len() && 0 <= rg < right.len()
            ==> (#[trigger] pair_position(components, left, right, wrap, lg, rg)) is Some,
        table.len() == components.len() * right.len(),
        forall|p: int, rg: int| 0 <= p < components.len() && 0 <= rg < right.len()
            ==> table[#[trigger] gather_cell(p, right.len() as int, rg)]
                == cell_value(last_writer(components, left, right, wrap, p, rg, left.len() as int)),
    ensures
        forall|lg: int, rg: int| #![trigger left[lg], right[rg]] 0 <= lg < left.len() && 0 <= rg < right.len()
            ==> exists|p: int| 0 <= p < components.len() && is_vector_of(#[trigger] components[p], left[lg], right[rg], wrap),
        forall|p: int, rg: int| 0 <= p < components.len() && 0 <= rg < right.len()
            && #[trigger] table[gather_cell(p, right.len() as int, rg)] != UNFED ==> {
            let lg = table[gather_cell(p, right.len() as int, rg)] as int;
            &&& lg < left.len()
            &&& is_vector_of(components[p], left[lg], right[rg], wrap)
            &&& last_of_its_vector(components, p)
        },
        forall|p: int, rg: int, lg: int| #![trigger table[gather_cell(p, right.len() as int, rg)], left[lg]]
            0 <= p < components.len() && 0 <= rg < right.len() && 0 <= lg < left.len()
            && is_vector_of(components[p], left[lg], right[rg], wrap) && last_of_its_vector(components, p)
            ==> table[gather_cell(p, right.len() as int, rg)] != UNFED && lg <= table[gather_cell(p, right.len() as int, rg)],
{
    let n = components.len() as int;
    assert forall|lg: int, rg: int| #![trigger left[lg], right[rg]] 0 <= lg < left.len() && 0 <= rg < right.len()
        implies exists|p: int| 0 <= p < components.len() && is_vector_of(#[trigger] components[p], left[lg], right[rg], wrap) by {
        assert(pair_position(components, left, right, wrap, lg, rg) is Some);
        let g = relative_index(left[lg], right[rg], wrap);
        lemma_last_position_meaning(components, g, n);
        assert(relative_fits_one(left[lg], right[rg], wrap));
        lemma_relative_index_axes(left[lg], right[rg], wrap);
        let p = pair_position(components, left, right, wrap, lg, rg)->0;
        assert(is_vector_of(components[p], left[lg], right[rg], wrap));
    }
    assert forall|p: int, rg: int| 0 <= p < components.len() && 0 <= rg < right.len()
        && #[trigger] table[gather_cell(p, right.len() as int, rg)] != UNFED implies {
        let lg = table[gather_cell(p, right.len() as int, rg)] as int;
        &&& lg < left.len()
        &&& is_vector_of(components[p], left[lg], right[rg], wrap)
        &&& last_of_its_vector(components, p)
    } by {
        lemma_last_writer_meaning(components, left, right, wrap, p, rg, left.len() as int);
        let w = last_writer(components, left, right, wrap, p, rg, left.len() as int);
        assert(table[gather_cell(p, right.len() as int, rg)] == cell_value(w));
        assert(w is Some);
        let lg = w->0;
        assert(table[gather_cell(p, right.len() as int, rg)] as int == lg);
        assert(pair_position(components, left, right, wrap, lg, rg) == Some(p));
        let g = relative_index(left[lg], right[rg], wrap);
        lemma_last_position_meaning(components, g, n);
        assert(components[p] == g);
        assert(relative_fits_one(left[lg], right[rg], wrap));
        lemma_relative_index_axes(left[lg], right[rg], wrap);
        assert(is_vector_of(components[p], left[lg], right[rg], wrap));
        assert(last_of_its_vector(components, p));
    }
    assert forall|p: int, rg: int, lg: int| #![trigger table[gather_cell(p, right.len() as int, rg)], left[lg]]
        0 <= p < components.len() && 0 <= rg < right.len() && 0 <= lg < left.len()
        && is_vector_of(components[p], left[lg], right[rg], wrap) && last_of_its_vector(components, p)
        implies table[gather_cell(p, right.len() as int, rg)] != UNFED && lg <= table[gather_cell(p, right.len() as int, rg)] by {
        let g = relative_index(left[lg], right[rg], wrap);
        assert(relative_fits_one(left[lg], right[rg], wrap));
        lemma_relative_index_axes(left[lg], right[rg], wrap);
        assert(g == components[p]);
        lemma_last_position_meaning(components, g, n);
        assert(pair_position(components, left, right, wrap, lg, rg) is Some);
        let p2 = pair_position(components, left, right, wrap, lg, rg)->0;
        if p2 != p {
            if p2 < p {
                assert(components[p] != g);
            } else {
                assert(components[p2] != components[p]);
            }
        }
        lemma_last_writer_meaning(components, left, right, wrap, p, rg, left.len() as int);
        let w = last_writer(components, left, right, wrap, p, rg, left.len() as int);
        assert(w is Some);
        assert(w->0 < left.len());
        assert(lg <= w->0);
        assert(table[gather_cell(p, right.len() as int, rg)] == cell_value(w));
    }
}

/// The gather table of one k-point: cell `p * right.len() + rg` names the
/// last left plane wave (in order) whose pair with right plane wave `rg`
/// lands on raw component `p`, or [`UNFED`]. Pairs are visited left plane
/// wave slow, right fast; the first pair whose relative vector is not
/// among the components is reported with that vector. (A k-point with no
/// raw components or no auxiliary plane waves is skipped by the caller
/// before any table is built.)
pub fn interstitial_gather(components: &Vec<GIndex>, left: &Vec<GIndex>, right: &Vec<GIndex>, wrap: GIndex) -> (r: Result<Vec<usize>, GIndex>)
    requires
        relative_fits(left@, right@, wrap),
        components.len() * right.len() <= usize::MAX,
    ensures
        match r {
            Ok(table) => {
                &&& forall|lg: int, rg: int| 0 <= lg < left.len() && 0 <= rg < right.len()
                    ==> (#[trigger] pair_position(components@, left@, right@, wrap, lg, rg)) is Some
                &&& table.len() == components.len() * right.len()
                &&& forall|p: int, rg: int| 0 <= p < components.len() && 0 <= rg < right.len()
                    ==> table@[#[trigger] gather_cell(p, right.len() as int, rg)]
                        == cell_value(last_writer(components@, left@, right@, wrap, p, rg, left.len() as int))
            },
            Err(g) => exists|lg: int, rg: int| #[trigger] first_unknown_pair(components@, left@, right@, wrap, lg, rg)
                && g == relative_index(left@[lg], right@[rg], wrap),
        },
        r matches Ok(table) ==> {
            &&& forall|lg: int, rg: int| #![trigger left@[lg], right@[rg]] 0 <= lg < left.len() && 0 <= rg < right.len()
                ==> exists|p: int| 0 <= p < components.len() && is_vector_of(#[trigger] components@[p], left@[lg], right@[rg], wrap)
            &&& forall|p: int, rg: int| 0 <= p < components.len() && 0 <= rg < right.len()
                && #[trigger] table@[gather_cell(p, right.len() as int, rg)] != UNFED ==> {
                let lg = table@[gather_cell(p, right.len() as int, rg)] as int;
                &&& lg < left.len()
                &&& is_vector_of(components@[p], left@[lg], right@[rg], wrap)
                &&& last_of_its_vector(components@, p)
            }
            &&& forall|p: int, rg: int, lg: int| #![trigger table@[gather_cell(p, right.len() as int, rg)], left@[lg]]
                0 <= p < components.len() && 0 <= rg < right.len() && 0 <= lg < left.len()
                && is_vector_of(components@[p], left@[lg], right@[rg], wrap) && last_of_its_vector(components@, p)
                ==> table@[gather_cell(p, right.len() as int, rg)] != UNFED && lg <= table@[gather_cell(p, right.len() as int, rg)]
        },
        r matches Err(g) ==> (exists|lg: int, rg: int| #![trigger left@[lg], right@[rg]] 0 <= lg < left.len() && 0 <= rg < right.len()
            && is_vector_of(g, left@[lg], right@[rg], wrap))
            && forall|p: int| 0 <= p < components.len() ==> #[trigger] components@[p] != g,
{
    let n_raw = components.len();
    let n_right = right.len();
    let size: usize = n_raw * n_right;
    let mut table: Vec<usize> = Vec::new();
    let mut i: usize = 0;
    while i < size
        invariant
            i <= size,
            table.len() == i,
            forall|x: int| 0 <= x < i ==> #[trigger] table@[x] == UNFED,
        decreases size - i,
    {
        table.push(UNFED);
        i = i + 1;
    }
    proof {
        assert forall|p: int, rg2: int| 0 <= p < n_raw && 0 <= rg2 < n_right
            implies table@[#[trigger] gather_cell(p, n_right as int, rg2)]
                == cell_value(last_writer(components@, left@, right@, wrap, p, rg2, 0)) by {
            lemma_cell_bounds(p, n_right as int, rg2, n_raw as int);
        }
    }
    let mut lg: usize = 0;
    while lg < left.len()
        invariant
            relative_fits(left@, right@, wrap),
            n_raw == components.len(),
            n_right == right.len(),
            size == n_raw * n_right,
            table.len() == size,
            lg <= left.len(),
            forall|lg2: int, rg2: int| 0 <= lg2 < lg && 0 <= rg2 < n_right
                ==> (#[trigger] pair_position(components@, left@, right@, wrap, lg2, rg2)) is Some,
            forall|p: int, rg2: int| 0 <= p < n_raw && 0 <= rg2 < n_right
                ==> table@[#[trigger] gather_cell(p, n_right as int, rg2)]
                    == cell_value(last_writer(components@, left@, right@, wrap, p, rg2, lg as int)),
        decreases left.len() - lg,
    {
        let mut rg: usize = 0;
        while rg < n_right
            invariant
                relative_fits(left@, right@, wrap),
                n_raw == components.len(),
                n_right == right.len(),
                size == n_raw * n_right,
                table.len() == size,
                lg < left.len(),
                rg <= n_right,
                forall|lg2: int, rg2: int| 0 <= lg2 < left.len() && 0 <= rg2 < n_right && pair_before(lg2, rg2, lg as int, rg as int)
                    ==> (#[trigger] pair_position(components@, left@, right@, wrap, lg2, rg2)) is Some,
                forall|p: int, rg2: int| 0 <= p < n_raw && 0 <= rg2 < n_right
                    ==> table@[#[trigger] gather_cell(p, n_right as int, rg2)]
                        == cell_value(last_writer(components@, left@, right@, wrap, p, rg2, if rg2 < rg { lg as int + 1 } else { lg as int })),
            decreases n_right - rg,
        {
            let l = left[lg];
            let rt = right[rg];
            proof {
                assert(relative_fits_one(left@[lg as int], right@[rg as int], wrap));
            }
            let g = GIndex { g1: rt.g1 - l.g1 + wrap.g1, g2: rt.g2 - l.g2 + wrap.g2, g3: rt.g3 - l.g3 + wrap.g3 };
            assert(g == relative_index(left@[lg as int], right@[rg as int], wrap));
            match find_component(components, g) {
                None => {
                    proof {
                        assert(first_unknown_pair(components@, left@, right@, wrap, lg as int, rg as int));
                        lemma_last_position_meaning(components@, g, n_raw as int);
                        assert(relative_fits_one(left@[lg as int], right@[rg as int], wrap));
                        lemma_relative_index_axes(left@[lg as int], right@[rg as int], wrap);
                        assert(is_vector_of(g, left@[lg as int], right@[rg as int], wrap));
                    }
                    return Err(g);
                },
                Some(p0) => {
                    proof { lemma_last_position_bounds(components@, g, n_raw as int); }
                    proof { lemma_cell_bounds(p0 as int, n_right as int, rg as int, n_raw as int); }
                    let ghost before = table@;
                    table.set(p0 * n_right + rg, lg);
                    proof {
                        assert forall|p: int, rg2: int| 0 <= p < n_raw && 0 <= rg2 < n_right
                            implies table@[#[trigger] gather_cell(p, n_right as int, rg2)]
                                == cell_value(last_writer(components@, left@, right@, wrap, p, rg2, if rg2 < rg + 1 { lg as int + 1 } else { lg as int })) by {
                            lemma_cell_bounds(p, n_right as int, rg2, n_raw as int);
                            if p == p0 && rg2 == rg {
                                assert(pair_position(components@, left@, right@, wrap, lg as int, rg as int) == Some(p0 as int));
                            } else {
                                if gather_cell(p, n_right as int, rg2) == gather_cell(p0 as int, n_right as int, rg as int) {
                                    lemma_cell_injective(p, rg2, p0 as int, rg as int, n_right as int);
                                }
                                assert(table@[gather_cell(p, n_right as int, rg2)] == before[gather_cell(p, n_right as int, rg2)]);
                                if rg2 == rg {
                                    assert(pair_position(components@, left@, right@, wrap, lg as int, rg as int) == Some(p0 as int));
                                    assert(last_writer(components@, left@, right@, wrap, p, rg2, lg as int + 1)
                                        == last_writer(components@, left@, right@, wrap, p, rg2, lg as int));
                                }
                            }
                        }
                    }
                },
            }
            rg = rg + 1;
        }
        lg = lg + 1;
    }
    proof {
        assert forall|p: int, rg2: int| 0 <= p < n_raw && 0 <= rg2 < n_right
            implies table@[#[trigger] gather_cell(p, n_right as int, rg2)]
                == cell_value(last_writer(components@, left@, right@, wrap, p, rg2, left.len() as int)) by {
            lemma_cell_bounds(p, n_right as int, rg2, n_raw as int);
        }
        lemma_gather_table_meaning(components@, left@, right@, wrap, table@);
    }
    Ok(table)
}

} // verus!
