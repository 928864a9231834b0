//! Local-orbital row tables of the scalar MLDUMP export: after the plane
//! waves, each site's local orbitals in `(l, m, ordinal)` order, `m` from
//! `-l` to `l` and the ordinal fastest.
use vstd::prelude::*;
use crate::site_coords::{SCALAR_RADIAL_LO0, lo_block_start, lo_total, is_lo_row};

verus! {

/// Local-orbital rows of the eigenbasis with their quantum numbers.
#[derive(Debug, PartialEq, Eq)]
pub struct ScalarLoTables {
    pub n_lo: usize,
    pub row_index: Vec<i64>,
    pub site: Vec<i64>,
    pub l: Vec<i64>,
    pub m: Vec<i64>,
    pub ordinal: Vec<i64>,
    pub radial_n: Vec<i64>,
}

// ---------------------------------------------------------------------
// Specification.

/// Rows `(site, l, m, ordinal)` of the `t`-th `m` (`m = t - l`) of an `l`
/// block with `count` local orbitals.
pub open spec fn m_block(site: int, l: int, t: int, count: usize) -> Seq<(int, int, int, int)> {
    Seq::new(count as nat, |o: int| (site, l, t - l, o))
}

/// Rows of the first `upto` values of `m` of an `l` block.
pub open spec fn l_block(site: int, l: int, count: usize, upto: int) -> Seq<(int, int, int, int)>
    decreases upto,
{
    if upto <= 0 {
        Seq::empty()
    } else {
        l_block(site, l, count, upto - 1) + m_block(site, l, upto - 1, count)
    }
}

/// Rows of the first `upto` `l` blocks of a site with `counts[l]` local
/// orbitals per `l`.
pub open spec fn site_rows(site: int, counts: Seq<usize>, upto: int) -> Seq<(int, int, int, int)>
    decreases upto,
{
    if upto <= 0 {
        Seq::empty()
    } else {
        site_rows(site, counts, upto - 1) + l_block(site, upto - 1, counts[upto - 1], 2 * (upto - 1) + 1)
    }
}

/// All rows of one site (none when it has no local-orbital layout).
pub open spec fn one_site_rows(site: int, layout: Option<Vec<usize>>) -> Seq<(int, int, int, int)> {
    match layout {
        None => Seq::empty(),
        Some(counts) => site_rows(site, counts@, counts.len() as int),
    }
}

/// Rows of the first `upto` sites.
pub open spec fn all_rows(sites: Seq<Option<Vec<usize>>>, upto: int) -> Seq<(int, int, int, int)>
    decreases upto,
{
    if upto <= 0 {
        Seq::empty()
    } else {
        all_rows(sites, upto - 1) + one_site_rows(upto - 1, sites[upto - 1])
    }
}

/// The tables list `rows` after `n_pw` plane-wave rows.
pub open spec fn tables_match(n_pw: int, t: ScalarLoTables, rows: Seq<(int, int, int, int)>) -> bool {
    &&& t.n_lo == rows.len()
    &&& t.row_index.len() == rows.len()
    &&& t.site.len() == rows.len()
    &&& t.l.len() == rows.len()
    &&& t.m.len() == rows.len()
    &&& t.ordinal.len() == rows.len()
    &&& t.radial_n.len() == rows.len()
    &&& forall|x: int| 0 <= x < rows.len() ==> {
        &&& #[trigger] t.row_index@[x] == n_pw + x
        &&& t.site@[x] == rows[x].0
        &&& t.l@[x] == rows[x].1
        &&& t.m@[x] == rows[x].2
        &&& t.ordinal@[x] == rows[x].3
        &&& t.radial_n@[x] == SCALAR_RADIAL_LO0 + rows[x].3
    }
}

// ---------------------------------------------------------------------
// Proof.

proof fn lemma_l_block_len(site: int, l: int, count: usize, upto: int)
    requires
        upto >= 0,
    ensures
        l_block(site, l, count, upto).len() == upto * count,
    decreases upto,
{
    if upto > 0 {
        lemma_l_block_len(site, l, count, upto - 1);
        assert(upto * count == (upto - 1) * count + count) by (nonlinear_arith);
        assert(m_block(site, l, upto - 1, count).len() == count);
    } else {
        assert(upto * count == 0) by (nonlinear_arith)
            requires
                upto == 0,
        ;
    }
}

proof fn lemma_site_rows_len(site: int, counts: Seq<usize>, upto: int)
    requires
        0 <= upto <= counts.len(),
    ensures
        site_rows(site, counts, upto).len() == lo_block_start(counts, upto),
    decreases upto,
{
    if upto > 0 {
        lemma_site_rows_len(site, counts, upto - 1);
        lemma_l_block_len(site, upto - 1, counts[upto - 1], 2 * (upto - 1) + 1);
        assert((2 * (upto - 1) + 1) * counts[upto - 1] == counts[upto - 1] * (2 * (upto - 1) + 1)) by (nonlinear_arith);
    }
}

proof fn lemma_all_rows_prefix(sites: Seq<Option<Vec<usize>>>, a: int, b: int)
    requires
        0 <= a <= b,
    ensures
        all_rows(sites, a).len() <= all_rows(sites, b).len(),
    decreases b - a,
{
    if a < b {
        lemma_all_rows_prefix(sites, a, b - 1);
    }
}

proof fn lemma_site_rows_prefix(site: int, counts: Seq<usize>, a: int, b: int)
    requires
        0 <= a <= b,
    ensures
        site_rows(site, counts, a).len() <= site_rows(site, counts, b).len(),
    decreases b - a,
{
    if a < b {
        lemma_site_rows_prefix(site, counts, a, b - 1);
    }
}

proof fn lemma_l_block_prefix(site: int, l: int, count: usize, a: int, b: int)
    requires
        0 <= a <= b,
    ensures
        l_block(site, l, count, a).len() <= l_block(site, l, count, b).len(),
    decreases b - a,
{
    if a < b {
        lemma_l_block_prefix(site, l, count, a, b - 1);
    }
}

/// Row `x` of an `l` block is `m = t - l`, ordinal `o` with `x = t count + o`.
proof fn lemma_l_block_entry(site: int, l: int, count: usize, upto: int, x: int)
    requires
        upto >= 0,
        0 <= x < l_block(site, l, count, upto).len(),
    ensures
        0 <= l_block(site, l, count, upto)[x].2 + l < upto,
        0 <= l_block(site, l, count, upto)[x].3 < count,
        x == (l_block(site, l, count, upto)[x].2 + l) * count + l_block(site, l, count, upto)[x].3,
        l_block(site, l, count, upto)[x].0 == site,
        l_block(site, l, count, upto)[x].1 == l,
    decreases upto,
{
    lemma_l_block_len(site, l, count, upto - 1);
    let prev = l_block(site, l, count, upto - 1);
    if x < prev.len() {
        lemma_l_block_entry(site, l, count, upto - 1, x);
    } else {
        let o = x - prev.len();
        assert(l_block(site, l, count, upto)[x] == m_block(site, l, upto - 1, count)[o]);
    }
}

/// Each row of a site's rows is the local orbital that `lo_quantum_numbers`
/// decodes at its position.
proof fn lemma_site_rows_entry(site: int, counts: Seq<usize>, upto: int, x: int)
    requires
        0 <= upto <= counts.len(),
        0 <= x < site_rows(site, counts, upto).len(),
    ensures
        site_rows(site, counts, upto)[x].0 == site,
        is_lo_row(counts, x, site_rows(site, counts, upto)[x].1, site_rows(site, counts, upto)[x].2, site_rows(site, counts, upto)[x].3),
    decreases upto,
{
    let prev = site_rows(site, counts, upto - 1);
    lemma_site_rows_len(site, counts, upto - 1);
    if x < prev.len() {
        lemma_site_rows_entry(site, counts, upto - 1, x);
    } else {
        let l = upto - 1;
        let block = l_block(site, l, counts[l], 2 * l + 1);
        let y = x - prev.len();
        assert(site_rows(site, counts, upto)[x] == block[y]);
        lemma_l_block_entry(site, l, counts[l], 2 * l + 1, y);
        assert(counts[l] > 0);
    }
}

/// The exported local-orbital rows of a site are, position by position,
/// exactly the rows that `lo_quantum_numbers` decodes for that site's
/// layout, and there are `lo_total` of them.
pub proof fn lemma_site_rows_decode(site: int, counts: Seq<usize>)
    ensures
        site_rows(site, counts, counts.len() as int).len() == lo_total(counts),
        forall|x: int| 0 <= x < lo_total(counts) ==> {
            &&& (#[trigger] site_rows(site, counts, counts.len() as int)[x]).0 == site
            &&& is_lo_row(counts, x, site_rows(site, counts, counts.len() as int)[x].1, site_rows(site, counts, counts.len() as int)[x].2, site_rows(site, counts, counts.len() as int)[x].3)
        },
{
    lemma_site_rows_len(site, counts, counts.len() as int);
    assert forall|x: int| 0 <= x < lo_total(counts) implies {
        &&& (#[trigger] site_rows(site, counts, counts.len() as int)[x]).0 == site
        &&& is_lo_row(counts, x, site_rows(site, counts, counts.len() as int)[x].1, site_rows(site, counts, counts.len() as int)[x].2, site_rows(site, counts, counts.len() as int)[x].3)
    } by {
        lemma_site_rows_entry(site, counts, counts.len() as int, x);
    }
}

// ---------------------------------------------------------------------
// Implementation.

/// Append one row to the tables.
fn push_row(t: &mut ScalarLoTables, n_pw: usize, site: usize, l: usize, m: i32, ordinal: usize, Ghost(rows): Ghost<Seq<(int, int, int, int)>>)
    requires
        tables_match(n_pw as int, *old(t), rows),
        n_pw + rows.len() + SCALAR_RADIAL_LO0 <= i64::MAX,
        ordinal <= rows.len(),
        site <= i64::MAX,
        l <= i64::MAX,
    ensures
        tables_match(n_pw as int, *final(t), rows.push((site as int, l as int, m as int, ordinal as int))),
{
    let row = (n_pw as i64) + (t.n_lo as i64);
    t.row_index.push(row);
    t.site.push(site as i64);
    t.l.push(l as i64);
    t.m.push(m as i64);
    t.ordinal.push(ordinal as i64);
    t.radial_n.push((ordinal as i64) + 2);
    t.n_lo = t.row_index.len();
    proof {
        let nr = rows.push((site as int, l as int, m as int, ordinal as int));
        assert forall|x: int| 0 <= x < nr.len() implies {
            &&& #[trigger] t.row_index@[x] == n_pw + x
            &&& t.site@[x] == nr[x].0
            &&& t.l@[x] == nr[x].1
            &&& t.m@[x] == nr[x].2
            &&& t.ordinal@[x] == nr[x].3
            &&& t.radial_n@[x] == SCALAR_RADIAL_LO0 + nr[x].3
        } by {
            if x < rows.len() {
                assert(nr[x] == rows[x]);
                assert(t.row_index@[x] == old(t).row_index@[x]);
                assert(t.site@[x] == old(t).site@[x]);
                assert(t.l@[x] == old(t).l@[x]);
                assert(t.m@[x] == old(t).m@[x]);
                assert(t.ordinal@[x] == old(t).ordinal@[x]);
                assert(t.radial_n@[x] == old(t).radial_n@[x]);
            }
        }
    }
}

/// The local-orbital row tables of the sites' layouts (`None` for a site
/// without one), starting at row `n_pw`.
pub fn scalar_lo_tables(n_pw: usize, sites: &Vec<Option<Vec<usize>>>) -> (t: ScalarLoTables)
    requires
        sites.len() <= i64::MAX,
        forall|s: int| 0 <= s < sites.len() ==> ((#[trigger] sites@[s]) matches Some(counts) ==> counts.len() <= i32::MAX),
        n_pw + all_rows(sites@, sites.len() as int).len() + SCALAR_RADIAL_LO0 <= i64::MAX,
    ensures
        tables_match(n_pw as int, t, all_rows(sites@, sites.len() as int)),
{
    let mut t = ScalarLoTables {
        n_lo: 0,
        row_index: Vec::new(),
        site: Vec::new(),
        l: Vec::new(),
        m: Vec::new(),
        ordinal: Vec::new(),
        radial_n: Vec::new(),
    };
    let ghost total = all_rows(sites@, sites.len() as int).len();
    let mut s: usize = 0;
    while s < sites.len()
        invariant
            s <= sites.len() <= i64::MAX,
            forall|s2: int| 0 <= s2 < sites.len() ==> ((#[trigger] sites@[s2]) matches Some(counts) ==> counts.len() <= i32::MAX),
            total == all_rows(sites@, sites.len() as int).len(),
            n_pw + total + SCALAR_RADIAL_LO0 <= i64::MAX,
            tables_match(n_pw as int, t, all_rows(sites@, s as int)),
        decreases sites.len() - s,
    {
        proof {
            lemma_all_rows_prefix(sites@, s as int + 1, sites.len() as int);
        }
        let ghost before = all_rows(sites@, s as int);
        match &sites[s] {
            None => {
                assert(all_rows(sites@, s as int + 1) =~= before);
            },
            Some(counts) => {
                proof {
                    lemma_site_rows_prefix(s as int, counts@, 0, counts.len() as int);
                    assert(before + site_rows(s as int, counts@, 0) =~= before);
                }
                let mut l: usize = 0;
                while l < counts.len()
                    invariant
                        s < sites.len() <= i64::MAX,
                        sites@[s as int] == Some(*counts),
                        counts.len() <= i32::MAX,
                        l <= counts.len(),
                        before == all_rows(sites@, s as int),
                        all_rows(sites@, s as int + 1) == before + site_rows(s as int, counts@, counts.len() as int),
                        before.len() + site_rows(s as int, counts@, counts.len() as int).len() <= total,
                        site_rows(s as int, counts@, l as int).len() <= site_rows(s as int, counts@, counts.len() as int).len(),
                        n_pw + total + SCALAR_RADIAL_LO0 <= i64::MAX,
                        tables_match(n_pw as int, t, before + site_rows(s as int, counts@, l as int)),
                    decreases counts.len() - l,
                {
                    let count = counts[l];
                    let ghost mid = before + site_rows(s as int, counts@, l as int);
                    proof {
                        lemma_site_rows_prefix(s as int, counts@, l as int + 1, counts.len() as int);
                        lemma_l_block_prefix(s as int, l as int, count, 0, 2 * l as int + 1);
                        assert(mid + l_block(s as int, l as int, count, 0) =~= mid);
                    }
                    let li = l as i32;
                    let mut m: i32 = -li;
                    while m <= li
                        invariant
                            s < sites.len() <= i64::MAX,
                            l < counts.len() <= i32::MAX,
                            li == l,
                            -li <= m <= li + 1,
                            count == counts@[l as int],
                            mid == before + site_rows(s as int, counts@, l as int),
                            site_rows(s as int, counts@, l as int + 1) == site_rows(s as int, counts@, l as int) + l_block(s as int, l as int, count, 2 * l + 1),
                            mid.len() + l_block(s as int, l as int, count, 2 * l + 1).len() <= total,
                            l_block(s as int, l as int, count, (m + li) as int).len() <= l_block(s as int, l as int, count, 2 * l + 1).len(),
                            n_pw + total + SCALAR_RADIAL_LO0 <= i64::MAX,
                            tables_match(n_pw as int, t, mid + l_block(s as int, l as int, count, (m + li) as int)),
                        decreases li + 1 - m,
                    {
                        let ghost tt = (m + li) as int;
                        let ghost start = mid + l_block(s as int, l as int, count, tt);
                        proof {
                            lemma_l_block_prefix(s as int, l as int, count, tt + 1, 2 * l + 1);
                        }
                        let mut o: usize = 0;
                        while o < count
                            invariant
                                s < sites.len() <= i64::MAX,
                                l < counts.len() <= i32::MAX,
                                li == l,
                                -li <= m <= li,
                                tt == m + li,
                                o <= count,
                                start == mid + l_block(s as int, l as int, count, tt),
                                start.len() + count <= total,
                                n_pw + total + SCALAR_RADIAL_LO0 <= i64::MAX,
                                tables_match(n_pw as int, t, start + m_block(s as int, l as int, tt, count).take(o as int)),
                            decreases count - o,
                        {
                            let ghost rows = start + m_block(s as int, l as int, tt, count).take(o as int);
                            push_row(&mut t, n_pw, s, l, m, o, Ghost(rows));
                            proof {
                                assert(m_block(s as int, l as int, tt, count)[o as int] == (s as int, l as int, m as int, o as int));
                                assert(start + m_block(s as int, l as int, tt, count).take(o as int + 1)
                                    =~= rows.push((s as int, l as int, m as int, o as int)));
                            }
                            o = o + 1;
                        }
                        proof {
                            assert(m_block(s as int, l as int, tt, count).take(count as int) =~= m_block(s as int, l as int, tt, count));
                            assert(start + m_block(s as int, l as int, tt, count) =~= mid + l_block(s as int, l as int, count, tt + 1));
                        }
                        m = m + 1;
                    }
                    proof {
                        assert(mid + l_block(s as int, l as int, count, 2 * l + 1) =~= before + site_rows(s as int, counts@, l as int + 1));
                    }
                    l = l + 1;
                }
            },
        }
        s = s + 1;
    }
    t
}

} // verus!
