//! Placing pair-vertex records at their layout columns: every column of
//! the layout must be named exactly once, by a record whose pair is the
//! one the layout decodes at that column.
use vstd::prelude::*;

verus! {

/// Records `(column, pair matches the layout's pair at that column)` fill
/// the `n_columns` columns exactly: each record is valid and in range, no
/// two records share a column, and every column is named.
pub open spec fn columns_exact(n_columns: int, records: Seq<(usize, bool)>) -> bool {
    &&& forall|i: int| 0 <= i < records.len() ==> (#[trigger] records[i]).1 && records[i].0 < n_columns
    &&& forall|i: int, j: int| 0 <= i < j < records.len() ==> (#[trigger] records[i]).0 != (#[trigger] records[j]).0
    &&& forall|c: int| 0 <= c < n_columns ==> #[trigger] column_named(records, c)
}

/// Some record names column `c`.
pub open spec fn column_named(records: Seq<(usize, bool)>, c: int) -> bool {
    exists|i: int| 0 <= i < records.len() && (#[trigger] records[i]).0 == c
}

/// The records in column order: entry `c` is the position of the record
/// at column `c`, or `None` when the records do not fill the columns
/// exactly.
pub fn order_by_column(n_columns: usize, records: &Vec<(usize, bool)>) -> (r: Option<Vec<usize>>)
    ensures
        r is Some <==> columns_exact(n_columns as int, records@),
        r matches Some(order) ==> {
            &&& order.len() == n_columns
            &&& forall|c: int| 0 <= c < n_columns ==> #[trigger] order@[c] < records.len() && records@[order@[c] as int].0 == c
        },
{
    let mut slots: Vec<Option<usize>> = Vec::new();
    let mut c: usize = 0;
    while c < n_columns
        invariant
            c <= n_columns,
            slots.len() == c,
            forall|c2: int| 0 <= c2 < c ==> (#[trigger] slots@[c2]) is None,
        decreases n_columns - c,
    {
        slots.push(None);
        c = c + 1;
    }
    let mut i: usize = 0;
    while i < records.len()
        invariant
            i <= records.len(),
            slots.len() == n_columns,
            forall|c2: int| 0 <= c2 < n_columns ==> (#[trigger] slots@[c2] matches Some(j) ==> j < i && records@[j as int].0 == c2),
            forall|j: int| 0 <= j < i ==> (#[trigger] records@[j]).1 && records@[j].0 < n_columns && slots@[records@[j].0 as int] == Some(j as usize),
        decreases records.len() - i,
    {
        let (column, valid) = records[i];
        if !valid || column >= n_columns {
            return None;
        }
        match slots[column] {
            Some(j) => {
                proof {
                    assert(records@[j as int].0 == column);
                    assert(!columns_exact(n_columns as int, records@)) by {
                        assert((records@[j as int]).0 == (records@[i as int]).0);
                    }
                }
                return None;
            },
            None => {},
        }
        let ghost old_slots = slots@;
        slots.set(column, Some(i));
        proof {
            assert forall|j: int| 0 <= j < i + 1 implies (#[trigger] records@[j]).1 && records@[j].0 < n_columns && slots@[records@[j].0 as int] == Some(j as usize) by {
                if j < i {
                    assert(old_slots[records@[j].0 as int] == Some(j as usize));
                    assert(records@[j].0 != column);
                }
            }
        }
        i = i + 1;
    }
    let mut order: Vec<usize> = Vec::new();
    let mut c: usize = 0;
    while c < n_columns
        invariant
            c <= n_columns == slots.len(),
            i == records.len(),
            forall|c2: int| 0 <= c2 < n_columns ==> (#[trigger] slots@[c2] matches Some(j) ==> j < i && records@[j as int].0 == c2),
            forall|j: int| 0 <= j < i ==> (#[trigger] records@[j]).1 && records@[j].0 < n_columns && slots@[records@[j].0 as int] == Some(j as usize),
            order.len() == c,
            forall|c2: int| 0 <= c2 < c ==> slots@[c2] == Some(#[trigger] order@[c2]),
        decreases n_columns - c,
    {
        match slots[c] {
            None => {
                proof {
                    assert(!column_named(records@, c as int)) by {
                        if column_named(records@, c as int) {
                            let j = choose|j: int| 0 <= j < records.len() && (#[trigger] records@[j]).0 == c;
                            assert(slots@[records@[j].0 as int] == Some(j as usize));
                        }
                    }
                }
                return None;
            },
            Some(j) => {
                order.push(j);
            },
        }
        c = c + 1;
    }
    proof {
        assert forall|j1: int, j2: int| 0 <= j1 < j2 < records.len() implies (#[trigger] records@[j1]).0 != (#[trigger] records@[j2]).0 by {
            if records@[j1].0 == records@[j2].0 {
                assert(slots@[records@[j1].0 as int] == Some(j1 as usize));
                assert(slots@[records@[j2].0 as int] == Some(j2 as usize));
            }
        }
        assert forall|c2: int| 0 <= c2 < n_columns implies #[trigger] column_named(records@, c2) by {
            let j = order@[c2];
            assert(slots@[c2] == Some(j));
            assert(records@[j as int].0 == c2);
        }
        assert forall|c2: int| 0 <= c2 < n_columns implies #[trigger] order@[c2] < records.len() && records@[order@[c2] as int].0 == c2 by {
            assert(slots@[c2] == Some(order@[c2]));
        }
    }
    Some(order)
}

/// Placing records by column is a bijection: distinct columns hold
/// distinct records, and every record is held by the column it names.
pub proof fn lemma_column_order_is_bijection(n_columns: int, records: Seq<(usize, bool)>, order: Seq<usize>)
    requires
        order.len() == n_columns,
        forall|c: int| 0 <= c < n_columns ==> #[trigger] order[c] < records.len() && records[order[c] as int].0 == c,
        columns_exact(n_columns, records),
    ensures
        forall|c1: int, c2: int| 0 <= c1 < c2 < n_columns ==> #[trigger] order[c1] != #[trigger] order[c2],
        forall|i: int| 0 <= i < records.len() ==> order[(#[trigger] records[i]).0 as int] == i,
{
    assert forall|i: int| 0 <= i < records.len() implies order[(#[trigger] records[i]).0 as int] == i by {
        let c = records[i].0 as int;
        assert(c < n_columns);
        let j = order[c] as int;
        assert(records[j].0 == c);
        if j != i {
            if j < i {
                assert(records[j].0 != records[i].0);
            } else {
                assert(records[i].0 != records[j].0);
            }
        }
    }
}

/// Why a sector comparison does not cover its columns.
#[derive(Clone, Copy, Debug, PartialEq, Eq, Structural)]
pub enum CoverageError {
    /// The number of compared pairs is not one per transfer and column.
    Coverage,
    /// Some `(q, column)` is compared other than once, or with a pair other
    /// than the one the layout decodes at that column.
    Pair,
}

/// Number of the first `upto` compared pairs at `(q, column)`.
pub open spec fn pairs_at(pairs: Seq<(usize, usize, bool)>, q: int, column: int, upto: int) -> nat
    decreases upto,
{
    if upto <= 0 {
        0
    } else if pairs[upto - 1].0 == q && pairs[upto - 1].1 == column {
        pairs_at(pairs, q, column, upto - 1) + 1
    } else {
        pairs_at(pairs, q, column, upto - 1)
    }
}

/// The first `upto` pairs at `(q, column)` all carry the layout's pair.
pub open spec fn pairs_ok_at(pairs: Seq<(usize, usize, bool)>, q: int, column: int, upto: int) -> bool {
    forall|i: int| 0 <= i < upto && (#[trigger] pairs[i]).0 == q && pairs[i].1 == column ==> pairs[i].2
}

/// `(q, column)` is compared exactly once, with the layout's pair.
pub open spec fn covered_once(pairs: Seq<(usize, usize, bool)>, q: int, column: int) -> bool {
    pairs_at(pairs, q, column, pairs.len() as int) == 1 && pairs_ok_at(pairs, q, column, pairs.len() as int)
}

/// Check that compared pairs `(q_index, column, pair matches the layout)`
/// of one sector cover each of `n_q` transfers and `n_columns` columns
/// exactly once with the layout's pair.
pub fn require_sector_coverage(n_q: usize, n_columns: usize, pairs: &Vec<(usize, usize, bool)>) -> (r: Result<(), CoverageError>)
    requires
        n_q * n_columns <= usize::MAX,
    ensures
        pairs.len() != n_q * n_columns ==> r == Err::<(), CoverageError>(CoverageError::Coverage),
        pairs.len() == n_q * n_columns ==> (r is Ok <==> forall|q: int, c: int| 0 <= q < n_q && 0 <= c < n_columns ==> #[trigger] covered_once(pairs@, q, c)),
        pairs.len() == n_q * n_columns ==> (r is Ok || r == Err::<(), CoverageError>(CoverageError::Pair)),
{
    if pairs.len() != n_q * n_columns {
        return Err(CoverageError::Coverage);
    }
    let mut q: usize = 0;
    while q < n_q
        invariant
            q <= n_q,
            pairs.len() == n_q * n_columns,
            forall|q2: int, c: int| 0 <= q2 < q && 0 <= c < n_columns ==> #[trigger] covered_once(pairs@, q2, c),
        decreases n_q - q,
    {
        let mut c: usize = 0;
        while c < n_columns
            invariant
                q < n_q,
                c <= n_columns,
                pairs.len() == n_q * n_columns,
                forall|q2: int, c2: int| 0 <= q2 < q && 0 <= c2 < n_columns ==> #[trigger] covered_once(pairs@, q2, c2),
                forall|c2: int| 0 <= c2 < c ==> #[trigger] covered_once(pairs@, q as int, c2),
            decreases n_columns - c,
        {
            let mut count: usize = 0;
            let mut ok = true;
            let mut i: usize = 0;
            while i < pairs.len()
                invariant
                    i <= pairs.len(),
                    count == pairs_at(pairs@, q as int, c as int, i as int),
                    count <= i,
                    ok == pairs_ok_at(pairs@, q as int, c as int, i as int),
                decreases pairs.len() - i,
            {
                let (pq, pc, matches) = pairs[i];
                if pq == q && pc == c {
                    count = count + 1;
                    if !matches {
                        ok = false;
                    }
                }
                proof {
                    if !(pq == q && pc == c) || matches {
                        assert(pairs_ok_at(pairs@, q as int, c as int, i as int + 1) == pairs_ok_at(pairs@, q as int, c as int, i as int));
                    } else {
                        assert(!pairs_ok_at(pairs@, q as int, c as int, i as int + 1));
                    }
                }
                i = i + 1;
            }
            if count != 1 || !ok {
                proof {
                    assert(!covered_once(pairs@, q as int, c as int));
                }
                return Err(CoverageError::Pair);
            }
            c = c + 1;
        }
        q = q + 1;
    }
    Ok(())
}

} // verus!
