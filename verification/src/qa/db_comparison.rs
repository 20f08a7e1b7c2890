//! Comparing the kinds of the cells of a data set with the kinds a schema declares.

use vstd::prelude::*;

use crate::domain::cell::Cell;
use crate::domain::error::APIError;
use crate::domain::primitive_types::{kind_of, PrimType, SchemaInfo};
use crate::utils::views;

verus! {

/// The positions (row, column index) of the cells whose kind differs from the kind declared
/// for their column index, rows in order.
pub open spec fn kind_mismatches_spec(
    data: Seq<Seq<(crate::domain::primitive_types::PrimValue, (usize, usize))>>,
    kinds: Seq<PrimType>,
) -> Seq<(usize, usize)>
    decreases data.len(),
{
    if data.len() == 0 {
        seq![]
    } else {
        kind_mismatches_spec(data.drop_last(), kinds) + row_mismatches(
            (data.len() - 1) as usize,
            data.last(),
            kinds,
        )
    }
}

/// The positions in row `i` whose kind differs from the declared kind.
pub open spec fn row_mismatches(
    i: usize,
    row: Seq<(crate::domain::primitive_types::PrimValue, (usize, usize))>,
    kinds: Seq<PrimType>,
) -> Seq<(usize, usize)>
    decreases row.len(),
{
    if row.len() == 0 {
        seq![]
    } else {
        let j = (row.len() - 1) as usize;
        let p = row_mismatches(i, row.drop_last(), kinds);
        if kind_of(row.last().0) != kinds[j as int] {
            p.push((i, j))
        } else {
            p
        }
    }
}

/// The declared kinds, by column index.
pub open spec fn schema_kinds(schema: Seq<SchemaInfo>) -> Seq<PrimType> {
    schema.map_values(|s: SchemaInfo| s.data_type)
}

/// The cells as values, row by row.
pub open spec fn cells_view(data: Seq<Vec<Cell>>) -> Seq<
    Seq<(crate::domain::primitive_types::PrimValue, (usize, usize))>,
> {
    data.map_values(|r: Vec<Cell>| views(r@))
}

proof fn lemma_row_mismatches_members(
    i: usize,
    row: Seq<(crate::domain::primitive_types::PrimValue, (usize, usize))>,
    kinds: Seq<PrimType>,
)
    requires
        row.len() <= usize::MAX,
    ensures
        forall|p: (usize, usize)|
            #[trigger] row_mismatches(i, row, kinds).contains(p) <==> (p.0 == i && p.1 < row.len()
                && kind_of(row[p.1 as int].0) != kinds[p.1 as int]),
    decreases row.len(),
{
    if row.len() > 0 {
        let prev = row.drop_last();
        lemma_row_mismatches_members(i, prev, kinds);
        let j = (row.len() - 1) as usize;
        let pm = row_mismatches(i, prev, kinds);
        let m = row_mismatches(i, row, kinds);
        assert forall|p: (usize, usize)|
            #[trigger] m.contains(p) <==> (p.0 == i && p.1 < row.len() && kind_of(
                row[p.1 as int].0,
            ) != kinds[p.1 as int]) by {
            if p.1 < j {
                assert(prev[p.1 as int] == row[p.1 as int]);
            }
            if kind_of(row.last().0) != kinds[j as int] {
                assert(m == pm.push((i, j)));
                if m.contains(p) {
                    let k = choose|k: int| 0 <= k < m.len() && m[k] == p;
                    if k < pm.len() {
                        assert(pm[k] == p);
                    }
                }
                if pm.contains(p) {
                    let k = choose|k: int| 0 <= k < pm.len() && pm[k] == p;
                    assert(m[k] == p);
                }
                if p == (i, j) {
                    assert(m[pm.len() as int] == p);
                }
            } else {
                assert(m == pm);
            }
        }
    }
}

/// A cell is listed as a mismatch exactly when its kind differs from the kind declared for its
/// column index: `(i, j)` is listed exactly when `i` is a row of the data, `j` a cell of that
/// row, and the cell's kind is not `kinds[j]`, for every row (the first included).
pub proof fn lemma_kind_mismatches_members(
    data: Seq<Seq<(crate::domain::primitive_types::PrimValue, (usize, usize))>>,
    kinds: Seq<PrimType>,
)
    requires
        data.len() <= usize::MAX,
        forall|i: int| 0 <= i < data.len() ==> #[trigger] data[i].len() <= usize::MAX,
    ensures
        forall|p: (usize, usize)|
            #[trigger] kind_mismatches_spec(data, kinds).contains(p) <==> (p.0 < data.len() && p.1
                < data[p.0 as int].len() && kind_of(data[p.0 as int][p.1 as int].0)
                != kinds[p.1 as int]),
    decreases data.len(),
{
    if data.len() > 0 {
        let prev = data.drop_last();
        assert forall|i: int| 0 <= i < prev.len() implies #[trigger] prev[i].len() <= usize::MAX by {
            assert(prev[i] == data[i]);
        }
        lemma_kind_mismatches_members(prev, kinds);
        let i = (data.len() - 1) as usize;
        lemma_row_mismatches_members(i, data.last(), kinds);
        let a = kind_mismatches_spec(prev, kinds);
        let b = row_mismatches(i, data.last(), kinds);
        let m = kind_mismatches_spec(data, kinds);
        assert(m == a + b);
        assert forall|p: (usize, usize)|
            #[trigger] m.contains(p) <==> (p.0 < data.len() && p.1 < data[p.0 as int].len()
                && kind_of(data[p.0 as int][p.1 as int].0) != kinds[p.1 as int]) by {
            if p.0 < i {
                assert(prev[p.0 as int] == data[p.0 as int]);
            }
            if m.contains(p) {
                let k = choose|k: int| 0 <= k < m.len() && m[k] == p;
                if k < a.len() {
                    assert(a[k] == p);
                } else {
                    assert(b[k - a.len()] == p);
                }
            }
            if a.contains(p) {
                let k = choose|k: int| 0 <= k < a.len() && a[k] == p;
                assert(m[k] == p);
            }
            if b.contains(p) {
                let k = choose|k: int| 0 <= k < b.len() && b[k] == p;
                assert(m[a.len() + k] == p);
            }
        }
    }
}

/// Compares each cell's kind with the kind the schema declares for its column index. The
/// schema must have as many entries as the first row has cells; otherwise the check is refused.
/// Gives the positions (row, column index) of the cells whose kind differs, rows in order.
pub fn kind_mismatches(data: &Vec<Vec<Cell>>, schema: &Vec<SchemaInfo>) -> (r: Result<
    Vec<(usize, usize)>,
    APIError,
>)
    requires
        data@.len() > 0,
        data@[0]@.len() == schema@.len() ==> forall|i: int|
            0 <= i < data@.len() ==> #[trigger] data@[i]@.len() <= schema@.len(),
    ensures
        data@[0]@.len() != schema@.len() ==> (r matches Err(APIError::DataSchemaCheckErr(m))
            && m@ == "Schema length and data lenth are not equal"@),
        data@[0]@.len() == schema@.len() ==> (r matches Ok(v) && v@ == kind_mismatches_spec(
            cells_view(data@),
            schema_kinds(schema@),
        )),
        data@[0]@.len() == schema@.len() ==> (r matches Ok(v) && forall|p: (usize, usize)|
            #[trigger] v@.contains(p) <==> (p.0 < data@.len() && p.1 < data@[p.0 as int]@.len()
                && kind_of(data@[p.0 as int]@[p.1 as int].data@) != schema@[p.1 as int].data_type)),
{
    let col_count = data[0].len();
    if schema.len() != col_count {
        return Err(
            APIError::DataSchemaCheckErr("Schema length and data lenth are not equal".to_owned()),
        );
    }
    let ghost cells = cells_view(data@);
    let ghost kinds = schema_kinds(schema@);
    let n = data.len();
    let mut out: Vec<(usize, usize)> = Vec::new();
    for i in 0..n
        invariant
            n == data@.len(),
            cells == cells_view(data@),
            kinds == schema_kinds(schema@),
            forall|q: int| 0 <= q < data@.len() ==> #[trigger] data@[q]@.len() <= schema@.len(),
            out@ == kind_mismatches_spec(cells.take(i as int), kinds),
    {
        let row = &data[i];
        let m = row.len();
        let ghost rv = cells[i as int];
        let ghost before = out@;
        proof {
            assert(rv == views(row@));
            assert(m <= schema@.len());
        }
        for j in 0..m
            invariant
                m == row@.len(),
                m <= schema@.len(),
                i < n,
                n == data@.len(),
                row == data@[i as int],
                rv == views(row@),
                kinds == schema_kinds(schema@),
                out@ == before + row_mismatches(i, rv.take(j as int), kinds),
        {
            proof {
                assert(rv.take(j + 1).drop_last() =~= rv.take(j as int));
                assert(rv.take(j + 1).last() == row@[j as int]@);
                assert(kinds[j as int] == schema@[j as int].data_type);
            }
            if row[j].data.kind() != schema[j].data_type {
                out.push((i, j));
                proof {
                    assert(out@ =~= before + row_mismatches(i, rv.take(j as int), kinds).push(
                        (i, j),
                    ));
                }
            }
        }
        proof {
            assert(rv.take(m as int) =~= rv);
            assert(cells.take(i + 1).drop_last() =~= cells.take(i as int));
            assert(cells.take(i + 1).last() == rv);
        }
    }
    proof {
        assert(cells.take(n as int) =~= cells);
        assert forall|q: int| 0 <= q < cells.len() implies #[trigger] cells[q].len() <= usize::MAX by {
            assert(cells[q] == views(data@[q]@));
        }
        lemma_kind_mismatches_members(cells, kinds);
        assert forall|p: (usize, usize)|
            #[trigger] out@.contains(p) <==> (p.0 < data@.len() && p.1 < data@[p.0 as int]@.len()
                && kind_of(data@[p.0 as int]@[p.1 as int].data@) != schema@[p.1 as int].data_type) by {
            if p.0 < data@.len() {
                assert(cells[p.0 as int] == views(data@[p.0 as int]@));
                if p.1 < data@[p.0 as int]@.len() {
                    assert(cells[p.0 as int][p.1 as int] == data@[p.0 as int]@[p.1 as int]@);
                    assert(kinds[p.1 as int] == schema@[p.1 as int].data_type);
                }
            }
        }
    }
    Ok(out)
}

} // verus!
