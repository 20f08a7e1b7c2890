//! A table of typed cells, and the text it is shown as.

use vstd::prelude::*;

use crate::domain::cell::{copy_rows, Cell};
use crate::domain::primitive_types::{value_text, PrimValue};
use crate::utils::views;

verus! {

/// The text of a row: each cell's value text between two spaces on the left and two spaces
/// and a bar on the right.
pub open spec fn row_text(row: Seq<(PrimValue, (usize, usize))>) -> Seq<char>
    decreases row.len(),
{
    if row.len() == 0 {
        Seq::empty()
    } else {
        row_text(row.drop_last()) + "  "@ + value_text(row.last().0) + "  |"@
    }
}

/// The text of the rows, each followed by a line break.
pub open spec fn table_text(rows: Seq<Seq<(PrimValue, (usize, usize))>>) -> Seq<char>
    decreases rows.len(),
{
    if rows.len() == 0 {
        Seq::empty()
    } else {
        table_text(rows.drop_last()) + row_text(rows.last()) + "\n"@
    }
}

/// The text the cells are shown as, one row per line.
pub fn cells_text(data: &Vec<Vec<Cell>>) -> (r: String)
    ensures
        r@ == table_text(data@.map_values(|row: Vec<Cell>| views(row@))),
{
    let ghost rows = data@.map_values(|row: Vec<Cell>| views(row@));
    let mut out = String::new();
    let n = data.len();
    for i in 0..n
        invariant
            n == data@.len(),
            rows == data@.map_values(|row: Vec<Cell>| views(row@)),
            out@ == table_text(rows.take(i as int)),
    {
        let row = &data[i];
        let ghost rv = rows[i as int];
        let ghost before = out@;
        proof {
            assert(rv == views(row@));
        }
        let m = row.len();
        for j in 0..m
            invariant
                m == row@.len(),
                rv == views(row@),
                out@ == before + row_text(rv.take(j as int)),
        {
            proof {
                assert(rv.take(j + 1).drop_last() =~= rv.take(j as int));
                assert(rv.take(j + 1).last() == row@[j as int]@);
            }
            let t = row[j].data.to_string();
            out.append("  ");
            out.append(t.as_str());
            out.append("  |");
            proof {
                assert(out@ =~= before + row_text(rv.take(j + 1)));
            }
        }
        out.append("\n");
        proof {
            assert(rv.take(m as int) =~= rv);
            assert(rows.take(i + 1).drop_last() =~= rows.take(i as int));
            assert(rows.take(i + 1).last() == rv);
            assert(out@ =~= table_text(rows.take(i + 1)));
        }
    }
    proof {
        assert(rows.take(n as int) =~= rows);
    }
    out
}

/// Typed cells, row by row.
pub struct Table(Vec<Vec<Cell>>);

impl View for Table {
    type V = Seq<Seq<(PrimValue, (usize, usize))>>;

    closed spec fn view(&self) -> Seq<Seq<(PrimValue, (usize, usize))>> {
        self.0@.map_values(|r: Vec<Cell>| views(r@))
    }
}

impl Clone for Table {
    fn clone(&self) -> (r: Self)
        ensures
            r@ == self@,
    {
        Table(copy_rows(&self.0))
    }
}

impl Table {
    pub fn new(data: Vec<Vec<Cell>>) -> (r: Self)
        ensures
            r@ == data@.map_values(|row: Vec<Cell>| views(row@)),
    {
        Self(data)
    }

    /// The text the table is shown as, one row per line.
    pub fn text(&self) -> (r: String)
        ensures
            r@ == table_text(self@),
    {
        cells_text(&self.0)
    }

    /// The cells, row by row.
    pub fn as_ref(&self) -> (r: &Vec<Vec<Cell>>)
        ensures
            r@.map_values(|row: Vec<Cell>| views(row@)) == self@,
    {
        &self.0
    }
}

} // verus!
