//! A typed cell together with its position.

use vstd::prelude::*;

use crate::domain::primitive_types::{PrimTypeData, PrimValue};
use crate::utils::views;

verus! {

/// A typed value and the (row, column) it was read from.
#[derive(Debug, PartialEq)]
pub struct Cell {
    pub data: PrimTypeData,
    pub cell_address: (usize, usize),
}

impl View for Cell {
    type V = (PrimValue, (usize, usize));

    open spec fn view(&self) -> (PrimValue, (usize, usize)) {
        (self.data@, self.cell_address)
    }
}

impl Cell {
    pub fn new(data: PrimTypeData, cell_address: (usize, usize)) -> (r: Self)
        ensures
            r@ == (data@, cell_address),
    {
        Self { data, cell_address }
    }

    /// A copy of this cell.
    pub fn copy(&self) -> (r: Self)
        ensures
            r@ == self@,
    {
        Cell { data: self.data.copy(), cell_address: self.cell_address }
    }
}

impl Clone for Cell {
    fn clone(&self) -> (r: Self)
        ensures
            r@ == self@,
    {
        self.copy()
    }
}

/// A copy of rows of cells.
pub fn copy_rows(data: &Vec<Vec<Cell>>) -> (r: Vec<Vec<Cell>>)
    ensures
        r@.map_values(|row: Vec<Cell>| views(row@)) == data@.map_values(
            |row: Vec<Cell>| views(row@),
        ),
{
    let mut out: Vec<Vec<Cell>> = Vec::new();
    let n = data.len();
    for i in 0..n
        invariant
            n == data@.len(),
            out@.len() == i,
            forall|k: int| 0 <= k < i ==> views(#[trigger] out@[k]@) == views(data@[k]@),
    {
        let row = &data[i];
        let m = row.len();
        let mut copied: Vec<Cell> = Vec::new();
        for j in 0..m
            invariant
                m == row@.len(),
                views(copied@) == views(row@).take(j as int),
        {
            let ghost before = views(copied@);
            copied.push(row[j].copy());
            proof {
                assert(views(copied@) =~= before.push(row@[j as int]@));
                assert(views(row@).take(j + 1) =~= views(row@).take(j as int).push(row@[j as int]@));
            }
        }
        proof {
            assert(views(row@).take(m as int) =~= views(row@));
        }
        out.push(copied);
    }
    proof {
        assert(out@.map_values(|row: Vec<Cell>| views(row@)) =~= data@.map_values(
            |row: Vec<Cell>| views(row@),
        ));
    }
    out
}

} // verus!
