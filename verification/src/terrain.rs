//! The collision geometry of a level: a grid of solid and empty cells.
//! Physics asks it about any cell at all, and a cell outside the grid is
//! empty, so a lookup never fails.

use vstd::prelude::*;

verus! {

/// The cells of a level, row by row from the lowest. Rows need not be of
/// one length.
#[derive(Clone, Debug, PartialEq, Eq)]
pub struct Terrain {
    rows: Vec<Vec<bool>>,
}

/// Whether `rows` holds a solid cell at `column` of `row`. Outside the
/// rows, and outside the row it names, nothing is solid.
pub open spec fn solid_in(rows: Seq<Seq<bool>>, column: int, row: int) -> bool {
    &&& 0 <= row < rows.len()
    &&& 0 <= column < rows[row].len()
    &&& rows[row][column]
}

impl View for Terrain {
    type V = Seq<Seq<bool>>;

    closed spec fn view(&self) -> Seq<Seq<bool>> {
        self.rows@.map_values(|row: Vec<bool>| row@)
    }
}

impl Terrain {
    /// The terrain with the given rows of cells, the lowest row first.
    pub fn new(rows: Vec<Vec<bool>>) -> (terrain: Terrain)
        ensures
            terrain@ == rows@.map_values(|row: Vec<bool>| row@),
    {
        Terrain { rows }
    }

    /// The number of rows.
    pub fn height(&self) -> (rows: usize)
        ensures
            rows == self@.len(),
    {
        self.rows.len()
    }

    /// Whether the cell at `column` of `row` is solid. A cell outside the
    /// grid is not.
    pub fn solid(&self, column: i64, row: i64) -> (hit: bool)
        ensures
            hit == solid_in(self@, column as int, row as int),
    {
        if row < 0 || column < 0 {
            return false;
        }
        if row as u64 >= self.rows.len() as u64 {
            return false;
        }
        let cells = &self.rows[row as usize];
        assert(cells@ == self@[row as int]);
        if column as u64 >= cells.len() as u64 {
            return false;
        }
        cells[column as usize]
    }
}

} // verus!
