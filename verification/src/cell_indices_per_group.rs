//! Precomputed group membership: for each row, column and square, the nine
//! cell positions belonging to it, in ascending order. Pure geometry, built
//! once and never changed.

use vstd::prelude::*;

use crate::model::member_pos;

verus! {

/// One lookup table per group kind.
#[derive(Debug)]
pub struct CellIndices {
    rows: Vec<Vec<usize>>,
    columns: Vec<Vec<usize>>,
    squares: Vec<Vec<usize>>,
}

/// A table holds, for each of the nine groups of its kind, the nine member
/// positions given by the grid geometry.
pub open spec fn group_table_wf(t: Seq<Vec<usize>>, kind: int) -> bool {
    &&& t.len() == 9
    &&& forall|g: int| 0 <= g < 9 ==> (#[trigger] t[g])@.len() == 9
    &&& forall|g: int, j: int|
        0 <= g < 9 && 0 <= j < 9 ==> (#[trigger] t[g]@[j]) == member_pos(kind, g, j)
}

impl CellIndices {
    pub closed spec fn wf(self) -> bool {
        &&& group_table_wf(self.rows@, 0)
        &&& group_table_wf(self.columns@, 1)
        &&& group_table_wf(self.squares@, 2)
    }

    pub fn new() -> (r: CellIndices)
        ensures
            r.wf(),
    {
        CellIndices { rows: fill_rows(), columns: fill_columns(), squares: fill_squares() }
    }

    /// The nine positions of row `row_nr`, ascending.
    pub fn for_row(&self, row_nr: usize) -> (r: &Vec<usize>)
        requires
            self.wf(),
            row_nr < 9,
        ensures
            r@.len() == 9,
            forall|j: int| 0 <= j < 9 ==> r@[j] == member_pos(0, row_nr as int, j),
    {
        &self.rows[row_nr]
    }

    /// The nine positions of column `column_nr`, top to bottom.
    pub fn for_column(&self, column_nr: usize) -> (r: &Vec<usize>)
        requires
            self.wf(),
            column_nr < 9,
        ensures
            r@.len() == 9,
            forall|j: int| 0 <= j < 9 ==> r@[j] == member_pos(1, column_nr as int, j),
    {
        &self.columns[column_nr]
    }

    /// The nine positions of square `square_nr`, ascending.
    pub fn for_square(&self, square_nr: usize) -> (r: &Vec<usize>)
        requires
            self.wf(),
            square_nr < 9,
        ensures
            r@.len() == 9,
            forall|j: int| 0 <= j < 9 ==> r@[j] == member_pos(2, square_nr as int, j),
    {
        &self.squares[square_nr]
    }
}

fn fill_rows() -> (t: Vec<Vec<usize>>)
    ensures
        group_table_wf(t@, 0),
{
    let mut t: Vec<Vec<usize>> = Vec::new();
    let mut g: usize = 0;
    while g < 9
        invariant
            t@.len() == g,
            g <= 9,
            forall|gi: int| 0 <= gi < g ==> (#[trigger] t@[gi])@.len() == 9,
            forall|gi: int, j: int|
                0 <= gi < g && 0 <= j < 9 ==> (#[trigger] t@[gi]@[j]) == member_pos(0, gi, j),
        decreases 9 - g,
    {
        let mut group: Vec<usize> = Vec::new();
        let mut j: usize = 0;
        while j < 9
            invariant
                group@.len() == j,
                j <= 9,
                g < 9,
                forall|ji: int| 0 <= ji < j ==> (#[trigger] group@[ji]) == member_pos(0, g as int, ji),
            decreases 9 - j,
        {
            group.push(g * 9 + j);
            j = j + 1;
        }
        t.push(group);
        g = g + 1;
    }
    t
}

fn fill_columns() -> (t: Vec<Vec<usize>>)
    ensures
        group_table_wf(t@, 1),
{
    let mut t: Vec<Vec<usize>> = Vec::new();
    let mut g: usize = 0;
    while g < 9
        invariant
            t@.len() == g,
            g <= 9,
            forall|gi: int| 0 <= gi < g ==> (#[trigger] t@[gi])@.len() == 9,
            forall|gi: int, j: int|
                0 <= gi < g && 0 <= j < 9 ==> (#[trigger] t@[gi]@[j]) == member_pos(1, gi, j),
        decreases 9 - g,
    {
        let mut group: Vec<usize> = Vec::new();
        let mut j: usize = 0;
        while j < 9
            invariant
                group@.len() == j,
                j <= 9,
                g < 9,
                forall|ji: int| 0 <= ji < j ==> (#[trigger] group@[ji]) == member_pos(1, g as int, ji),
            decreases 9 - j,
        {
            group.push(j * 9 + g);
            j = j + 1;
        }
        t.push(group);
        g = g + 1;
    }
    t
}

fn fill_squares() -> (t: Vec<Vec<usize>>)
    ensures
        group_table_wf(t@, 2),
{
    let mut t: Vec<Vec<usize>> = Vec::new();
    let mut g: usize = 0;
    while g < 9
        invariant
            t@.len() == g,
            g <= 9,
            forall|gi: int| 0 <= gi < g ==> (#[trigger] t@[gi])@.len() == 9,
            forall|gi: int, j: int|
                0 <= gi < g && 0 <= j < 9 ==> (#[trigger] t@[gi]@[j]) == member_pos(2, gi, j),
        decreases 9 - g,
    {
        let mut group: Vec<usize> = Vec::new();
        let mut j: usize = 0;
        while j < 9
            invariant
                group@.len() == j,
                j <= 9,
                g < 9,
                forall|ji: int| 0 <= ji < j ==> (#[trigger] group@[ji]) == member_pos(2, g as int, ji),
            decreases 9 - j,
        {
            group.push((g / 3) * 27 + (g % 3) * 3 + (j / 3) * 9 + (j % 3));
            j = j + 1;
        }
        t.push(group);
        g = g + 1;
    }
    t
}

} // verus!
