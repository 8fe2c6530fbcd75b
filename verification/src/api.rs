//! Grid dimensions and the error type shared by the whole crate.

use vstd::prelude::*;

use crate::cell::Cell;

verus! {

pub const GRID_SQUARE_SIDE: usize = 3;

pub const GRID_COLUMNS: usize = 9;

pub const GRID_ROWS: usize = 9;

pub const GRID_SIZE: usize = 81;

pub const GRID_INDEX_MAX: usize = 73;

/// The ways a request can be refused. Every refusal leaves the grid exactly
/// as it was.
#[derive(Debug)]
pub enum SudokuError {
    /// The requested digit is not among the target cell's remaining
    /// candidates; carries the cell's state for diagnostics.
    CannotChoose { cell: Cell, value: usize },
    /// The position lies outside the 81-cell grid.
    InvalidCellIndex { cell_index: usize },
    /// The digit lies outside 1 through 9.
    IllegalValue { value: usize },
}

pub type SudokuResult<T = ()> = Result<T, SudokuError>;

/// Two cells agree in every observable field.
pub open spec fn cell_like(a: Cell, b: Cell) -> bool {
    &&& a.index == b.index
    &&& a.column == b.column
    &&& a.row == b.row
    &&& a.square_nr == b.square_nr
    &&& a.value == b.value
    &&& a.options@ == b.options@
    &&& a.todo_count == b.todo_count
}

fn cells_alike(a: &Cell, b: &Cell) -> (r: bool)
    ensures
        r == cell_like(*a, *b),
{
    let mut options_same = a.options.len() == b.options.len();
    if options_same {
        let mut k: usize = 0;
        while k < a.options.len()
            invariant
                options_same,
                a.options@.len() == b.options@.len(),
                k <= a.options@.len(),
                forall|j: int| 0 <= j < k ==> a.options@[j] == b.options@[j],
            decreases a.options@.len() - k,
        {
            if a.options[k] != b.options[k] {
                return false;
            }
            k = k + 1;
        }
        proof {
            assert(a.options@ =~= b.options@);
        }
    }
    let value_same = match (a.value, b.value) {
        (Some(x), Some(y)) => x == y,
        (None, None) => true,
        _ => false,
    };
    options_same && value_same && a.index == b.index && a.column == b.column && a.row == b.row
        && a.square_nr == b.square_nr && a.todo_count == b.todo_count
}

impl PartialEq for SudokuError {
    fn eq(&self, other: &SudokuError) -> (r: bool) {
        match (self, other) {
            (
                SudokuError::CannotChoose { cell: a, value: va },
                SudokuError::CannotChoose { cell: b, value: vb },
            ) => va == vb && cells_alike(a, b),
            (
                SudokuError::InvalidCellIndex { cell_index: a },
                SudokuError::InvalidCellIndex { cell_index: b },
            ) => a == b,
            (
                SudokuError::IllegalValue { value: a },
                SudokuError::IllegalValue { value: b },
            ) => a == b,
            _ => false,
        }
    }
}

impl vstd::std_specs::cmp::PartialEqSpecImpl for SudokuError {
    open spec fn obeys_eq_spec() -> bool {
        true
    }

    open spec fn eq_spec(&self, other: &SudokuError) -> bool {
        match (self, other) {
            (
                SudokuError::CannotChoose { cell: a, value: va },
                SudokuError::CannotChoose { cell: b, value: vb },
            ) => va == vb && cell_like(*a, *b),
            (
                SudokuError::InvalidCellIndex { cell_index: a },
                SudokuError::InvalidCellIndex { cell_index: b },
            ) => a == b,
            (SudokuError::IllegalValue { value: a }, SudokuError::IllegalValue { value: b }) => a
                == b,
            _ => false,
        }
    }
}

} // verus!
