pub mod api;
pub mod cell;
pub mod cell_indices_per_group;
pub mod cell_iterators;
pub mod model;
pub mod sudoku;

pub use api::{SudokuError, SudokuResult};
pub use sudoku::Sudoku;
