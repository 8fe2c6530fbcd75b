use sudoku_solver::api::{GRID_COLUMNS, GRID_INDEX_MAX, GRID_ROWS};
use sudoku_solver::cell::Cell;
use sudoku_solver::{Sudoku, SudokuError, SudokuResult};

const GELDERLANDER_0308: &str = "_ 3 1 8 _ _ _ _ _\n_ 8 _ _ _ 7 _ 5 _\n4 _ _ _ 9 _ _ 8 3\n_ _ _ 9 6 3 _ 1 _\n3 _ _ 1 _ 5 _ _ _\n_ 5 6 2 _ 8 3 _ _\n_ 4 _ _ _ _ _ _ _\n2 _ 9 _ 3 _ _ _ _\n_ 6 _ _ _ _ _ 3 _\n";

#[test]
fn gelderlander_20220308() {
    let sudoku = create_sudoku(GELDERLANDER_0308);
    assert_eq!(sudoku.todo_count, 46, "Incorrect number of cells filled");
    let cell = sudoku.cell_at(3, 5);
    assert_eq!(cell.value, Some(9));
    let cell = sudoku.cell_at(5, 5);
    assert_eq!(cell.todo_count, 2);
    let cell = sudoku.cell_at(8, 8);
    assert_eq!(cell.todo_count, 3);
}

#[test]
fn check_row_indices() -> SudokuResult {
    let sudoku = create_sudoku(GELDERLANDER_0308);

    let check_one_row = |row: usize, result: Vec<Cell>| {
        let start_row_index = row * GRID_COLUMNS;
        let mut expected_indices = start_row_index..(start_row_index + GRID_COLUMNS);
        assert_indices_eq(&mut expected_indices, result, format!("Row {} incorrect", row));
    };

    for row in 0..GRID_ROWS {
        let result = sudoku.row_cells_with_check(row)?;
        check_one_row(row, result);
    }

    let mut row_8 = 72..81_usize;
    assert_indices_eq(
        &mut row_8,
        sudoku.row_cells_with_check(8)?,
        format!("These are not the indices for row 8"),
    );

    let realised = sudoku.row_cells_with_check(9_999);
    assert_eq!(
        SudokuError::InvalidCellIndex { cell_index: 9_999 },
        realised.err().unwrap(),
        "Expected to fail for invalid row"
    );

    Ok(())
}

#[test]
fn check_column_indices() -> SudokuResult {
    let sudoku = Sudoku::new();

    let check_one_column = |column: usize, result: Vec<Cell>| {
        let start_col_index = column;
        let end_col_index = start_col_index + GRID_INDEX_MAX;
        let mut expected_indices = (start_col_index..=end_col_index).step_by(GRID_COLUMNS);
        assert_indices_eq(
            &mut expected_indices,
            result,
            format!("Column {} incorrect", column),
        );
    };

    for column in 0..GRID_COLUMNS {
        let result = sudoku.column_cells_with_check(column)?;
        check_one_column(column, result);
    }

    let mut column_2 = (2..=74_usize).step_by(9);
    assert_indices_eq(
        &mut column_2,
        sudoku.column_cells_with_check(2)?,
        format!("Column 2 should be [2, 11, 20, 29, 38, 47, 56, 65, 74]"),
    );

    let realised = sudoku.column_cells_with_check(10);
    assert_eq!(
        SudokuError::InvalidCellIndex { cell_index: 10 },
        realised.err().unwrap(),
        "Expected to fail for invalid column"
    );

    Ok(())
}

fn assert_indices_eq(expected: &mut dyn Iterator<Item = usize>, cells: Vec<Cell>, msg: String) {
    let expected_indices: Vec<usize> = expected.collect();
    let realised_indices: Vec<usize> = cells.iter().map(|cell_ref| cell_ref.index).collect();

    assert_eq!(realised_indices, expected_indices, "{}", msg);
}

fn create_sudoku(text: &str) -> Sudoku {
    let mut sudoku = Sudoku::new();

    for (index, value) in text
        .lines()
        .flat_map(|line| line.split_ascii_whitespace())
        .enumerate()
        .filter(|(_, value)| "_".ne(*value))
    {
        if let Ok(num_value) = value.parse() {
            let result = sudoku.assign(index, num_value);
            if result.is_err() {
                assert!(false, "got assign error: {:?}", result);
            }
        } else {
            assert!(false, "Could not parse {}", value);
        }
    }

    sudoku
}
