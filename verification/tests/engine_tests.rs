use sudoku_solver::cell::Cell;
use sudoku_solver::{Sudoku, SudokuError};

const SOLVABLE: &str = "2 _ _ _ _ _ 1 9 _\n3 _ _ _ 9 _ _ 2 _\n_ _ _ 2 _ 5 3 _ 7\n_ _ _ _ _ _ _ 3 _\n_ _ 8 _ _ 6 _ _ _\n_ _ _ _ _ 1 8 _ _\n_ 6 5 _ 1 _ _ 8 _\n_ _ 7 _ _ 3 _ _ 6\n_ _ 9 6 _ _ _ _ 5\n";

const SOLVABLE_SOLUTION: &str =
    "254367198376198524981245367592874631718936452643521879465719283827453916139682745";

#[test]
fn pick_one() {
    let mut sudoku = Sudoku::new();

    sudoku.assign(10, 5).unwrap();
    sudoku.assign(20, 6).unwrap();
    sudoku.assign(18, 8).unwrap();
    sudoku.assign(0, 4).unwrap();
    sudoku.assign(2, 2).unwrap();

    let s = sudoku
        .cells_of_square(0)
        .iter()
        .map(|c| {
            let cont = match c.value {
                Some(v) => format!("={}=", v),
                None => format!(
                    "{:?}",
                    c.options
                        .iter()
                        .enumerate()
                        .filter_map(|(i, o)| if *o { Some(i) } else { None })
                        .collect::<Vec<usize>>()
                ),
            };
            format!("{:2}:[{}]", c.index, cont)
        })
        .collect::<Vec<String>>()
        .join(", ");

    assert_eq!(s, " 0:[=4=],  1:[[1, 3, 7, 9]],  2:[=2=],  9:[[1, 3, 7, 9]], 10:[=5=], 11:[[1, 3, 7, 9]], 18:[=8=], 19:[[1, 3, 7, 9]], 20:[=6=]". to_string())
}

fn givens(text: &str) -> Vec<(usize, usize)> {
    text.lines()
        .flat_map(|line| line.split_ascii_whitespace())
        .enumerate()
        .filter(|(_, value)| "_".ne(*value))
        .map(|(index, value)| (index, value.parse().unwrap()))
        .collect()
}

fn load(pairs: &[(usize, usize)]) -> Sudoku {
    let mut sudoku = Sudoku::new();
    for (index, value) in pairs {
        sudoku.assign(*index, *value).unwrap();
    }
    sudoku
}

fn fingerprint(sudoku: &Sudoku) -> Vec<(usize, Option<usize>, Vec<bool>, usize)> {
    let mut cells: Vec<(usize, Option<usize>, Vec<bool>, usize)> = Vec::new();
    for row in 1..=9 {
        for column in 1..=9 {
            let c: &Cell = sudoku.cell_at(row, column);
            cells.push((c.index, c.value, c.options.clone(), c.todo_count));
        }
    }
    cells
}

#[test]
fn solve_completes_reducible_puzzle() {
    let mut sudoku = load(&givens(SOLVABLE));
    assert_eq!(sudoku.todo_count, 55);
    let count = sudoku.solve().unwrap();
    assert_eq!(count, 55);
    assert_eq!(sudoku.todo_count, 0);
    let expected: Vec<usize> = SOLVABLE_SOLUTION
        .chars()
        .map(|c| c.to_digit(10).unwrap() as usize)
        .collect();
    for row in 1..=9 {
        for column in 1..=9 {
            let cell = sudoku.cell_at(row, column);
            assert_eq!(cell.value, Some(expected[cell.index]));
            assert_eq!(cell.todo_count, 0);
        }
    }
}

#[test]
fn solve_is_deterministic_across_given_order() {
    let pairs = givens(SOLVABLE);
    let mut forward = load(&pairs);
    let mut reversed_pairs = pairs.clone();
    reversed_pairs.reverse();
    let mut backward = load(&reversed_pairs);
    forward.solve().unwrap();
    backward.solve().unwrap();
    assert_eq!(fingerprint(&forward), fingerprint(&backward));

    let pairs = givens("_ 3 1 8 _ _ _ _ _\n_ 8 _ _ _ 7 _ 5 _\n4 _ _ _ 9 _ _ 8 3\n_ _ _ 9 6 3 _ 1 _\n3 _ _ 1 _ 5 _ _ _\n_ 5 6 2 _ 8 3 _ _\n_ 4 _ _ _ _ _ _ _\n2 _ 9 _ 3 _ _ _ _\n_ 6 _ _ _ _ _ 3 _\n");
    let mut forward = load(&pairs);
    let mut reversed_pairs = pairs.clone();
    reversed_pairs.reverse();
    let mut backward = load(&reversed_pairs);
    let n1 = forward.solve().unwrap();
    let n2 = backward.solve().unwrap();
    assert_eq!(n1, 4);
    assert_eq!(n2, 4);
    assert!(forward.todo_count > 0, "propagation alone should not finish this puzzle");
    assert_eq!(fingerprint(&forward), fingerprint(&backward));
}

#[test]
fn filling_a_row_cascades_the_naked_single() {
    let mut sudoku = Sudoku::new();
    for i in 0..7 {
        assert_eq!(sudoku.assign(i, i + 1), Ok(1));
    }
    let count = sudoku.assign(7, 8).unwrap();
    assert_eq!(count, 2, "the last open cell of the row should be forced");
    assert_eq!(sudoku.cell_at(1, 9).value, Some(9));
    assert_eq!(sudoku.todo_count, 72);
}

#[test]
fn assign_rejects_bad_position_and_value() {
    let mut sudoku = Sudoku::new();
    assert_eq!(
        sudoku.assign(81, 1),
        Err(SudokuError::InvalidCellIndex { cell_index: 81 })
    );
    assert_eq!(sudoku.assign(0, 0), Err(SudokuError::IllegalValue { value: 0 }));
    assert_eq!(sudoku.assign(0, 10), Err(SudokuError::IllegalValue { value: 10 }));
    assert_eq!(sudoku.todo_count, 81);
}

#[test]
fn assign_rejects_eliminated_candidate_and_keeps_state() {
    let mut sudoku = Sudoku::new();
    sudoku.assign(0, 5).unwrap();
    let before = fingerprint(&sudoku);
    let before_todo = sudoku.todo_count;
    let result = sudoku.assign(1, 5);
    match result {
        Err(SudokuError::CannotChoose { cell, value }) => {
            assert_eq!(value, 5);
            assert_eq!(cell.index, 1);
            assert_eq!(cell.value, None);
            assert!(!cell.options[5]);
        }
        other => panic!("expected CannotChoose, got {:?}", other),
    }
    assert_eq!(fingerprint(&sudoku), before);
    assert_eq!(sudoku.todo_count, before_todo);
}

#[test]
fn assign_propagates_through_groups() {
    let mut sudoku = Sudoku::new();
    let count = sudoku.assign(0, 5).unwrap();
    assert_eq!(count, 1);
    assert_eq!(sudoku.todo_count, 80);
    assert_eq!(sudoku.cell_at(1, 1).value, Some(5));
    for cell in sudoku.cells_of_row(0) {
        if cell.index != 0 {
            assert!(!cell.options[5], "row peer {} still offers 5", cell.index);
        }
    }
    for cell in sudoku.cells_of_column(0) {
        if cell.index != 0 {
            assert!(!cell.options[5], "column peer {} still offers 5", cell.index);
        }
    }
    for cell in sudoku.cells_of_square(0) {
        if cell.index != 0 {
            assert!(!cell.options[5], "square peer {} still offers 5", cell.index);
        }
    }
}

#[test]
fn reassigning_a_different_value_is_refused() {
    let mut sudoku = Sudoku::new();
    sudoku.assign(0, 5).unwrap();
    let before = fingerprint(&sudoku);
    match sudoku.assign(0, 6) {
        Err(SudokuError::CannotChoose { cell, value }) => {
            assert_eq!(value, 6);
            assert_eq!(cell.index, 0);
            assert_eq!(cell.value, Some(5));
        }
        other => panic!("expected CannotChoose, got {:?}", other),
    }
    assert_eq!(fingerprint(&sudoku), before);
}

#[test]
fn reassigning_same_value_is_a_counted_no_op() {
    let mut sudoku = Sudoku::new();
    assert_eq!(sudoku.assign(40, 7), Ok(1));
    let before = fingerprint(&sudoku);
    assert_eq!(sudoku.assign(40, 7), Ok(0));
    assert_eq!(fingerprint(&sudoku), before);
    assert_eq!(sudoku.todo_count, 80);
}

#[test]
fn eliminate_twice_equals_eliminate_once() {
    let mut cell = Cell::new(0, 0, 0, 0);
    cell.remove_option_if_available(5);
    let once = (cell.options.clone(), cell.todo_count);
    cell.remove_option_if_available(5);
    assert_eq!((cell.options.clone(), cell.todo_count), once);
    assert_eq!(cell.todo_count, 8);
    assert!(!cell.options[5]);
}

#[test]
fn todo_count_tracks_unassigned_cells() {
    let mut sudoku = load(&givens(SOLVABLE));
    let unassigned = fingerprint(&sudoku)
        .iter()
        .filter(|(_, value, _, _)| value.is_none())
        .count();
    assert_eq!(sudoku.todo_count, unassigned);
    let count = sudoku.solve().unwrap();
    assert!(count <= 81);
    let unassigned = fingerprint(&sudoku)
        .iter()
        .filter(|(_, value, _, _)| value.is_none())
        .count();
    assert_eq!(sudoku.todo_count, unassigned);
}

#[test]
fn remaining_count_zero_exactly_on_assigned_cells() {
    let mut sudoku = load(&givens(SOLVABLE));
    for (_, value, _, todo) in fingerprint(&sudoku) {
        assert_eq!(todo == 0, value.is_some());
    }
    sudoku.solve().unwrap();
    for (_, value, _, todo) in fingerprint(&sudoku) {
        assert_eq!(todo == 0, value.is_some());
    }
}
