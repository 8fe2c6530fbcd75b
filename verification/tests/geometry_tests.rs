use sudoku_solver::cell_indices_per_group::CellIndices;
use sudoku_solver::cell_iterators::{CellLinearDefinition, CellRange};
use sudoku_solver::Sudoku;

#[test]
fn grid_indices() {
    let grid = CellIndices::new();
    println!("Grid {:?}", grid)
}

#[test]
fn linear_range_walks_with_step() {
    let range = CellRange::from_linear(CellLinearDefinition {
        start_cell_index: 2,
        end_cell_index: 75,
        step_by: 9,
    });
    for expected in [2usize, 11, 20, 29, 38, 47, 56, 65, 74] {
        assert!(range.contains(expected), "expected {} in column walk", expected);
    }
    for absent in [0usize, 3, 10, 75, 80] {
        assert!(!range.contains(absent), "did not expect {}", absent);
    }
}

#[test]
fn linear_range_without_step_is_contiguous() {
    let range = CellRange::from_linear(CellLinearDefinition {
        start_cell_index: 9,
        end_cell_index: 18,
        step_by: 0,
    });
    for expected in 9usize..18 {
        assert!(range.contains(expected));
    }
    assert!(!range.contains(8));
    assert!(!range.contains(18));
}

#[test]
fn square_range_matches_square_geometry() {
    let range = CellRange::from_square_nr(4);
    for expected in [30usize, 31, 32, 39, 40, 41, 48, 49, 50] {
        assert!(range.contains(expected), "expected {} in square 4", expected);
    }
    assert!(!range.contains(29));
    assert!(!range.contains(33));
}

#[test]
fn group_lookups_agree_with_geometry() {
    let indices = CellIndices::new();
    assert_eq!(indices.for_row(0).clone(), vec![0, 1, 2, 3, 4, 5, 6, 7, 8]);
    assert_eq!(
        indices.for_row(8).clone(),
        vec![72, 73, 74, 75, 76, 77, 78, 79, 80]
    );
    assert_eq!(
        indices.for_column(2).clone(),
        vec![2, 11, 20, 29, 38, 47, 56, 65, 74]
    );
    assert_eq!(
        indices.for_square(0).clone(),
        vec![0, 1, 2, 9, 10, 11, 18, 19, 20]
    );
    assert_eq!(
        indices.for_square(8).clone(),
        vec![60, 61, 62, 69, 70, 71, 78, 79, 80]
    );
}

#[test]
fn group_getters_return_member_cells() {
    let sudoku = Sudoku::new();
    let row: Vec<usize> = sudoku.cells_of_row(3).iter().map(|c| c.index).collect();
    assert_eq!(row, vec![27, 28, 29, 30, 31, 32, 33, 34, 35]);
    let column: Vec<usize> = sudoku.cells_of_column(4).iter().map(|c| c.index).collect();
    assert_eq!(column, vec![4, 13, 22, 31, 40, 49, 58, 67, 76]);
    let square: Vec<usize> = sudoku.cells_of_square(5).iter().map(|c| c.index).collect();
    assert_eq!(square, vec![33, 34, 35, 42, 43, 44, 51, 52, 53]);
    for cell in sudoku.cells_of_row(3) {
        assert_eq!(cell.value, None);
        assert_eq!(cell.todo_count, 9);
    }
}

#[test]
fn cell_at_uses_one_based_coordinates() {
    let mut sudoku = Sudoku::new();
    sudoku.assign(22, 9).unwrap();
    assert_eq!(sudoku.cell_at(3, 5).index, 22);
    assert_eq!(sudoku.cell_at(3, 5).value, Some(9));
    assert_eq!(sudoku.cell_at(1, 1).index, 0);
    assert_eq!(sudoku.cell_at(9, 9).index, 80);
}
