//! The puzzle itself: 81 cells, the assignment operation with its cascade of
//! naked singles, and the solve loop that hunts hidden singles group by
//! group. Every public operation's outcome is stated against the functions
//! of `crate::model`.

use vstd::prelude::*;

use crate::api::{SudokuError, SudokuResult};
use crate::cell::Cell;
use crate::cell_indices_per_group::CellIndices;
use crate::model::{
    cell_without, count_true, eliminate_peers, first_holder_prefix, first_naked,
    first_naked_from, first_true_from, fresh_cell, fresh_grid, grid_wf, holders_prefix,
    lemma_count_true_zero, lemma_forced_value_range, lemma_member_pos_range,
    lemma_unassigned_all_none, lemma_unassigned_le_len, lemma_unassigned_positive,
    lemma_unassigned_update_assigned, member_pos, no_dead_cell, place_value, sees,
    unassigned_count, GridModel,
};

verus! {

/// A grid of 81 cells together with the shared group-index tables and the
/// count of still-unassigned cells.
pub struct Sudoku {
    pub cells: Vec<Cell>,
    pub cell_indices: CellIndices,
    pub todo_count: usize,
}

/// 81 cells, each well-formed at its own position.
pub open spec fn cells_wf(cs: Seq<Cell>) -> bool {
    &&& cs.len() == 81
    &&& forall|i: int| 0 <= i < 81 ==> (#[trigger] cs[i]).wf_at(i)
}

/// A mutable borrow of one cell of the grid's vector.
fn cell_mut(cells: &mut Vec<Cell>, i: usize) -> (c: &mut Cell)
    requires
        i < old(cells)@.len(),
    ensures
        *c == old(cells)@[i as int],
        final(cells)@ == old(cells)@.update(i as int, *final(c)),
{
    &mut cells[i]
}

impl View for Sudoku {
    type V = GridModel;

    open spec fn view(&self) -> GridModel {
        Seq::new(self.cells@.len() as nat, |i: int| self.cells@[i]@)
    }
}

impl Sudoku {
    /// The grid invariant: well-formed cells, a truthful unassigned count,
    /// and well-formed index tables.
    pub open spec fn wf(self) -> bool {
        &&& cells_wf(self.cells@)
        &&& self.todo_count == unassigned_count(self@)
        &&& self.cell_indices.wf()
    }

    /// A fresh grid: nothing assigned, every digit open everywhere.
    pub fn new() -> (s: Sudoku)
        ensures
            s.wf(),
            s.todo_count == 81,
            s@ == fresh_grid(),
    {
        let mut cells: Vec<Cell> = Vec::new();
        let mut index: usize = 0;
        while index < 81
            invariant
                cells@.len() == index,
                index <= 81,
                forall|k: int| 0 <= k < index ==> (#[trigger] cells@[k]).wf_at(k),
                forall|k: int| 0 <= k < index ==> (#[trigger] cells@[k])@ == fresh_cell(),
            decreases 81 - index,
        {
            let row = index / 9;
            let column = index % 9;
            let square_nr = (row / 3) * 3 + column / 3;
            let cell = Cell::new(index, row, column, square_nr);
            proof {
                assert(cell@.opts =~= fresh_cell().opts);
            }
            cells.push(cell);
            index = index + 1;
        }
        let s = Sudoku { cells, cell_indices: CellIndices::new(), todo_count: 81 };
        proof {
            assert(s@ =~= fresh_grid());
            lemma_unassigned_all_none(s@);
        }
        s
    }

    /// Withdraws `value` from every cell that shares the given row, column
    /// or square, except the cell at `except_cell_index` itself.
    fn remove_options(
        &mut self,
        value: usize,
        row_nr: usize,
        column_nr: usize,
        square_nr: usize,
        except_cell_index: usize,
    )
        requires
            cells_wf(old(self).cells@),
            1 <= value <= 9,
            except_cell_index < 81,
            row_nr == crate::model::row_of(except_cell_index as int),
            column_nr == crate::model::col_of(except_cell_index as int),
            square_nr == crate::model::square_of(except_cell_index as int),
        ensures
            cells_wf(final(self).cells@),
            final(self)@ == eliminate_peers(old(self)@, except_cell_index as int, value as int),
            final(self).todo_count == old(self).todo_count,
            final(self).cell_indices == old(self).cell_indices,
            unassigned_count(final(self)@) == unassigned_count(old(self)@),
    {
        let p = except_cell_index;
        let ghost g0 = self@;
        let mut i: usize = 0;
        while i < 81
            invariant
                cells_wf(self.cells@),
                1 <= value <= 9,
                p < 81,
                i <= 81,
                row_nr == crate::model::row_of(p as int),
                column_nr == crate::model::col_of(p as int),
                square_nr == crate::model::square_of(p as int),
                g0.len() == 81,
                forall|k: int|
                    0 <= k < i ==> self@[k] == eliminate_peers(g0, p as int, value as int)[k],
                forall|k: int| i <= k < 81 ==> self@[k] == g0[k],
                self.todo_count == old(self).todo_count,
                self.cell_indices == old(self).cell_indices,
            decreases 81 - i,
        {
            let same_group = {
                let c = &self.cells[i];
                c.index != p && (c.row == row_nr || c.column == column_nr || c.square_nr
                    == square_nr)
            };
            proof {
                assert(same_group == sees(i as int, p as int));
            }
            if same_group {
                let ghost cs_entry = self.cells@;
                let ghost before = self.cells@[i as int]@;
                let c = cell_mut(&mut self.cells, i);
                c.remove_option_if_available(value);
                proof {
                    if before.value is Some {
                        lemma_count_true_zero(before.opts);
                    }
                    assert(self.cells@ == cs_entry.update(i as int, self.cells@[i as int]));
                    assert(forall|k: int|
                        0 <= k < 81 && k != i ==> self@[k] == Seq::new(
                            cs_entry.len() as nat,
                            |n: int| cs_entry[n]@,
                        )[k]);
                    assert(self.cells@[i as int]@ == cell_without(g0[i as int], value as int));
                    assert(self@[i as int] == eliminate_peers(g0, p as int, value as int)[
                        i as int
                    ]);
                }
            }
            i = i + 1;
        }
        proof {
            assert(self@ =~= eliminate_peers(g0, p as int, value as int));
            crate::model::lemma_eliminate_peers_values(g0, p as int, value as int);
        }
    }

    /// Writes `value` into the unassigned cell at `cell_index` and
    /// withdraws it from every peer: one step of the model's `place_value`.
    fn place(&mut self, cell_index: usize, value: usize)
        requires
            cells_wf(old(self).cells@),
            old(self).todo_count == unassigned_count(old(self)@),
            cell_index < 81,
            1 <= value <= 9,
            old(self)@[cell_index as int].value is None,
        ensures
            cells_wf(final(self).cells@),
            final(self)@ == place_value(old(self)@, cell_index as int, value),
            final(self).todo_count == old(self).todo_count - 1,
            final(self).todo_count == unassigned_count(final(self)@),
            final(self).cell_indices == old(self).cell_indices,
    {
        proof {
            lemma_unassigned_positive(old(self)@, cell_index as int);
        }
        self.todo_count = self.todo_count - 1;
        let (row_nr, column_nr, square_nr) = {
            let c = &self.cells[cell_index];
            (c.row, c.column, c.square_nr)
        };
        let ghost cs_entry = self.cells@;
        {
            let c = cell_mut(&mut self.cells, cell_index);
            c.assign(value);
        }
        proof {
            assert(self.cells@ == cs_entry.update(cell_index as int, self.cells@[
                cell_index as int
            ]));
            assert(self@ =~= old(self)@.update(
                cell_index as int,
                crate::model::assigned_cell(value),
            ));
            lemma_unassigned_update_assigned(
                old(self)@,
                cell_index as int,
                crate::model::assigned_cell(value),
            );
        }
        self.remove_options(value, row_nr, column_nr, square_nr, cell_index);
    }

    /// The lowest position holding a naked single, if any cell is down to
    /// exactly one candidate.
    fn first_naked_cell(&self) -> (r: Option<usize>)
        requires
            cells_wf(self.cells@),
        ensures
            r is None ==> first_naked(self@) == 81,
            r matches Some(i) ==> i < 81 && first_naked(self@) == i,
    {
        let mut i: usize = 0;
        while i < 81
            invariant
                cells_wf(self.cells@),
                i <= 81,
                first_naked(self@) == first_naked_from(self@, i as int),
            decreases 81 - i,
        {
            let naked = {
                let c = &self.cells[i];
                c.has_options() && c.todo_count == 1
            };
            if naked {
                return Some(i);
            }
            i = i + 1;
        }
        None
    }

    /// Assigns `value` at `cell_index`, then keeps assigning forced digits
    /// until no cell is down to one candidate. Returns how many cells were
    /// assigned; assigning a digit the cell already holds is a no-op.
    fn assign_cell_value(&mut self, cell_index: usize, value: usize) -> (r: usize)
        requires
            old(self).wf(),
            cell_index < 81,
            1 <= value <= 9,
            old(self)@[cell_index as int].value is None || old(self)@[cell_index as int].value
                == Some(value),
        ensures
            final(self).wf(),
            old(self)@[cell_index as int].value == Some(value) ==> r == 0 && final(self)@ == old(self)@ && final(self).todo_count == old(self).todo_count,
            old(self)@[cell_index as int].value is None ==> final(self)@ == crate::model::assign_outcome(
                old(self)@,
                cell_index as int,
                value,
            ).0 && r == crate::model::assign_outcome(old(self)@, cell_index as int, value).1,
            r == old(self).todo_count - final(self).todo_count,
            final(self).cell_indices == old(self).cell_indices,
    {
        let already = {
            let c = &self.cells[cell_index];
            c.has_value(value)
        };
        if already {
            return 0;
        }
        let ghost g1 = place_value(old(self)@, cell_index as int, value);
        self.place(cell_index, value);
        let mut counter: usize = 1;
        proof {
            lemma_unassigned_le_len(old(self)@);
        }
        let mut naked = self.first_naked_cell();
        while naked.is_some()
            invariant
                cells_wf(self.cells@),
                self.todo_count == unassigned_count(self@),
                self.cell_indices == old(self).cell_indices,
                self@.len() == 81,
                grid_wf(self@),
                match naked {
                    Some(i) => i < 81 && first_naked(self@) == i,
                    None => first_naked(self@) == 81,
                },
                crate::model::propagate(self@).0 == crate::model::propagate(g1).0,
                counter + crate::model::propagate(self@).1 == 1 + crate::model::propagate(g1).1,
                counter == old(self).todo_count - self.todo_count,
                old(self).todo_count <= 81,
                1 <= counter <= 81,
            decreases self.todo_count,
        {
            let i = naked.unwrap();
            proof {
                crate::model::lemma_first_naked_props(self@, 0);
            }
            let forced = {
                let c = &self.cells[i];
                c.solution()
            };
            let fv = forced.unwrap();
            proof {
                lemma_forced_value_range(self@[i as int]);
            }
            let ghost prev = self@;
            self.place(i, fv);
            counter = counter + 1;
            proof {
                assert(crate::model::propagate(prev) == (
                    crate::model::propagate(place_value(prev, i as int, fv)).0,
                    (crate::model::propagate(place_value(prev, i as int, fv)).1 + 1) as nat,
                ));
            }
            naked = self.first_naked_cell();
        }
        proof {
            assert(crate::model::propagate(self@) == (self@, 0nat));
        }
        counter
    }

    /// Scans one group for a hidden single: the lowest digit that exactly
    /// one unassigned member still lists, with that member's position.
    fn scan_group(&self, kind: usize, grp: usize) -> (r: Option<Choice>)
        requires
            self.wf(),
            kind < 3,
            grp < 9,
        ensures
            r is None ==> crate::model::group_single(self@, kind as int, grp as int) is None,
            r matches Some(c) ==> crate::model::group_single(self@, kind as int, grp as int)
                == Some((c.cell_index as int, c.cell_value as int)),
    {
        let mut group_options = GroupOptions::new();
        let mut j: usize = 0;
        while j < 9
            invariant
                self.wf(),
                kind < 3,
                grp < 9,
                j <= 9,
                group_options.options@.len() == 10,
                group_options.set_from@.len() == 10,
                forall|v: int|
                    0 <= v < 10 ==> agg_state_ok(
                        self@,
                        kind as int,
                        grp as int,
                        v,
                        j as int,
                        group_options.options@[v],
                        group_options.set_from@[v],
                    ),
            decreases 9 - j,
        {
            let pos = {
                let idxs = if kind == 0 {
                    self.cell_indices.for_row(grp)
                } else if kind == 1 {
                    self.cell_indices.for_column(grp)
                } else {
                    self.cell_indices.for_square(grp)
                };
                idxs[j]
            };
            proof {
                lemma_member_pos_range(kind as int, grp as int, j as int);
            }
            let c = &self.cells[pos];
            if c.has_options() {
                group_options.xor(&c.options, pos);
            }
            proof {
                assert forall|v: int| 0 <= v < 10 implies agg_state_ok(
                    self@,
                    kind as int,
                    grp as int,
                    v,
                    j + 1,
                    group_options.options@[v],
                    group_options.set_from@[v],
                ) by {
                    crate::model::lemma_first_holder(self@, kind as int, grp as int, v, j as int);
                }
            }
            j = j + 1;
        }
        proof {
            crate::model::lemma_holders_digit_zero(self@, kind as int, grp as int, 9);
            crate::model::lemma_digit_alignment(
                self@,
                kind as int,
                grp as int,
                group_options.options@,
                1,
            );
            crate::model::lemma_group_single_digit(self@, kind as int, grp as int, 1);
            assert(first_true_from(group_options.options@, 0) == first_true_from(
                group_options.options@,
                1,
            ));
        }
        group_options.single_option()
    }

    /// The first hidden single among the groups of one kind (0 rows,
    /// 1 columns, 2 squares), scanning group 0 upward.
    fn locate_single_options_by(&self, kind: usize) -> (r: Option<Choice>)
        requires
            self.wf(),
            kind < 3,
        ensures
            r is None ==> crate::model::kind_single_from(self@, kind as int, 0) is None,
            r matches Some(c) ==> crate::model::kind_single_from(self@, kind as int, 0) == Some(
                (c.cell_index as int, c.cell_value as int),
            ),
    {
        let mut grp: usize = 0;
        while grp < 9
            invariant
                self.wf(),
                kind < 3,
                grp <= 9,
                crate::model::kind_single_from(self@, kind as int, 0)
                    == crate::model::kind_single_from(self@, kind as int, grp as int),
            decreases 9 - grp,
        {
            let r = self.scan_group(kind, grp);
            if r.is_some() {
                return r;
            }
            grp = grp + 1;
        }
        None
    }

    /// The first hidden single across the rows.
    fn locate_single_options_by_row(&self) -> (r: Option<Choice>)
        requires
            self.wf(),
        ensures
            r is None ==> crate::model::kind_single_from(self@, 0, 0) is None,
            r matches Some(c) ==> crate::model::kind_single_from(self@, 0, 0) == Some(
                (c.cell_index as int, c.cell_value as int),
            ),
    {
        self.locate_single_options_by(0)
    }

    /// The first hidden single across the columns.
    fn locate_single_options_by_column(&self) -> (r: Option<Choice>)
        requires
            self.wf(),
        ensures
            r is None ==> crate::model::kind_single_from(self@, 1, 0) is None,
            r matches Some(c) ==> crate::model::kind_single_from(self@, 1, 0) == Some(
                (c.cell_index as int, c.cell_value as int),
            ),
    {
        self.locate_single_options_by(1)
    }

    /// The first hidden single across the squares.
    fn locate_single_options_by_square(&self) -> (r: Option<Choice>)
        requires
            self.wf(),
        ensures
            r is None ==> crate::model::kind_single_from(self@, 2, 0) is None,
            r matches Some(c) ==> crate::model::kind_single_from(self@, 2, 0) == Some(
                (c.cell_index as int, c.cell_value as int),
            ),
    {
        self.locate_single_options_by(2)
    }

    /// The grid's first hidden single: rows first, then columns, then
    /// squares.
    fn locate_single_options(&self) -> (r: Option<Choice>)
        requires
            self.wf(),
        ensures
            r is None ==> crate::model::hidden_single(self@) is None,
            r matches Some(c) ==> crate::model::hidden_single(self@) == Some(
                (c.cell_index as int, c.cell_value as int),
            ),
    {
        match self.locate_single_options_by_row() {
            None => match self.locate_single_options_by_column() {
                None => self.locate_single_options_by_square(),
                result => result,
            },
            result => result,
        }
    }

    /// Requests digit `value` for the cell at `cell_index`. On acceptance
    /// the digit is placed and the cascade of naked singles runs; the count
    /// of cells assigned by the call is returned. Every refusal, and the
    /// no-op of re-assigning a held digit, leaves the grid unchanged.
    pub fn assign(&mut self, cell_index: usize, value: usize) -> (r: SudokuResult<usize>)
        requires
            old(self).wf(),
        ensures
            final(self).wf(),
            cell_index >= 81 ==> r == Err::<usize, SudokuError>(
                SudokuError::InvalidCellIndex { cell_index },
            ) && final(self)@ == old(self)@ && final(self).todo_count == old(self).todo_count,
            cell_index < 81 && !(1 <= value <= 9) ==> r == Err::<usize, SudokuError>(
                SudokuError::IllegalValue { value },
            ) && final(self)@ == old(self)@ && final(self).todo_count == old(self).todo_count,
            cell_index < 81 && 1 <= value <= 9 && old(self)@[cell_index as int].value == Some(
                value,
            ) ==> r == Ok::<usize, SudokuError>(0) && final(self)@ == old(self)@ && final(self).todo_count == old(self).todo_count,
            cell_index < 81 && 1 <= value <= 9 && old(self)@[cell_index as int].value != Some(
                value,
            ) && !old(self)@[cell_index as int].opts[value as int] ==> (r matches Err(e)
                && e matches SudokuError::CannotChoose { cell, value: w } && w == value && cell@
                == old(self)@[cell_index as int] && cell.index == cell_index) && final(self)@
                == old(self)@ && final(self).todo_count == old(self).todo_count,
            cell_index < 81 && 1 <= value <= 9 && old(self)@[cell_index as int].value is None
                && old(self)@[cell_index as int].opts[value as int] ==> (r matches Ok(n)
                && n == crate::model::assign_outcome(old(self)@, cell_index as int, value).1 && n
                >= 1 && n == old(self).todo_count - final(self).todo_count) && final(self)@
                == crate::model::assign_outcome(old(self)@, cell_index as int, value).0,
    {
        if cell_index >= 81 {
            return Err(SudokuError::InvalidCellIndex { cell_index });
        }
        if value < 1 || value > 9 {
            return Err(SudokuError::IllegalValue { value });
        }
        let (already, possible) = {
            let c = &self.cells[cell_index];
            (c.has_value(value), c.can_choose(value))
        };
        if already {
            Ok(0)
        } else if possible {
            proof {
                if old(self)@[cell_index as int].value is Some {
                    lemma_count_true_zero(old(self)@[cell_index as int].opts);
                }
            }
            Ok(self.assign_cell_value(cell_index, value))
        } else {
            let c = &self.cells[cell_index];
            Err(SudokuError::CannotChoose { cell: c.clone(), value })
        }
    }

    /// Runs the solve loop: find the first hidden single, assign it, and
    /// repeat until no group yields one. Returns the total count of cells
    /// assigned. The detector only proposes open candidates, so the run
    /// always succeeds; cells it cannot force stay unassigned.
    pub fn solve(&mut self) -> (r: SudokuResult<usize>)
        requires
            old(self).wf(),
        ensures
            final(self).wf(),
            r matches Ok(n) && n == crate::model::solve_outcome(old(self)@).1 && n == old(self).todo_count - final(self).todo_count && n <= 81,
            final(self)@ == crate::model::solve_outcome(old(self)@).0,
    {
        let mut count: usize = 0;
        proof {
            lemma_unassigned_le_len(old(self)@);
        }
        loop
            invariant
                self.wf(),
                old(self).todo_count <= 81,
                count == old(self).todo_count - self.todo_count,
                crate::model::solve_outcome(self@).0 == crate::model::solve_outcome(old(self)@).0,
                count + crate::model::solve_outcome(self@).1 == crate::model::solve_outcome(
                    old(self)@,
                ).1,
            decreases self.todo_count,
        {
            let found = self.locate_single_options();
            match found {
                None => {
                    proof {
                        assert(crate::model::solve_outcome(self@) == (self@, 0nat));
                    }
                    return Ok(count);
                },
                Some(next) => {
                    proof {
                        crate::model::lemma_hidden_single_offers(self@);
                    }
                    let ghost prev = self@;
                    let picked = self.assign(next.cell_index, next.cell_value);
                    match picked {
                        Ok(n) => {
                            count = count + n;
                            proof {
                                assert(crate::model::solve_outcome(prev).0
                                    == crate::model::solve_outcome(self@).0);
                            }
                        },
                        Err(e) => {
                            // the detector only proposes an open candidate
                            // of an unassigned cell, which assign accepts
                            proof {
                                assert(false);
                            }
                            return Err(e);
                        },
                    }
                },
            }
        }
    }

    /// Copies of the nine cells of row `row_nr`, in ascending position.
    pub fn cells_of_row(&self, row_nr: usize) -> (r: Vec<Cell>)
        requires
            self.wf(),
            row_nr < 9,
        ensures
            r@.len() == 9,
            forall|j: int|
                0 <= j < 9 ==> (#[trigger] r@[j])@ == self@[member_pos(0, row_nr as int, j)]
                    && r@[j].wf_at(member_pos(0, row_nr as int, j)),
    {
        self.cells_of_group(0, row_nr)
    }

    /// Copies of the nine cells of column `column_nr`, top to bottom.
    pub fn cells_of_column(&self, column_nr: usize) -> (r: Vec<Cell>)
        requires
            self.wf(),
            column_nr < 9,
        ensures
            r@.len() == 9,
            forall|j: int|
                0 <= j < 9 ==> (#[trigger] r@[j])@ == self@[member_pos(1, column_nr as int, j)]
                    && r@[j].wf_at(member_pos(1, column_nr as int, j)),
    {
        self.cells_of_group(1, column_nr)
    }

    /// Copies of the nine cells of square `square_nr`, in ascending
    /// position.
    pub fn cells_of_square(&self, square_nr: usize) -> (r: Vec<Cell>)
        requires
            self.wf(),
            square_nr < 9,
        ensures
            r@.len() == 9,
            forall|j: int|
                0 <= j < 9 ==> (#[trigger] r@[j])@ == self@[member_pos(2, square_nr as int, j)]
                    && r@[j].wf_at(member_pos(2, square_nr as int, j)),
    {
        self.cells_of_group(2, square_nr)
    }

    /// Copies of the nine cells of one group, in member order.
    fn cells_of_group(&self, kind: usize, grp: usize) -> (r: Vec<Cell>)
        requires
            self.wf(),
            kind < 3,
            grp < 9,
        ensures
            r@.len() == 9,
            forall|j: int|
                0 <= j < 9 ==> (#[trigger] r@[j])@ == self@[member_pos(kind as int, grp as int, j)]
                    && r@[j].wf_at(member_pos(kind as int, grp as int, j)),
    {
        let mut r: Vec<Cell> = Vec::new();
        let mut j: usize = 0;
        while j < 9
            invariant
                self.wf(),
                kind < 3,
                grp < 9,
                j <= 9,
                r@.len() == j,
                forall|ji: int|
                    0 <= ji < j ==> (#[trigger] r@[ji])@ == self@[member_pos(
                        kind as int,
                        grp as int,
                        ji,
                    )] && r@[ji].wf_at(member_pos(kind as int, grp as int, ji)),
            decreases 9 - j,
        {
            let pos = {
                let idxs = if kind == 0 {
                    self.cell_indices.for_row(grp)
                } else if kind == 1 {
                    self.cell_indices.for_column(grp)
                } else {
                    self.cell_indices.for_square(grp)
                };
                idxs[j]
            };
            proof {
                lemma_member_pos_range(kind as int, grp as int, j as int);
            }
            let c = &self.cells[pos];
            r.push(c.clone());
            j = j + 1;
        }
        r
    }

    /// The cells of row `row` after a bounds check.
    pub fn row_cells_with_check(&self, row: usize) -> (r: Result<Vec<Cell>, SudokuError>)
        requires
            self.wf(),
        ensures
            row >= 9 ==> (r matches Err(e) && e == (SudokuError::InvalidCellIndex {
                cell_index: row,
            })),
            row < 9 ==> (r matches Ok(cells) && cells@.len() == 9 && forall|j: int|
                0 <= j < 9 ==> (#[trigger] cells@[j])@ == self@[member_pos(0, row as int, j)]
                    && cells@[j].wf_at(member_pos(0, row as int, j))),
    {
        if row >= 9 {
            Err(SudokuError::InvalidCellIndex { cell_index: row })
        } else {
            Ok(self.cells_of_row(row))
        }
    }

    /// The cells of column `column` after a bounds check.
    pub fn column_cells_with_check(&self, column: usize) -> (r: Result<Vec<Cell>, SudokuError>)
        requires
            self.wf(),
        ensures
            column >= 9 ==> (r matches Err(e) && e == (SudokuError::InvalidCellIndex {
                cell_index: column,
            })),
            column < 9 ==> (r matches Ok(cells) && cells@.len() == 9 && forall|j: int|
                0 <= j < 9 ==> (#[trigger] cells@[j])@ == self@[member_pos(1, column as int, j)]
                    && cells@[j].wf_at(member_pos(1, column as int, j))),
    {
        if column >= 9 {
            Err(SudokuError::InvalidCellIndex { cell_index: column })
        } else {
            Ok(self.cells_of_column(column))
        }
    }

    /// The cell at 1-based row and column coordinates.
    pub fn cell_at(&self, row: usize, column: usize) -> (r: &Cell)
        requires
            self.wf(),
            1 <= row <= 9,
            1 <= column <= 9,
        ensures
            r.wf_at((row - 1) * 9 + (column - 1)),
            r@ == self@[(row - 1) * 9 + (column - 1)],
    {
        let index = (row - 1) * 9 + (column - 1);
        &self.cells[index]
    }
}

/// Law: at every observation point the grid's `todo_count` equals the
/// number of unassigned cells, and the grid model is well-formed.
pub proof fn lemma_todo_count_matches(s: &Sudoku)
    requires
        s.wf(),
    ensures
        s.todo_count == unassigned_count(s@),
        grid_wf(s@),
{
}

/// Law: in a well-formed grid where no unassigned cell has run out of
/// candidates, a cell's remaining count is zero exactly when the cell is
/// assigned. (A contradictory set of givens can leave an unassigned cell
/// with no candidates; there the forward direction fails, so it is
/// excluded.)
pub proof fn lemma_remaining_zero_iff_assigned(s: &Sudoku, i: int)
    requires
        s.wf(),
        no_dead_cell(s@),
        0 <= i < 81,
    ensures
        (count_true(s@[i].opts) == 0) <==> (s@[i].value is Some),
{
}

/// A proposed assignment: the cell at `cell_index` should take
/// `cell_value`.
struct Choice {
    cell_index: usize,
    cell_value: usize,
}

/// The aggregator state for one digit of one group scan, after the first
/// `j` members were observed: the flag is set exactly when one member
/// offered the digit so far, and the recorded position is the first
/// offering member's.
spec fn agg_state_ok(
    g: GridModel,
    kind: int,
    grp: int,
    v: int,
    j: int,
    opt: bool,
    src: Option<usize>,
) -> bool {
    &&& opt == (holders_prefix(g, kind, grp, v, j) == 1)
    &&& match src {
        Option::None => holders_prefix(g, kind, grp, v, j) == 0,
        Option::Some(ci) => holders_prefix(g, kind, grp, v, j) >= 1 && ci == member_pos(
            kind,
            grp,
            first_holder_prefix(g, kind, grp, v, j),
        ),
    }
}

/// Accumulates, across one group, which digits were seen in exactly one
/// member's candidate set, and in which member.
struct GroupOptions {
    options: Vec<bool>,
    set_from: Vec<Option<usize>>,
}

impl GroupOptions {
    fn new() -> (r: GroupOptions)
        ensures
            r.options@.len() == 10,
            r.set_from@.len() == 10,
            forall|k: int| 0 <= k < 10 ==> !r.options@[k],
            forall|k: int| 0 <= k < 10 ==> r.set_from@[k] is None,
    {
        let mut options: Vec<bool> = Vec::new();
        let mut set_from: Vec<Option<usize>> = Vec::new();
        let mut k: usize = 0;
        while k < 10
            invariant
                options@.len() == k,
                set_from@.len() == k,
                k <= 10,
                forall|j: int| 0 <= j < k ==> !options@[j],
                forall|j: int| 0 <= j < k ==> set_from@[j] is None,
            decreases 10 - k,
        {
            options.push(false);
            set_from.push(None);
            k = k + 1;
        }
        GroupOptions { options, set_from }
    }

    /// Folds one member cell's candidate set in: a digit seen for the first
    /// time is recorded as a singleton for that cell; a digit seen again is
    /// demoted for good.
    fn xor(&mut self, other: &Vec<bool>, cell_index: usize)
        requires
            old(self).options@.len() == 10,
            old(self).set_from@.len() == 10,
            other@.len() == 10,
        ensures
            final(self).options@.len() == 10,
            final(self).set_from@.len() == 10,
            forall|k: int|
                0 <= k < 10 ==> (if other@[k] {
                    match old(self).set_from@[k] {
                        Option::Some(_) => final(self).options@[k] == false && final(self).set_from@[k] == old(self).set_from@[k],
                        Option::None => final(self).options@[k] == true && final(self).set_from@[k]
                            == Some(cell_index),
                    }
                } else {
                    final(self).options@[k] == old(self).options@[k] && final(self).set_from@[k]
                        == old(self).set_from@[k]
                }),
    {
        let mut k: usize = 0;
        while k < 10
            invariant
                self.options@.len() == 10,
                self.set_from@.len() == 10,
                other@.len() == 10,
                k <= 10,
                forall|j: int|
                    k <= j < 10 ==> self.options@[j] == old(self).options@[j] && self.set_from@[j]
                        == old(self).set_from@[j],
                forall|j: int|
                    0 <= j < k ==> (if other@[j] {
                        match old(self).set_from@[j] {
                            Option::Some(_) => self.options@[j] == false && self.set_from@[j] == old(self).set_from@[j],
                            Option::None => self.options@[j] == true && self.set_from@[j] == Some(
                                cell_index,
                            ),
                        }
                    } else {
                        self.options@[j] == old(self).options@[j] && self.set_from@[j] == old(self).set_from@[j]
                    }),
            decreases 10 - k,
        {
            if other[k] {
                match self.set_from[k] {
                    Some(_) => {
                        self.options.set(k, false);
                    },
                    None => {
                        self.options.set(k, true);
                        self.set_from.set(k, Some(cell_index));
                    },
                }
            }
            k = k + 1;
        }
    }

    /// The lowest digit still marked a singleton, with its recorded cell.
    fn single_option(&self) -> (r: Option<Choice>)
        requires
            self.options@.len() == 10,
            self.set_from@.len() == 10,
            forall|k: int| 0 <= k < 10 && self.options@[k] ==> self.set_from@[k] is Some,
        ensures
            first_true_from(self.options@, 0) == 10 ==> r is None,
            first_true_from(self.options@, 0) < 10 ==> (r matches Some(c) && c.cell_value
                == first_true_from(self.options@, 0) && Some(c.cell_index) == self.set_from@[
                first_true_from(self.options@, 0)
            ]),
    {
        let mut k: usize = 0;
        while k < 10
            invariant
                self.options@.len() == 10,
                self.set_from@.len() == 10,
                forall|j: int| 0 <= j < 10 && self.options@[j] ==> self.set_from@[j] is Some,
                k <= 10,
                first_true_from(self.options@, 0) == first_true_from(self.options@, k as int),
            decreases 10 - k,
        {
            if self.options[k] {
                let cell_index = self.set_from[k].unwrap();
                return Some(Choice { cell_index, cell_value: k });
            }
            k = k + 1;
        }
        None
    }
}

} // verus!
