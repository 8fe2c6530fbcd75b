//! One grid position: its coordinates, its assigned digit if any, and the
//! digits still possible for it.

use vstd::prelude::*;

use crate::model::{
    assigned_cell, cell_model_wf, cell_without, col_of, count_true, first_true_from,
    forced_value, lemma_count_true_all_false, lemma_count_true_positive,
    lemma_count_true_update_false, lemma_first_true_exists, row_of, square_of, CellModel,
};

verus! {

#[derive(Debug)]
pub struct Cell {
    pub index: usize,
    pub column: usize,
    pub row: usize,
    pub square_nr: usize,
    pub value: Option<usize>,
    pub options: Vec<bool>,
    pub todo_count: usize,
}

impl View for Cell {
    type V = CellModel;

    open spec fn view(&self) -> CellModel {
        CellModel { value: self.value, opts: self.options@ }
    }
}

impl Clone for Cell {
    /// A copy that agrees with the cloned cell in every observable field.
    fn clone(&self) -> (r: Self)
        ensures
            r@ == self@,
            r.index == self.index,
            r.row == self.row,
            r.column == self.column,
            r.square_nr == self.square_nr,
            r.value == self.value,
            r.todo_count == self.todo_count,
    {
        let mut options: Vec<bool> = Vec::new();
        let mut k: usize = 0;
        while k < self.options.len()
            invariant
                k <= self.options@.len(),
                options@.len() == k,
                forall|j: int| 0 <= j < k ==> options@[j] == self.options@[j],
            decreases self.options@.len() - k,
        {
            options.push(self.options[k]);
            k = k + 1;
        }
        proof {
            assert(options@ =~= self.options@);
        }
        Cell {
            index: self.index,
            column: self.column,
            row: self.row,
            square_nr: self.square_nr,
            value: self.value,
            options,
            todo_count: self.todo_count,
        }
    }
}

impl Cell {
    /// Well-formed at position `p`: coordinates derived from the position,
    /// the candidate count cached correctly, and the model side well-formed.
    pub open spec fn wf_at(self, p: int) -> bool {
        &&& self.index == p
        &&& self.row == row_of(p)
        &&& self.column == col_of(p)
        &&& self.square_nr == square_of(p)
        &&& self.todo_count == count_true(self@.opts)
        &&& cell_model_wf(self@)
    }

    pub fn new(index: usize, row: usize, column: usize, square_nr: usize) -> (c: Cell)
        requires
            index < 81,
            row == row_of(index as int),
            column == col_of(index as int),
            square_nr == square_of(index as int),
        ensures
            c.wf_at(index as int),
            c@.value is None,
            forall|k: int| 1 <= k < 10 ==> c@.opts[k],
            c.todo_count == 9,
    {
        let options: Vec<bool> = vec![
            false,
            true,
            true,
            true,
            true,
            true,
            true,
            true,
            true,
            true,
        ];
        proof {
            assert(count_true(options@) == 9) by {
                reveal_with_fuel(count_true, 11);
            }
        }
        Cell { index, column, row, square_nr, value: None, options, todo_count: 9 }
    }

    /// True when `value` is still a candidate of this cell.
    pub fn can_choose(&self, value: usize) -> (r: bool)
        requires
            value < self@.opts.len(),
        ensures
            r == self@.opts[value as int],
    {
        self.options[value]
    }

    /// True when this cell is assigned exactly `value`.
    pub fn has_value(&self, value: usize) -> (r: bool)
        ensures
            r == match self.value {
                Some(w) => w == value,
                None => value == 0,
            },
    {
        match self.value {
            Some(w) => w == value,
            None => value == 0,
        }
    }

    /// True while the cell is unassigned.
    pub fn has_options(&self) -> (r: bool)
        ensures
            r == (self.value is None),
    {
        self.value.is_none()
    }

    /// True for cells in the last grid column.
    pub fn is_rightmost(&self) -> (r: bool)
        ensures
            r == (self.column == 8),
    {
        self.column == 8
    }

    /// Withdraws `value` from the candidates if present; does nothing
    /// otherwise, so calling it twice equals calling it once.
    pub fn remove_option_if_available(&mut self, value: usize)
        requires
            value < 10,
            old(self)@.opts.len() == 10,
            old(self).todo_count == count_true(old(self)@.opts),
        ensures
            final(self)@ == cell_without(old(self)@, value as int),
            final(self).todo_count == count_true(final(self)@.opts),
            final(self).index == old(self).index,
            final(self).row == old(self).row,
            final(self).column == old(self).column,
            final(self).square_nr == old(self).square_nr,
    {
        proof {
            if old(self)@.opts[value as int] {
                lemma_count_true_positive(self@.opts, value as int);
            }
        }
        if self.options[value] && self.todo_count > 0 {
            self.options.set(value, false);
            proof {
                lemma_count_true_update_false(old(self)@.opts, value as int);
            }
            self.todo_count = self.todo_count - 1;
        }
    }

    /// The forced digit when exactly one candidate is left, else nothing.
    pub fn solution(&self) -> (r: Option<usize>)
        requires
            self@.opts.len() == 10,
            self.todo_count == count_true(self@.opts),
        ensures
            r == if count_true(self@.opts) == 1 {
                Some(forced_value(self@) as usize)
            } else {
                None::<usize>
            },
    {
        if self.todo_count == 1 {
            let mut k: usize = 0;
            while k < 10
                invariant
                    0 <= k <= 10,
                    self@.opts.len() == 10,
                    count_true(self@.opts) == 1,
                    first_true_from(self@.opts, 0) == first_true_from(self@.opts, k as int),
                decreases 10 - k,
            {
                if self.options[k] {
                    return Some(k);
                }
                k = k + 1;
            }
            proof {
                lemma_first_true_exists(self@.opts);
            }
            assert(false);
            None
        } else {
            None
        }
    }

    /// Assigns `value` to this cell: the digit is recorded and every
    /// candidate is cleared.
    pub fn assign(&mut self, value: usize)
        requires
            old(self)@.opts.len() == 10,
        ensures
            final(self)@ == assigned_cell(value),
            final(self).todo_count == 0,
            final(self).todo_count == count_true(final(self)@.opts),
            final(self).index == old(self).index,
            final(self).row == old(self).row,
            final(self).column == old(self).column,
            final(self).square_nr == old(self).square_nr,
    {
        let mut k: usize = 0;
        while k < 10
            invariant
                0 <= k <= 10,
                self@.opts.len() == 10,
                forall|j: int| 0 <= j < k ==> !self@.opts[j],
                self.value == old(self).value,
                self.index == old(self).index,
                self.row == old(self).row,
                self.column == old(self).column,
                self.square_nr == old(self).square_nr,
            decreases 10 - k,
        {
            self.options.set(k, false);
            k = k + 1;
        }
        self.value = Some(value);
        self.todo_count = 0;
        proof {
            assert(self@.opts =~= assigned_cell(value).opts);
            lemma_count_true_all_false(self@.opts);
        }
    }
}

} // verus!
