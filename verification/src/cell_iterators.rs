//! Explicit sets of cell positions, described either as an arithmetic
//! progression or as the members of one 3x3 square.

use vstd::prelude::*;

use crate::model::member_pos;

verus! {

/// An arithmetic progression of positions: every `step_by`-th position from
/// `start_cell_index` up to (excluding) `end_cell_index`.
pub struct CellLinearDefinition {
    pub start_cell_index: usize,
    pub end_cell_index: usize,
    pub step_by: usize,
}

impl CellLinearDefinition {
    /// The step actually walked: a step below 1 means walking every position.
    pub open spec fn step(self) -> int {
        if self.step_by > 1 {
            self.step_by as int
        } else {
            1
        }
    }
}

/// A set of cell positions, in the order they were described.
pub struct CellRange {
    cell_indices: Vec<usize>,
}

impl CellRange {
    pub closed spec fn indices(self) -> Seq<usize> {
        self.cell_indices@
    }

    /// The positions `start + k * step` that lie below the end bound, in
    /// ascending order.
    pub fn from_linear(definition: CellLinearDefinition) -> (r: CellRange)
        requires
            definition.end_cell_index + definition.step() <= usize::MAX,
        ensures
            forall|k: int|
                0 <= k < r.indices().len() ==> #[trigger] r.indices()[k]
                    == definition.start_cell_index + k * definition.step(),
            definition.start_cell_index + r.indices().len() * definition.step()
                >= definition.end_cell_index,
            r.indices().len() > 0 ==> definition.start_cell_index + (r.indices().len() - 1)
                * definition.step() < definition.end_cell_index,
            r.indices().len() == 0 ==> definition.start_cell_index >= definition.end_cell_index,
    {
        let step: usize = if definition.step_by > 1 {
            definition.step_by
        } else {
            1
        };
        let mut cell_indices: Vec<usize> = Vec::new();
        let mut i: usize = definition.start_cell_index;
        proof {
            assert(cell_indices@.len() * step == 0);
        }
        while i < definition.end_cell_index
            invariant
                step == definition.step(),
                definition.end_cell_index + step <= usize::MAX,
                i == definition.start_cell_index + cell_indices@.len() * step,
                forall|k: int|
                    0 <= k < cell_indices@.len() ==> #[trigger] cell_indices@[k]
                        == definition.start_cell_index + k * step,
                cell_indices@.len() > 0 ==> definition.start_cell_index + (cell_indices@.len() - 1)
                    * step < definition.end_cell_index,
            decreases definition.end_cell_index + step - i,
        {
            cell_indices.push(i);
            proof {
                let n = cell_indices@.len() as int;
                assert(n * step == (n - 1) * step + step) by (nonlinear_arith);
            }
            i = i + step;
        }
        CellRange { cell_indices }
    }

    /// The nine positions of square `square_nr`, ascending.
    pub fn from_square_nr(square_nr: usize) -> (r: CellRange)
        requires
            square_nr < 9,
        ensures
            r.indices().len() == 9,
            forall|j: int| 0 <= j < 9 ==> r.indices()[j] == member_pos(2, square_nr as int, j),
    {
        let mut cell_indices: Vec<usize> = Vec::new();
        let mut j: usize = 0;
        while j < 9
            invariant
                cell_indices@.len() == j,
                j <= 9,
                square_nr < 9,
                forall|ji: int|
                    0 <= ji < j ==> (#[trigger] cell_indices@[ji]) == member_pos(
                        2,
                        square_nr as int,
                        ji,
                    ),
            decreases 9 - j,
        {
            cell_indices.push((square_nr / 3) * 27 + (square_nr % 3) * 3 + (j / 3) * 9 + (j % 3));
            j = j + 1;
        }
        CellRange { cell_indices }
    }

    /// True when `cell_index` is one of the described positions.
    pub fn contains(&self, cell_index: usize) -> (r: bool)
        ensures
            r == self.indices().contains(cell_index),
    {
        let mut k: usize = 0;
        while k < self.cell_indices.len()
            invariant
                k <= self.cell_indices@.len(),
                forall|j: int| 0 <= j < k ==> self.cell_indices@[j] != cell_index,
            decreases self.cell_indices@.len() - k,
        {
            if self.cell_indices[k] == cell_index {
                return true;
            }
            k = k + 1;
        }
        false
    }
}

} // verus!
