//! Mathematical model of the grid: what a cell is, which cells constrain
//! each other, and what assignment, candidate elimination and the cascade of
//! forced values compute. The executable code in the other modules is proved
//! to realise these functions exactly.

use vstd::prelude::*;

verus! {

/// Model of one cell: its assigned digit, if any, and one candidate flag per
/// digit 1 through 9 (slot 0 is unused and always false).
pub ghost struct CellModel {
    pub value: Option<usize>,
    pub opts: Seq<bool>,
}

/// Model of the whole grid: 81 cells in row-major order.
pub type GridModel = Seq<CellModel>;

/// Row of a cell position.
pub open spec fn row_of(p: int) -> int {
    p / 9
}

/// Column of a cell position.
pub open spec fn col_of(p: int) -> int {
    p % 9
}

/// 3x3 square of a cell position.
pub open spec fn square_of(p: int) -> int {
    (row_of(p) / 3) * 3 + col_of(p) / 3
}

/// Two distinct positions constrain each other when they share a row, a
/// column or a square.
pub open spec fn sees(p: int, q: int) -> bool {
    p != q && (row_of(p) == row_of(q) || col_of(p) == col_of(q) || square_of(p) == square_of(q))
}

/// Number of true entries in a candidate-flag sequence.
pub open spec fn count_true(s: Seq<bool>) -> nat
    decreases s.len(),
{
    if s.len() == 0 {
        0
    } else {
        count_true(s.drop_last()) + if s.last() {
            1nat
        } else {
            0nat
        }
    }
}

/// A well-formed cell: ten candidate slots, slot 0 clear, and an assigned
/// cell holds a digit 1..=9 and has no candidates left.
pub open spec fn cell_model_wf(c: CellModel) -> bool {
    &&& c.opts.len() == 10
    &&& !c.opts[0]
    &&& match c.value {
        Some(v) => 1 <= v <= 9 && count_true(c.opts) == 0,
        None => true,
    }
}

/// A well-formed grid: 81 well-formed cells.
pub open spec fn grid_wf(g: GridModel) -> bool {
    &&& g.len() == 81
    &&& forall|i: int| 0 <= i < 81 ==> cell_model_wf(#[trigger] g[i])
}

/// A grid with no contradicted cell: every unassigned cell still has at
/// least one candidate.
pub open spec fn no_dead_cell(g: GridModel) -> bool {
    forall|i: int|
        0 <= i < g.len() && (#[trigger] g[i]).value is None ==> count_true(g[i].opts) >= 1
}

/// The cell with candidate `v` withdrawn, if it was present; the cell
/// unchanged otherwise.
pub open spec fn cell_without(c: CellModel, v: int) -> CellModel {
    if 0 <= v < c.opts.len() && c.opts[v] {
        CellModel { value: c.value, opts: c.opts.update(v, false) }
    } else {
        c
    }
}

/// The grid after withdrawing candidate `v` from every cell that shares a
/// row, column or square with position `p` (but not from `p` itself).
pub open spec fn eliminate_peers(g: GridModel, p: int, v: int) -> GridModel {
    Seq::new(
        g.len(),
        |i: int|
            if sees(i, p) {
                cell_without(g[i], v)
            } else {
                g[i]
            },
    )
}

/// A cell just assigned digit `v`: all candidates cleared.
pub open spec fn assigned_cell(v: usize) -> CellModel {
    CellModel { value: Some(v), opts: Seq::new(10, |k: int| false) }
}

/// The grid after writing digit `v` into position `p` and withdrawing `v`
/// from every peer of `p`.
pub open spec fn place_value(g: GridModel, p: int, v: usize) -> GridModel {
    eliminate_peers(g.update(p, assigned_cell(v)), p, v as int)
}

/// Number of unassigned cells.
pub open spec fn unassigned_count(g: GridModel) -> nat
    decreases g.len(),
{
    if g.len() == 0 {
        0
    } else {
        unassigned_count(g.drop_last()) + if g.last().value is None {
            1nat
        } else {
            0nat
        }
    }
}

/// A naked single: an unassigned cell with exactly one candidate left.
pub open spec fn is_naked(c: CellModel) -> bool {
    c.value is None && count_true(c.opts) == 1
}

/// Lowest position at or above `i` holding a naked single; 81 when none.
pub open spec fn first_naked_from(g: GridModel, i: int) -> int
    decreases 81 - i,
{
    if i < 0 || i >= 81 {
        81
    } else if is_naked(g[i]) {
        i
    } else {
        first_naked_from(g, i + 1)
    }
}

/// Lowest position holding a naked single; 81 when none.
pub open spec fn first_naked(g: GridModel) -> int {
    first_naked_from(g, 0)
}

/// Index of the first true flag at or above `k`; the length when none.
pub open spec fn first_true_from(s: Seq<bool>, k: int) -> int
    decreases s.len() - k,
{
    if k < 0 || k >= s.len() {
        s.len() as int
    } else if s[k] {
        k
    } else {
        first_true_from(s, k + 1)
    }
}

/// The digit forced on a cell: its first remaining candidate.
pub open spec fn forced_value(c: CellModel) -> int {
    first_true_from(c.opts, 0)
}

/// Clearing one flag lowers the count by one exactly when the flag was set.
pub proof fn lemma_count_true_update_false(s: Seq<bool>, k: int)
    requires
        0 <= k < s.len(),
    ensures
        count_true(s.update(k, false)) == count_true(s) - if s[k] {
            1int
        } else {
            0int
        },
    decreases s.len(),
{
    let t = s.update(k, false);
    if k == s.len() - 1 {
        assert(t.drop_last() =~= s.drop_last());
    } else {
        assert(t.drop_last() =~= s.drop_last().update(k, false));
        lemma_count_true_update_false(s.drop_last(), k);
    }
}

/// A set flag witnesses a positive count.
pub proof fn lemma_count_true_positive(s: Seq<bool>, k: int)
    requires
        0 <= k < s.len(),
        s[k],
    ensures
        count_true(s) >= 1,
    decreases s.len(),
{
    if k < s.len() - 1 {
        lemma_count_true_positive(s.drop_last(), k);
    }
}

/// A count of zero means every flag is clear.
pub proof fn lemma_count_true_zero(s: Seq<bool>)
    requires
        count_true(s) == 0,
    ensures
        forall|k: int| 0 <= k < s.len() ==> !s[k],
    decreases s.len(),
{
    if s.len() > 0 {
        lemma_count_true_zero(s.drop_last());
        assert(forall|k: int| 0 <= k < s.len() - 1 ==> s[k] == s.drop_last()[k]);
    }
}

/// A sequence of clear flags counts zero.
pub proof fn lemma_count_true_all_false(s: Seq<bool>)
    requires
        forall|k: int| 0 <= k < s.len() ==> !s[k],
    ensures
        count_true(s) == 0,
    decreases s.len(),
{
    if s.len() > 0 {
        lemma_count_true_all_false(s.drop_last());
    }
}

/// What the first-true search returns: a set flag below which all are clear,
/// or the length when all are clear.
pub proof fn lemma_first_true_from(s: Seq<bool>, i: int)
    requires
        0 <= i <= s.len(),
    ensures
        i <= first_true_from(s, i) <= s.len(),
        first_true_from(s, i) < s.len() ==> s[first_true_from(s, i)],
        forall|j: int| i <= j < first_true_from(s, i) ==> !s[j],
        first_true_from(s, i) == s.len() ==> forall|j: int| i <= j < s.len() ==> !s[j],
    decreases s.len() - i,
{
    if i < s.len() && !s[i] {
        lemma_first_true_from(s, i + 1);
    }
}

/// A positive count puts the first set flag inside the sequence.
pub proof fn lemma_first_true_exists(s: Seq<bool>)
    requires
        count_true(s) >= 1,
    ensures
        0 <= first_true_from(s, 0) < s.len(),
        s[first_true_from(s, 0)],
    decreases s.len(),
{
    lemma_first_true_from(s, 0);
    if first_true_from(s, 0) == s.len() {
        lemma_count_true_all_false(s);
    }
}

/// The digit forced on a well-formed naked single is one of 1 through 9.
pub proof fn lemma_forced_value_range(c: CellModel)
    requires
        cell_model_wf(c),
        is_naked(c),
    ensures
        1 <= forced_value(c) <= 9,
        c.opts[forced_value(c)],
{
    lemma_first_true_exists(c.opts);
    lemma_first_true_from(c.opts, 0);
}

/// Writing an assigned cell over an unassigned one lowers the number of
/// unassigned cells by one.
pub proof fn lemma_unassigned_update_assigned(g: GridModel, p: int, c: CellModel)
    requires
        0 <= p < g.len(),
        g[p].value is None,
        c.value is Some,
    ensures
        unassigned_count(g.update(p, c)) == unassigned_count(g) - 1,
    decreases g.len(),
{
    let t = g.update(p, c);
    if p == g.len() - 1 {
        assert(t.drop_last() =~= g.drop_last());
    } else {
        assert(t.drop_last() =~= g.drop_last().update(p, c));
        lemma_unassigned_update_assigned(g.drop_last(), p, c);
    }
}

/// Grids with the same assignments cell for cell have the same number of
/// unassigned cells.
pub proof fn lemma_unassigned_same_values(g1: GridModel, g2: GridModel)
    requires
        g1.len() == g2.len(),
        forall|i: int| 0 <= i < g1.len() ==> (#[trigger] g1[i]).value == g2[i].value,
    ensures
        unassigned_count(g1) == unassigned_count(g2),
    decreases g1.len(),
{
    if g1.len() > 0 {
        lemma_unassigned_same_values(g1.drop_last(), g2.drop_last());
    }
}

/// There are never more unassigned cells than cells.
pub proof fn lemma_unassigned_le_len(g: GridModel)
    ensures
        unassigned_count(g) <= g.len(),
    decreases g.len(),
{
    if g.len() > 0 {
        lemma_unassigned_le_len(g.drop_last());
    }
}

/// A grid of unassigned cells has as many unassigned cells as cells.
pub proof fn lemma_unassigned_all_none(g: GridModel)
    requires
        forall|i: int| 0 <= i < g.len() ==> (#[trigger] g[i]).value is None,
    ensures
        unassigned_count(g) == g.len(),
    decreases g.len(),
{
    if g.len() > 0 {
        lemma_unassigned_all_none(g.drop_last());
    }
}

/// An unassigned cell witnesses a positive unassigned count.
pub proof fn lemma_unassigned_positive(g: GridModel, p: int)
    requires
        0 <= p < g.len(),
        g[p].value is None,
    ensures
        unassigned_count(g) >= 1,
    decreases g.len(),
{
    if p < g.len() - 1 {
        lemma_unassigned_positive(g.drop_last(), p);
    }
}

/// Withdrawing a candidate from the peers changes no assignment and so no
/// unassigned count.
pub proof fn lemma_eliminate_peers_values(g: GridModel, p: int, v: int)
    ensures
        eliminate_peers(g, p, v).len() == g.len(),
        forall|i: int|
            0 <= i < g.len() ==> (#[trigger] eliminate_peers(g, p, v)[i]).value == g[i].value,
        unassigned_count(eliminate_peers(g, p, v)) == unassigned_count(g),
{
    lemma_unassigned_same_values(g, eliminate_peers(g, p, v));
}

/// Placing a digit on an unassigned cell lowers the unassigned count by one.
pub proof fn lemma_place_value_unassigned(g: GridModel, p: int, v: usize)
    requires
        0 <= p < g.len(),
        g[p].value is None,
    ensures
        place_value(g, p, v).len() == g.len(),
        unassigned_count(place_value(g, p, v)) == unassigned_count(g) - 1,
{
    lemma_unassigned_update_assigned(g, p, assigned_cell(v));
    lemma_eliminate_peers_values(g.update(p, assigned_cell(v)), p, v as int);
}

/// What the naked-single search returns: the lowest naked single, or 81 when
/// there is none.
pub proof fn lemma_first_naked_props(g: GridModel, i: int)
    requires
        0 <= i <= 81,
    ensures
        i <= first_naked_from(g, i) <= 81,
        first_naked_from(g, i) < 81 ==> is_naked(g[first_naked_from(g, i)]),
        forall|j: int| i <= j < first_naked_from(g, i) ==> !is_naked(g[j]),
    decreases 81 - i,
{
    if i < 81 && !is_naked(g[i]) {
        lemma_first_naked_props(g, i + 1);
    }
}

/// The cascade of naked singles: repeatedly place the lowest naked single's
/// forced digit until no cell is down to one candidate. Returns the final
/// grid and the number of cells assigned on the way.
pub open spec fn propagate(g: GridModel) -> (GridModel, nat)
    decreases unassigned_count(g),
    via propagate_decreases
{
    if g.len() == 81 && first_naked(g) < 81 {
        let p = first_naked(g);
        let v = forced_value(g[p]);
        let r = propagate(place_value(g, p, v as usize));
        (r.0, (r.1 + 1) as nat)
    } else {
        (g, 0nat)
    }
}

#[via_fn]
proof fn propagate_decreases(g: GridModel) {
    if g.len() == 81 && first_naked(g) < 81 {
        let p = first_naked(g);
        lemma_first_naked_props(g, 0);
        lemma_place_value_unassigned(g, p, forced_value(g[p]) as usize);
    }
}

/// The cascade assigns exactly as many cells as the unassigned count drops
/// by, and it stops only when no naked single is left.
pub proof fn lemma_propagate_count(g: GridModel)
    ensures
        propagate(g).0.len() == g.len(),
        unassigned_count(g) == propagate(g).1 + unassigned_count(propagate(g).0),
        g.len() == 81 ==> first_naked(propagate(g).0) == 81,
    decreases unassigned_count(g),
{
    lemma_first_naked_props(g, 0);
    if g.len() == 81 && first_naked(g) < 81 {
        let p = first_naked(g);
        let v = forced_value(g[p]);
        lemma_place_value_unassigned(g, p, v as usize);
        lemma_propagate_count(place_value(g, p, v as usize));
    }
}

/// Placing a digit preserves well-formedness, only withdraws candidates, and
/// assigns only the placed cell.
pub proof fn lemma_place_value_preserves(g: GridModel, p: int, v: usize)
    requires
        grid_wf(g),
        0 <= p < 81,
        1 <= v <= 9,
    ensures
        grid_wf(place_value(g, p, v)),
        forall|i: int, w: int|
            0 <= i < 81 && 0 <= w < 10 && #[trigger] place_value(g, p, v)[i].opts[w] ==> g[i].opts[w],
        forall|i: int|
            0 <= i < 81 && i != p ==> (#[trigger] place_value(g, p, v)[i]).value == g[i].value,
        place_value(g, p, v)[p].value == Some(v),
        forall|q: int| 0 <= q < 81 && sees(q, p) ==> !(#[trigger] place_value(g, p, v)[q]).opts[v as int],
        forall|w: int| 0 <= w < 10 ==> !(#[trigger] place_value(g, p, v)[p].opts[w]),
{
    let t = place_value(g, p, v);
    let u = g.update(p, assigned_cell(v));
    lemma_count_true_all_false(assigned_cell(v).opts);
    assert forall|i: int| 0 <= i < 81 implies cell_model_wf(#[trigger] t[i]) by {
        if sees(i, p) {
            let c = u[i];
            if 0 <= v < c.opts.len() && c.opts[v as int] {
                lemma_count_true_update_false(c.opts, v as int);
            }
        }
    }
    assert forall|q: int| 0 <= q < 81 && sees(q, p) implies !(#[trigger] t[q]).opts[v as int] by {
        let c = u[q];
        if c.opts[v as int] {
            assert(t[q].opts == c.opts.update(v as int, false));
        }
    }
}

/// The cascade preserves well-formedness, never restores a candidate, and
/// never changes an assigned cell's digit.
pub proof fn lemma_propagate_preserves(g: GridModel)
    requires
        grid_wf(g),
    ensures
        grid_wf(propagate(g).0),
        forall|i: int, w: int|
            0 <= i < 81 && 0 <= w < 10 && #[trigger] propagate(g).0[i].opts[w] ==> g[i].opts[w],
        forall|i: int|
            0 <= i < 81 && (#[trigger] g[i]).value is Some ==> propagate(g).0[i].value == g[i].value,
    decreases unassigned_count(g),
{
    if g.len() == 81 && first_naked(g) < 81 {
        let p = first_naked(g);
        let v = forced_value(g[p]);
        lemma_first_naked_props(g, 0);
        lemma_forced_value_range(g[p]);
        lemma_place_value_unassigned(g, p, v as usize);
        lemma_place_value_preserves(g, p, v as usize);
        lemma_propagate_preserves(place_value(g, p, v as usize));
    }
}

/// Position of member `j` of group `grp` of the given kind (0 rows,
/// 1 columns, 2 squares). Members are listed in ascending position.
pub open spec fn member_pos(kind: int, grp: int, j: int) -> int {
    if kind == 0 {
        grp * 9 + j
    } else if kind == 1 {
        j * 9 + grp
    } else {
        (grp / 3) * 27 + (grp % 3) * 3 + (j / 3) * 9 + (j % 3)
    }
}

/// An unassigned cell that still lists digit `v` as a candidate.
pub open spec fn offers(c: CellModel, v: int) -> bool {
    c.value is None && 0 <= v < c.opts.len() && c.opts[v]
}

/// How many of the first `j` members of a group offer digit `v`.
pub open spec fn holders_prefix(g: GridModel, kind: int, grp: int, v: int, j: int) -> nat
    decreases j,
{
    if j <= 0 {
        0
    } else {
        holders_prefix(g, kind, grp, v, j - 1) + if offers(
            g[member_pos(kind, grp, j - 1)],
            v,
        ) {
            1nat
        } else {
            0nat
        }
    }
}

/// The first of the first `j` members of a group to offer digit `v`;
/// 9 when none does.
pub open spec fn first_holder_prefix(g: GridModel, kind: int, grp: int, v: int, j: int) -> int
    decreases j,
{
    if j <= 0 {
        9
    } else if first_holder_prefix(g, kind, grp, v, j - 1) < 9 {
        first_holder_prefix(g, kind, grp, v, j - 1)
    } else if offers(g[member_pos(kind, grp, j - 1)], v) {
        j - 1
    } else {
        9
    }
}

/// The lowest digit at or above `v` offered by exactly one member of the
/// group; 10 when none is.
pub open spec fn group_single_digit_from(g: GridModel, kind: int, grp: int, v: int) -> int
    decreases 10 - v,
{
    if v < 1 || v >= 10 {
        10
    } else if holders_prefix(g, kind, grp, v, 9) == 1 {
        v
    } else {
        group_single_digit_from(g, kind, grp, v + 1)
    }
}

/// The hidden single of one group: the lowest digit offered by exactly one
/// member, paired with that member's position.
pub open spec fn group_single(g: GridModel, kind: int, grp: int) -> Option<(int, int)> {
    let v = group_single_digit_from(g, kind, grp, 1);
    if v == 10 {
        None
    } else {
        Some((member_pos(kind, grp, first_holder_prefix(g, kind, grp, v, 9)), v))
    }
}

/// The first hidden single among the groups of one kind, scanning groups
/// `grp` and upward.
pub open spec fn kind_single_from(g: GridModel, kind: int, grp: int) -> Option<(int, int)>
    decreases 9 - grp,
{
    if grp < 0 || grp >= 9 {
        None
    } else if group_single(g, kind, grp) is Some {
        group_single(g, kind, grp)
    } else {
        kind_single_from(g, kind, grp + 1)
    }
}

/// The first hidden single of the grid: rows first, then columns, then
/// squares, each kind scanned group 0 upward.
pub open spec fn hidden_single(g: GridModel) -> Option<(int, int)> {
    if kind_single_from(g, 0, 0) is Some {
        kind_single_from(g, 0, 0)
    } else if kind_single_from(g, 1, 0) is Some {
        kind_single_from(g, 1, 0)
    } else {
        kind_single_from(g, 2, 0)
    }
}

/// One accepted assignment: place the digit, withdraw it from the peers,
/// then run the cascade of naked singles. Returns the final grid and the
/// total number of cells assigned, the placed one included.
pub open spec fn assign_outcome(g: GridModel, p: int, v: usize) -> (GridModel, nat) {
    let r = propagate(place_value(g, p, v));
    (r.0, (r.1 + 1) as nat)
}

/// The whole solve run: assign the first hidden single and repeat until no
/// group yields one. Returns the final grid and the number of cells
/// assigned across the run.
pub open spec fn solve_outcome(g: GridModel) -> (GridModel, nat)
    decreases unassigned_count(g),
    via solve_outcome_decreases
{
    if g.len() == 81 && hidden_single(g) is Some {
        let pv = hidden_single(g)->Some_0;
        let r = assign_outcome(g, pv.0, pv.1 as usize);
        let r2 = solve_outcome(r.0);
        (r2.0, (r.1 + r2.1) as nat)
    } else {
        (g, 0nat)
    }
}

#[via_fn]
proof fn solve_outcome_decreases(g: GridModel) {
    if g.len() == 81 && hidden_single(g) is Some {
        let pv = hidden_single(g)->Some_0;
        lemma_hidden_single_offers(g);
        lemma_place_value_unassigned(g, pv.0, pv.1 as usize);
        lemma_propagate_count(place_value(g, pv.0, pv.1 as usize));
    }
}

/// Each member position of each group lies on the grid.
pub proof fn lemma_member_pos_range(kind: int, grp: int, j: int)
    requires
        0 <= kind < 3,
        0 <= grp < 9,
        0 <= j < 9,
    ensures
        0 <= member_pos(kind, grp, j) < 81,
{
}

/// A group with at least one holder has a first holder, and it offers the
/// digit.
pub proof fn lemma_first_holder(g: GridModel, kind: int, grp: int, v: int, j: int)
    requires
        0 <= j <= 9,
    ensures
        (holders_prefix(g, kind, grp, v, j) >= 1) <==> (first_holder_prefix(g, kind, grp, v, j)
            < 9),
        first_holder_prefix(g, kind, grp, v, j) < 9 ==> 0 <= first_holder_prefix(
            g,
            kind,
            grp,
            v,
            j,
        ) < j && offers(g[member_pos(kind, grp, first_holder_prefix(g, kind, grp, v, j))], v),
    decreases j,
{
    if j > 0 {
        lemma_first_holder(g, kind, grp, v, j - 1);
    }
}

/// The digit scan returns a digit in range whose group count is one.
pub proof fn lemma_group_single_digit(g: GridModel, kind: int, grp: int, v: int)
    requires
        1 <= v <= 10,
    ensures
        v <= group_single_digit_from(g, kind, grp, v) <= 10,
        group_single_digit_from(g, kind, grp, v) < 10 ==> holders_prefix(
            g,
            kind,
            grp,
            group_single_digit_from(g, kind, grp, v),
            9,
        ) == 1,
    decreases 10 - v,
{
    if v < 10 && holders_prefix(g, kind, grp, v, 9) != 1 {
        lemma_group_single_digit(g, kind, grp, v + 1);
    }
}

/// What a hidden single promises: an on-grid unassigned cell that still
/// offers a digit 1 through 9.
pub proof fn lemma_kind_single_offers(g: GridModel, kind: int, grp: int)
    requires
        0 <= kind < 3,
        0 <= grp <= 9,
        kind_single_from(g, kind, grp) is Some,
    ensures
        ({
            let (p, v) = kind_single_from(g, kind, grp)->Some_0;
            &&& 0 <= p < 81
            &&& 1 <= v <= 9
            &&& offers(g[p], v)
        }),
    decreases 9 - grp,
{
    if grp < 9 {
        if group_single(g, kind, grp) is Some {
            let v = group_single_digit_from(g, kind, grp, 1);
            lemma_group_single_digit(g, kind, grp, 1);
            lemma_first_holder(g, kind, grp, v, 9);
            lemma_member_pos_range(kind, grp, first_holder_prefix(g, kind, grp, v, 9));
        } else {
            lemma_kind_single_offers(g, kind, grp + 1);
        }
    }
}

/// See `lemma_kind_single_offers`, for the grid-wide scan.
pub proof fn lemma_hidden_single_offers(g: GridModel)
    requires
        hidden_single(g) is Some,
    ensures
        ({
            let (p, v) = hidden_single(g)->Some_0;
            &&& 0 <= p < 81
            &&& 1 <= v <= 9
            &&& offers(g[p], v)
            &&& g[p].value is None
            &&& g[p].opts[v]
        }),
{
    if kind_single_from(g, 0, 0) is Some {
        lemma_kind_single_offers(g, 0, 0);
    } else if kind_single_from(g, 1, 0) is Some {
        lemma_kind_single_offers(g, 1, 0);
    } else {
        lemma_kind_single_offers(g, 2, 0);
    }
}

/// No well-formed cell offers digit 0, so no group has holders for it.
pub proof fn lemma_holders_digit_zero(g: GridModel, kind: int, grp: int, j: int)
    requires
        grid_wf(g),
        0 <= kind < 3,
        0 <= grp < 9,
        0 <= j <= 9,
    ensures
        holders_prefix(g, kind, grp, 0, j) == 0,
    decreases j,
{
    if j > 0 {
        lemma_holders_digit_zero(g, kind, grp, j - 1);
        lemma_member_pos_range(kind, grp, j - 1);
    }
}

/// A flag sequence that records, per digit, whether its group count is one
/// makes the first-true search agree with the digit scan.
pub proof fn lemma_digit_alignment(g: GridModel, kind: int, grp: int, opt: Seq<bool>, v: int)
    requires
        opt.len() == 10,
        1 <= v <= 10,
        forall|k: int| 1 <= k < 10 ==> opt[k] == (holders_prefix(g, kind, grp, k, 9) == 1),
    ensures
        first_true_from(opt, v) == group_single_digit_from(g, kind, grp, v),
    decreases 10 - v,
{
    if v < 10 && !opt[v] {
        lemma_digit_alignment(g, kind, grp, opt, v + 1);
    }
}

/// A cell with no digit yet and every digit 1 through 9 still possible.
pub open spec fn fresh_cell() -> CellModel {
    CellModel { value: None, opts: Seq::new(10, |k: int| 1 <= k <= 9) }
}

/// The grid as constructed: 81 fresh cells.
pub open spec fn fresh_grid() -> GridModel {
    Seq::new(81, |i: int| fresh_cell())
}

/// Law: withdrawing the same candidate twice has exactly the effect of
/// withdrawing it once.
pub proof fn lemma_eliminate_idempotent(c: CellModel, v: int)
    ensures
        cell_without(cell_without(c, v), v) == cell_without(c, v),
{
}

/// Law: after an accepted assignment of digit `v` at position `p`, no other
/// cell sharing `p`'s row, column or square lists `v` as a candidate,
/// however far the cascade ran.
pub proof fn lemma_group_exclusivity(g: GridModel, p: int, v: usize)
    requires
        grid_wf(g),
        0 <= p < 81,
        1 <= v <= 9,
    ensures
        forall|q: int|
            0 <= q < 81 && sees(q, p) ==> !(#[trigger] assign_outcome(g, p, v).0[q]).opts[v as int],
{
    lemma_place_value_preserves(g, p, v);
    lemma_propagate_preserves(place_value(g, p, v));
}

/// Law: in a well-formed grid where no unassigned cell has run out of
/// candidates, a cell's remaining count is zero exactly when the cell is
/// assigned.
pub proof fn lemma_no_candidates_iff_assigned(g: GridModel, i: int)
    requires
        grid_wf(g),
        no_dead_cell(g),
        0 <= i < 81,
    ensures
        (count_true(g[i].opts) == 0) <==> (g[i].value is Some),
{
}

} // verus!
