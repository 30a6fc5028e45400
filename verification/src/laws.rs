//! What holds of every board, whatever the grid and the input.

use crate::model::{
    lemma_index_to_xy, lemma_step_in_grid, lemma_xy_to_index, BoardView, Phase,
};
use crate::grid::{
    all_matches, cell_index, cleared, falls, gap_below, lemma_occupied_none,
    lemma_occupied_update, lemma_settled_iff_gravity_fixed, lemma_settled_no_gap, matches_at,
    matches_from, occupied,
};
use vstd::prelude::*;

verus! {

/// A board is at rest exactly when a gravity step leaves it as it is, the
/// grid and the falling column alike.
pub proof fn lemma_static_iff_drop_changes_nothing(v: BoardView)
    requires
        v.wf(),
    ensures
        v.is_static() <==> v.after_drop() == v,
{
    lemma_settled_iff_gravity_fixed(v.cells, v.width);
    if v.is_static() && v.active is Some {
        let bottom = v.active->0 + 2 * v.width;
        if v.cells[bottom] != 0 {
            lemma_settled_no_gap(v.cells, v.width, bottom);
        }
    }
}

/// A step sideways is all or nothing. Where one of the three cells it leads
/// to is occupied, or the wall is in the way, the board stays as it is. Else
/// all three gems are one column over, the cells they left are empty, every
/// other cell is as it was, and no gem is made or lost.
pub proof fn lemma_shift_all_or_nothing(v: BoardView, left: bool, right: bool)
    requires
        v.wf(),
        v.active is Some,
    ensures
        ({
            let dx = v.shift_of(left, right);
            let t = v.active->0;
            let w = v.width;
            let after = v.after_input(left, right, false);
            &&& dx == 0 || v.blocked(dx) ==> after == v
            &&& dx != 0 && !v.blocked(dx) ==> {
                &&& after.wf()
                &&& after.active == Some(t + dx)
                &&& after.cells[t + dx] == v.cells[t]
                &&& after.cells[t + w + dx] == v.cells[t + w]
                &&& after.cells[t + 2 * w + dx] == v.cells[t + 2 * w]
                &&& after.cells[t] == 0
                &&& after.cells[t + w] == 0
                &&& after.cells[t + 2 * w] == 0
                &&& forall|j: int|
                    0 <= j < v.cells.len() && !v.in_column(t, j) && !v.in_column(t + dx, j)
                        ==> after.cells[j] == v.cells[j]
                &&& occupied(after.cells) == occupied(v.cells)
            }
        }),
{
    let dx = v.shift_of(left, right);
    let t = v.active->0;
    let w = v.width;
    if dx != 0 && !v.blocked(dx) {
        lemma_step_in_grid(w, v.height, t, dx);
        let c0 = v.cells;
        let c1 = c0.update(t + dx, c0[t]);
        let c2 = c1.update(t, 0);
        let c3 = c2.update(t + w + dx, c0[t + w]);
        let c4 = c3.update(t + w, 0);
        let c5 = c4.update(t + 2 * w + dx, c0[t + 2 * w]);
        let c6 = c5.update(t + 2 * w, 0);
        lemma_occupied_update(c0, t + dx, c0[t], 0);
        lemma_occupied_update(c1, t, 0, 0);
        lemma_occupied_update(c2, t + w + dx, c0[t + w], 0);
        lemma_occupied_update(c3, t + w, 0, 0);
        lemma_occupied_update(c4, t + 2 * w + dx, c0[t + 2 * w], 0);
        lemma_occupied_update(c5, t + 2 * w, 0, 0);
        assert(v.shifted(dx).cells =~= c6);
    }
}

/// A turn is always taken when a column is falling, whatever lies around it:
/// after the step sideways, taken or not, the top gem is in the middle, the
/// middle one at the bottom, the bottom one at the top, and every other cell
/// is as the step left it.
pub proof fn lemma_rotation_cycles(v: BoardView, left: bool, right: bool)
    requires
        v.wf(),
        v.active is Some,
    ensures
        ({
            let moved = v.after_input(left, right, false);
            let after = v.after_input(left, right, true);
            let t = moved.active->0;
            let w = v.width;
            &&& moved.active is Some
            &&& after.active == moved.active
            &&& after.cells[t] == moved.cells[t + 2 * w]
            &&& after.cells[t + w] == moved.cells[t]
            &&& after.cells[t + 2 * w] == moved.cells[t + w]
            &&& forall|j: int|
                0 <= j < v.cells.len() && !v.in_column(t, j) ==> after.cells[j] == moved.cells[j]
            &&& occupied(after.cells) == occupied(moved.cells)
        }),
{
    lemma_shift_all_or_nothing(v, left, right);
    let moved = v.after_input(left, right, false);
    let t = moved.active->0;
    let w = v.width;
    let c0 = moved.cells;
    let c1 = c0.update(t, c0[t + 2 * w]);
    let c2 = c1.update(t + w, c0[t]);
    let c3 = c2.update(t + 2 * w, c0[t + w]);
    lemma_occupied_update(c0, t, c0[t + 2 * w], 0);
    lemma_occupied_update(c1, t + w, c0[t], 0);
    lemma_occupied_update(c2, t + 2 * w, c0[t + w], 0);
}

/// Three turns bring every gem of the falling column back to its place.
pub proof fn lemma_three_turns(v: BoardView)
    requires
        v.wf(),
    ensures
        v.rotated().rotated().rotated() == v,
{
    assert(v.rotated().rotated().rotated().cells =~= v.cells);
}

/// Input leaves a board without a falling column as it is.
pub proof fn lemma_input_needs_column(v: BoardView, left: bool, right: bool, rotate: bool)
    requires
        v.active is None,
    ensures
        v.after_input(left, right, rotate) == v,
{
}

/// Once the game is over it stays over: a tick changes nothing, clears
/// nothing, and no column appears.
pub proof fn lemma_game_over_is_final(v: BoardView, upcoming: (i16, i16, i16))
    requires
        v.wf(),
        v.game_over(),
    ensures
        v.after_tick(upcoming) == v,
        v.tick_cleared() == 0,
        v.after_tick(upcoming).game_over(),
        v.after_tick(upcoming).active is None,
{
}

/// What a tick does in each phase. While a column is falling it moves with
/// gravity until the grid is at rest, and is then let go. Loose gems settle
/// by gravity steps with no column falling. Runs of three are cleared from a
/// grid at rest, and nothing else is. From a grid at rest without runs a new
/// column starts to fall. Gems are cleared in no phase but the matching one.
pub proof fn lemma_tick_by_phase(v: BoardView, upcoming: (i16, i16, i16))
    requires
        v.wf(),
    ensures
        ({
            let after = v.after_tick(upcoming);
            match v.phase() {
                Phase::Falling => v.tick_cleared() == 0 && if v.is_static() {
                    after.active is None && after.cells == v.cells
                } else {
                    after == v.after_drop() && after.phase() == Phase::Falling
                },
                Phase::Resolving => v.tick_cleared() == 0 && after == v.after_drop() && after.active
                    is None,
                Phase::Matching => after == v.after_clear(v.matches()) && after.active is None
                    && v.tick_cleared() == occupied(v.cells) - occupied(after.cells),
                Phase::Spawning => v.tick_cleared() == 0 && after == v.spawned(upcoming)
                    && after.phase() == Phase::Falling,
                Phase::GameOver => v.tick_cleared() == 0 && after == v,
            }
        }),
{
}

/// The falling column moves with its gems. Where its three cells hold gems
/// and the lowest of them falls in a gravity step, all three are found one
/// row lower and the column with them; where the lowest does not fall, the
/// three gems and the column stay where they are.
pub proof fn lemma_column_falls_with_its_gems(v: BoardView)
    requires
        v.wf(),
        v.active is Some,
        v.cells[v.active->0] != 0,
        v.cells[v.active->0 + v.width] != 0,
        v.cells[v.active->0 + 2 * v.width] != 0,
    ensures
        ({
            let t = v.active->0;
            let w = v.width;
            let after = v.after_drop();
            let d = if falls(v.cells, w, t + 2 * w) {
                w
            } else {
                0
            };
            &&& after.active == Some(t + d)
            &&& after.cells[t + d] == v.cells[t]
            &&& after.cells[t + w + d] == v.cells[t + w]
            &&& after.cells[t + 2 * w + d] == v.cells[t + 2 * w]
        }),
{
    let t = v.active->0;
    let w = v.width;
    assert(gap_below(v.cells, w, t + w) == gap_below(v.cells, w, t + 2 * w));
    assert(gap_below(v.cells, w, t) == gap_below(v.cells, w, t + w));
    if falls(v.cells, w, t + 2 * w) {
        assert(t + 3 * w < v.cells.len());
    } else if t >= w && falls(v.cells, w, t - w) {
        assert(gap_below(v.cells, w, t - w));
    }
}

/// Clearing the same cells once more changes nothing and finds no gem.
pub proof fn lemma_clearing_twice(cells: Seq<i16>, hits: Seq<usize>)
    ensures
        cleared(cleared(cells, hits), hits) == cleared(cells, hits),
        occupied(cleared(cells, hits)) - occupied(cleared(cleared(cells, hits), hits)) == 0,
{
    assert(cleared(cleared(cells, hits), hits) =~= cleared(cells, hits));
}

/// The grid holds three gems of one colour side by side in a row, in the
/// cells `i - 1`, `i` and `i + 1`, and no other gem.
pub open spec fn lone_row_run(cells: Seq<i16>, w: int, h: int, i: int) -> bool {
    &&& w > 0
    &&& cells.len() == w * h
    &&& 0 <= i < cells.len()
    &&& 0 < i % w < w - 1
    &&& cells[i] > 0
    &&& cells[i - 1] == cells[i]
    &&& cells[i + 1] == cells[i]
    &&& forall|j: int|
        0 <= j < cells.len() && j != i - 1 && j != i && j != i + 1 ==> #[trigger] cells[j] == 0
}

/// The cells around cell `j`, by their indices.
proof fn lemma_neighbours(w: int, h: int, j: int)
    requires
        w > 0,
        0 <= j < w * h,
    ensures
        ({
            let x = j % w;
            let y = j / w;
            &&& 0 <= x < w
            &&& 0 <= y < h
            &&& cell_index(w, x - 1, y) == j - 1
            &&& cell_index(w, x + 1, y) == j + 1
            &&& cell_index(w, x, y - 1) == j - w
            &&& cell_index(w, x, y + 1) == j + w
            &&& cell_index(w, x - 1, y - 1) == j - w - 1
            &&& cell_index(w, x + 1, y + 1) == j + w + 1
            &&& cell_index(w, x - 1, y + 1) == j + w - 1
            &&& cell_index(w, x + 1, y - 1) == j - w + 1
            &&& 0 < x ==> 0 <= j - 1
            &&& x < w - 1 ==> j + 1 < w * h
            &&& 0 < y ==> 0 <= j - w
            &&& y < h - 1 ==> j + w < w * h
            &&& 0 < x && 0 < y ==> 0 <= j - w - 1
            &&& x < w - 1 && 0 < y ==> 0 <= j - w + 1
            &&& 0 < x && y < h - 1 ==> j + w - 1 < w * h
        }),
{
    let x = j % w;
    let y = j / w;
    lemma_index_to_xy(w, h, j);
    assert((y + 1) * w == y * w + w && (y - 1) * w == y * w - w) by (nonlinear_arith);
    if x < w - 1 {
        lemma_xy_to_index(w, h, x + 1, y);
    }
    if 0 < y {
        lemma_xy_to_index(w, h, x, y - 1);
        if 0 < x {
            lemma_xy_to_index(w, h, x - 1, y - 1);
        }
    }
    if y < h - 1 {
        lemma_xy_to_index(w, h, x, y + 1);
    }
}

/// In a grid with a lone run in a row, the run is found at its middle cell
/// and nothing is found at any other cell.
proof fn lemma_lone_run_at(cells: Seq<i16>, w: int, h: int, i: int, j: int)
    requires
        lone_row_run(cells, w, h, i),
        0 <= j < cells.len(),
    ensures
        matches_at(cells, w, h, j) == if j == i {
            seq![i as usize, (i - 1) as usize, (i + 1) as usize]
        } else {
            Seq::<usize>::empty()
        },
{
    lemma_neighbours(w, h, j);
    lemma_neighbours(w, h, i);
    let x = j % w;
    let y = j / w;
    if cells[j] > 0 {
        assert(j == i - 1 || j == i || j == i + 1);
        if 0 < x < w - 1 && j != i {
            assert(cells[j - 1] == 0 || cells[j + 1] == 0);
        }
        if 0 < y < h - 1 {
            assert(cells[j - w] == 0);
            if 0 < x < w - 1 {
                assert(cells[j - w - 1] == 0);
                assert(cells[j + w - 1] == 0 || cells[j - w + 1] == 0);
            }
        }
        assert(matches_at(cells, w, h, j) =~= if j == i {
            seq![i as usize, (i - 1) as usize, (i + 1) as usize]
        } else {
            Seq::<usize>::empty()
        });
    }
}

/// In a grid with a lone run in a row, a scan finds the run once it has come
/// to its middle cell.
proof fn lemma_lone_run_scan(cells: Seq<i16>, w: int, h: int, i: int, from: int)
    requires
        lone_row_run(cells, w, h, i),
        0 <= from,
    ensures
        matches_from(cells, w, h, from) == if from <= i {
            seq![i as usize, (i - 1) as usize, (i + 1) as usize]
        } else {
            Seq::<usize>::empty()
        },
    decreases cells.len() - from,
{
    if from < cells.len() {
        lemma_lone_run_scan(cells, w, h, i, from + 1);
        lemma_lone_run_at(cells, w, h, i, from);
        assert(matches_from(cells, w, h, from) =~= if from <= i {
            seq![i as usize, (i - 1) as usize, (i + 1) as usize]
        } else {
            Seq::<usize>::empty()
        });
    }
}

/// Three gems of one colour side by side in a row of an otherwise empty grid
/// are found as one run, which names the middle cell, the left one and the
/// right one. Clearing that run empties the grid and counts three gems.
pub proof fn lemma_lone_row_run(cells: Seq<i16>, w: int, h: int, i: int)
    requires
        lone_row_run(cells, w, h, i),
        cells.len() <= usize::MAX,
    ensures
        all_matches(cells, w, h) == seq![i as usize, (i - 1) as usize, (i + 1) as usize],
        cleared(cells, all_matches(cells, w, h)) == Seq::new(cells.len(), |j: int| 0i16),
        occupied(cells) - occupied(cleared(cells, all_matches(cells, w, h))) == 3,
{
    lemma_lone_run_scan(cells, w, h, i, 0);
    lemma_neighbours(w, h, i);
    let hits = all_matches(cells, w, h);
    let none = Seq::new(cells.len(), |j: int| 0i16);
    assert(hits[0] == i && hits[1] == i - 1 && hits[2] == i + 1);
    assert(cleared(cells, hits) =~= none);
    lemma_occupied_none(none, 0);
    let one = none.update(i - 1, cells[i]);
    let two = one.update(i, cells[i]);
    let three = two.update(i + 1, cells[i]);
    lemma_occupied_update(none, i - 1, cells[i], 0);
    lemma_occupied_update(one, i, cells[i], 0);
    lemma_occupied_update(two, i + 1, cells[i], 0);
    assert(three =~= cells);
}

} // verus!
