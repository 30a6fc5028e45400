//! The boards that play can reach, and what holds of them beyond what holds
//! of every board: the falling column is the only thing that can fall, and
//! gravity takes it down row by row with its gems.

use crate::grid::{falls, gap_below, is_settled, rests, settled_cell};
use crate::laws::{lemma_column_falls_with_its_gems, lemma_static_iff_drop_changes_nothing};
use crate::model::{lemma_grid_size, lemma_step_in_grid, BoardView, SPAWN_COLUMN};
use crate::spawn::{are_gems, GEM_COLORS};
use vstd::prelude::*;

verus! {

/// Every gem outside the column whose top cell is `t` lies on another gem or
/// on the floor.
pub open spec fn supported_outside(v: BoardView, t: int) -> bool {
    forall|i: int|
        0 <= i && i + v.width < v.cells.len() && #[trigger] v.cells[i] != 0 && !v.in_column(t, i)
            ==> v.cells[i + v.width] != 0
}

/// The three cells of the column whose top cell is `t` all hold a gem, or
/// none does.
pub open spec fn whole_column(v: BoardView, t: int) -> bool {
    (v.cells[t] != 0) == (v.cells[t + v.width] != 0) && (v.cells[t + v.width] != 0) == (v.cells[t
        + 2 * v.width] != 0)
}

/// The cell above the column whose top cell is `t` is empty.
pub open spec fn clear_above(v: BoardView, t: int) -> bool {
    t >= v.width ==> v.cells[t - v.width] == 0
}

/// A board as play makes it. Before the first colours are drawn the grid is
/// empty. While a column falls, its cells hold three gems or none, nothing
/// lies on it, and every other gem is at rest.
pub open spec fn playable(v: BoardView) -> bool {
    &&& v.wf()
    &&& v.next_gems is None ==> forall|j: int| 0 <= j < v.cells.len() ==> #[trigger] v.cells[j] == 0
    &&& match v.active {
        Some(t) => supported_outside(v, t) && whole_column(v, t) && clear_above(v, t),
        None => true,
    }
}

/// A new board is playable: an empty grid with no column falling.
pub proof fn lemma_empty_board_playable(v: BoardView)
    requires
        v.wf(),
        v.active is None,
        forall|j: int| 0 <= j < v.cells.len() ==> #[trigger] v.cells[j] == 0,
    ensures
        playable(v),
        v.is_static(),
{
}

/// A board with colours to come and no column falling is playable, whatever
/// its grid holds.
pub proof fn lemma_loaded_board_playable(v: BoardView)
    requires
        v.wf(),
        v.active is None,
        v.next_gems is Some,
    ensures
        playable(v),
{
}

/// On a playable board that is not at rest while a column falls, it is the
/// column that falls: its three cells hold gems and the lowest of them has
/// room beneath. So a gravity step takes the column one row down.
pub proof fn lemma_playable_column_falls(v: BoardView)
    requires
        playable(v),
        v.active is Some,
        !v.is_static(),
    ensures
        v.cells[v.active->0] != 0,
        v.cells[v.active->0 + v.width] != 0,
        v.cells[v.active->0 + 2 * v.width] != 0,
        falls(v.cells, v.width, v.active->0 + 2 * v.width),
        v.after_drop().active == Some(v.active->0 + v.width),
{
    let w = v.width;
    let i = choose|i: int| 0 <= i && i + w < v.cells.len() && #[trigger] v.cells[i] != 0 && v.cells[i + w] == 0;
    assert(v.in_column(v.active->0, i));
}

/// A gravity step keeps a board playable.
pub proof fn lemma_drop_keeps_playable(v: BoardView)
    requires
        playable(v),
    ensures
        playable(v.after_drop()),
{
    let w = v.width;
    let after = v.after_drop();
    lemma_static_iff_drop_changes_nothing(v);
    if !v.is_static() {
        lemma_grid_size(w, v.height);
        assert(after.cells.len() == v.cells.len());
        assert forall|j: int| 0 <= j < after.cells.len() implies 0 <= #[trigger] after.cells[j]
            <= GEM_COLORS by {
            assert(after.cells[j] == settled_cell(v.cells, w, j));
        }
        if v.next_gems is None {
            assert(is_settled(v.cells, w));
        }
        if v.active is Some {
            let t = v.active->0;
            lemma_playable_column_falls(v);
            lemma_column_falls_with_its_gems(v);
            assert(gap_below(v.cells, w, t + w));
            assert(gap_below(v.cells, w, t));
            assert(after.cells[t] == settled_cell(v.cells, w, t));
            assert forall|j: int|
                0 <= j && j + w < after.cells.len() && #[trigger] after.cells[j] != 0
                    && !after.in_column(t + w, j) implies after.cells[j + w] != 0 by {
                assert(after.cells[j] == settled_cell(v.cells, w, j));
                assert(after.cells[j + w] == settled_cell(v.cells, w, j + w));
                if falls(v.cells, w, j - w) {
                    assert(!v.in_column(t, j - w));
                    assert(v.cells[j - w] != 0);
                    assert(v.cells[j] != 0);
                    assert(falls(v.cells, w, j));
                } else {
                    assert(rests(v.cells, w, j) != 0);
                    assert(!gap_below(v.cells, w, j));
                    assert(!falls(v.cells, w, j));
                }
            }
        }
    }
}

/// A step sideways and a turn keep a board playable.
pub proof fn lemma_input_keeps_playable(v: BoardView, left: bool, right: bool, rotate: bool)
    requires
        playable(v),
    ensures
        playable(v.after_input(left, right, rotate)),
{
    if v.active is Some {
        let t = v.active->0;
        let w = v.width;
        let dx = v.shift_of(left, right);
        let moved = v.after_input(left, right, false);
        if dx != 0 && !v.blocked(dx) {
            lemma_step_in_grid(w, v.height, t, dx);
            assert(moved == v.shifted(dx));
            assert forall|j: int| 0 <= j < moved.cells.len() implies 0 <= #[trigger] moved.cells[j]
                <= GEM_COLORS by {
                if moved.in_column(t + dx, j) {
                    assert(0 <= v.cells[j - dx] <= GEM_COLORS);
                }
            }
            if t + dx >= w {
                assert(v.cells[t + dx - w] == 0) by {
                    if v.cells[t + dx - w] != 0 {
                        assert(!v.in_column(t, t + dx - w));
                    }
                }
            }
            assert forall|j: int|
                0 <= j && j + w < moved.cells.len() && #[trigger] moved.cells[j] != 0
                    && !moved.in_column(t + dx, j) implies moved.cells[j + w] != 0 by {
                assert(!v.in_column(t, j));
                assert(v.cells[j] != 0);
                assert(v.cells[j + w] != 0);
                if v.in_column(t, j + w) {
                    assert(j == t - w);
                }
            }
            assert(playable(moved));
        }
        assert(playable(moved));
        if rotate {
            let t2 = moved.active->0;
            let turned = moved.rotated();
            assert forall|j: int| 0 <= j < turned.cells.len() implies 0 <= #[trigger] turned.cells[j]
                <= GEM_COLORS by {
                assert(0 <= moved.cells[j] <= GEM_COLORS);
                assert(0 <= moved.cells[t2] <= GEM_COLORS);
                assert(0 <= moved.cells[t2 + w] <= GEM_COLORS);
                assert(0 <= moved.cells[t2 + 2 * w] <= GEM_COLORS);
            }
            assert forall|j: int|
                0 <= j && j + w < turned.cells.len() && #[trigger] turned.cells[j] != 0
                    && !turned.in_column(t2, j) implies turned.cells[j + w] != 0 by {
                assert(moved.cells[j] != 0);
                assert(moved.cells[j + w] != 0);
                if moved.in_column(t2, j + w) {
                    assert(j == t2 - w);
                }
            }
            if moved.next_gems is None {
                assert forall|j: int| 0 <= j < turned.cells.len() implies #[trigger] turned.cells[j]
                    == 0 by {
                    assert(moved.cells[j] == 0);
                    assert(moved.cells[t2] == 0);
                    assert(moved.cells[t2 + w] == 0);
                    assert(moved.cells[t2 + 2 * w] == 0);
                }
            }
        }
    }
}

/// A tick keeps a board playable.
pub proof fn lemma_tick_keeps_playable(v: BoardView, upcoming: (i16, i16, i16))
    requires
        playable(v),
        are_gems(upcoming),
    ensures
        playable(v.after_tick(upcoming)),
{
    let w = v.width;
    let after = v.after_tick(upcoming);
    if !v.is_static() {
        lemma_drop_keeps_playable(v);
    } else if v.active is Some {
    } else if v.matches().len() > 0 {
        assert forall|j: int| 0 <= j < after.cells.len() implies 0 <= #[trigger] after.cells[j]
            <= GEM_COLORS by {
            assert(0 <= v.cells[j] <= GEM_COLORS);
        }
        if v.next_gems is None {
            assert forall|j: int| 0 <= j < after.cells.len() implies #[trigger] after.cells[j]
                == 0 by {
                assert(v.cells[j] == 0);
            }
        }
    } else if !v.spawn_blocked() {
        lemma_grid_size(w, v.height);
        let t = SPAWN_COLUMN as int;
        assert forall|j: int| 0 <= j < after.cells.len() implies 0 <= #[trigger] after.cells[j]
            <= GEM_COLORS by {
            assert(0 <= v.cells[j] <= GEM_COLORS);
        }
        assert forall|j: int|
            0 <= j && j + w < after.cells.len() && #[trigger] after.cells[j] != 0 && !after.in_column(
                t,
                j,
            ) implies after.cells[j + w] != 0 by {
            assert(v.cells[j] != 0);
            assert(v.cells[j + w] != 0);
        }
        if v.next_gems is None {
            assert(v.cells[t] == 0 && v.cells[t + w] == 0 && v.cells[t + 2 * w] == 0);
        }
    }
}

} // verus!
