//! The board as mathematics: what it holds, when it is well formed, and what
//! gravity, input and a tick make of it.

use crate::grid::{after_gravity, all_matches, cell_index, cleared, falls, is_settled, occupied};
use crate::spawn::{are_gems, GEM_COLORS};
use vstd::prelude::*;

verus! {

/// Number of rows at the top that are not shown, unless the board is made with
/// another number.
pub const DEFAULT_HIDDEN_ROWS: i16 = 2;

/// The column in which a new column of gems appears.
pub const SPAWN_COLUMN: i16 = 2;

/// Why a board cannot be made.
#[derive(Clone, Copy, Debug, PartialEq, Eq, Structural)]
pub enum ConfigError {
    /// The width is not positive, or too small to hold the column in which gems appear.
    Width,
    /// The height is not positive, or too small to hold a column of three gems.
    Height,
    /// The number of hidden rows is not positive, or not less than the height.
    HiddenRows,
    /// The grid has more cells than an index can count.
    TooManyCells,
    /// The cells given are not as many as the grid has, or one holds neither
    /// a gem nor nothing.
    Cells,
    /// One of the colours given for the column to come is not a gem colour.
    NextGems,
}

/// What the next tick will do.
#[derive(Clone, Copy, Debug, PartialEq, Eq, Structural)]
pub enum Phase {
    /// A column is falling: the tick moves it with gravity, or lets it go
    /// where it has come to rest.
    Falling,
    /// No column is falling and loose gems are settling: the tick is a gravity step.
    Resolving,
    /// The grid is at rest and holds runs of three: the tick clears them.
    Matching,
    /// The grid is at rest without a run: the tick makes a new column appear.
    Spawning,
    /// The game is over: the tick does nothing.
    GameOver,
}

/// What a board is, as mathematics.
pub struct BoardView {
    /// Number of columns.
    pub width: int,
    /// Number of rows, the hidden ones included.
    pub height: int,
    /// Number of rows at the top that are not shown.
    pub hidden_rows: int,
    /// The cell values, row by row from the top.
    pub cells: Seq<i16>,
    /// Index of the top cell of the falling column, if one is falling. Its
    /// other two cells are the two beneath.
    pub active: Option<int>,
    /// The colours of the column that comes next, from the top.
    pub next_gems: Option<(i16, i16, i16)>,
}

/// The error that the sizes given for a board call for, if any.
pub open spec fn config_error(width: int, height: int, hidden_rows: int) -> Option<ConfigError> {
    if width <= SPAWN_COLUMN {
        Some(ConfigError::Width)
    } else if height < 3 {
        Some(ConfigError::Height)
    } else if hidden_rows < 1 || hidden_rows >= height {
        Some(ConfigError::HiddenRows)
    } else if width * height > i16::MAX {
        Some(ConfigError::TooManyCells)
    } else {
        None
    }
}

/// Every cell is empty or holds a gem colour.
pub open spec fn cells_valid(cells: Seq<i16>) -> bool {
    forall|i: int| 0 <= i < cells.len() ==> 0 <= #[trigger] cells[i] <= GEM_COLORS
}

/// The error that a position given for a board calls for, if any: first the
/// sizes, then the cells, then the colours to come.
pub open spec fn load_error(
    width: int,
    height: int,
    hidden_rows: int,
    cells: Seq<i16>,
    next_gems: (i16, i16, i16),
) -> Option<ConfigError> {
    if config_error(width, height, hidden_rows) is Some {
        config_error(width, height, hidden_rows)
    } else if !(cells.len() == width * height && cells_valid(cells)) {
        Some(ConfigError::Cells)
    } else if !are_gems(next_gems) {
        Some(ConfigError::NextGems)
    } else {
        None
    }
}

impl BoardView {
    /// The sizes are those of a board, the grid has that many cells, each
    /// empty or a gem, the falling column lies in the grid, and the colours to
    /// come are gems.
    pub open spec fn wf(self) -> bool {
        &&& config_error(self.width, self.height, self.hidden_rows) is None
        &&& self.cells.len() == self.width * self.height
        &&& cells_valid(self.cells)
        &&& match self.active {
            Some(t) => 0 <= t && t + 2 * self.width < self.cells.len(),
            None => true,
        }
        &&& match self.next_gems {
            Some(g) => are_gems(g),
            None => true,
        }
    }

    /// No gem has an empty cell directly beneath it.
    pub open spec fn is_static(self) -> bool {
        is_settled(self.cells, self.width)
    }

    /// The board after one gravity step: the grid as `after_gravity` gives it,
    /// and the falling column one row lower if its lowest gem fell.
    pub open spec fn after_drop(self) -> BoardView {
        BoardView {
            cells: after_gravity(self.cells, self.width),
            active: match self.active {
                Some(t) => if falls(self.cells, self.width, t + 2 * self.width) {
                    Some(t + self.width)
                } else {
                    Some(t)
                },
                None => None,
            },
            ..self
        }
    }

    /// The runs of three that a scan of the grid finds.
    pub open spec fn matches(self) -> Seq<usize> {
        all_matches(self.cells, self.width, self.height)
    }

    /// The board with the cells that `hits` names emptied.
    pub open spec fn after_clear(self, hits: Seq<usize>) -> BoardView {
        BoardView { cells: cleared(self.cells, hits), ..self }
    }

    /// The column that the falling column is in.
    pub open spec fn active_column(self) -> int {
        match self.active {
            Some(t) => t % self.width,
            None => 0,
        }
    }

    /// The step sideways that the player asks for: one column to the left
    /// where `left` is set and the falling column is not in the first column,
    /// else one to the right where `right` is set and it is not in the last,
    /// else none.
    pub open spec fn shift_of(self, left: bool, right: bool) -> int {
        if self.active is None {
            0
        } else if self.active_column() > 0 && left {
            -1
        } else if self.active_column() < self.width - 1 && right {
            1
        } else {
            0
        }
    }

    /// One of the three cells that the falling column would take, `dx` columns
    /// over, is occupied.
    pub open spec fn blocked(self, dx: int) -> bool {
        match self.active {
            Some(t) => self.cells[t + dx] != 0 || self.cells[t + self.width + dx] != 0
                || self.cells[t + 2 * self.width + dx] != 0,
            None => false,
        }
    }

    /// Cell `j` is one of the three cells of a column whose top cell is `t`.
    pub open spec fn in_column(self, t: int, j: int) -> bool {
        j == t || j == t + self.width || j == t + 2 * self.width
    }

    /// The board with the falling column and its three gems `dx` columns over.
    pub open spec fn shifted(self, dx: int) -> BoardView {
        match self.active {
            Some(t) => BoardView {
                cells: Seq::new(
                    self.cells.len(),
                    |j: int|
                        if self.in_column(t + dx, j) {
                            self.cells[j - dx]
                        } else if self.in_column(t, j) {
                            0i16
                        } else {
                            self.cells[j]
                        },
                ),
                active: Some(t + dx),
                ..self
            },
            None => self,
        }
    }

    /// The board with the three gems of the falling column turned by one
    /// place: the top one to the middle, the middle one to the bottom, the
    /// bottom one to the top.
    pub open spec fn rotated(self) -> BoardView {
        match self.active {
            Some(t) => BoardView {
                cells: self.cells.update(t, self.cells[t + 2 * self.width]).update(
                    t + self.width,
                    self.cells[t],
                ).update(t + 2 * self.width, self.cells[t + self.width]),
                ..self
            },
            None => self,
        }
    }

    /// The board after the player's input: first the step sideways, taken
    /// only if all three cells it leads to are empty, then the turn.
    pub open spec fn after_input(self, left: bool, right: bool, rotate: bool) -> BoardView {
        let dx = self.shift_of(left, right);
        let moved = if dx != 0 && !self.blocked(dx) {
            self.shifted(dx)
        } else {
            self
        };
        if rotate {
            moved.rotated()
        } else {
            moved
        }
    }

    /// The cell of column `x` in the last hidden row.
    pub open spec fn gate_cell(self, x: int) -> i16 {
        self.cells[(self.hidden_rows - 1) * self.width + x]
    }

    /// The last hidden row holds a gem, so that no new column can appear.
    pub open spec fn spawn_blocked(self) -> bool {
        exists|x: int| 0 <= x < self.width && #[trigger] self.gate_cell(x) != 0
    }

    /// The board with a new column falling from the top of the spawn column,
    /// made of the colours that were to come, and with `upcoming` as the
    /// colours to come after it. Where no colours were to come yet, the
    /// column is there without gems.
    pub open spec fn spawned(self, upcoming: (i16, i16, i16)) -> BoardView {
        BoardView {
            cells: match self.next_gems {
                Some(g) => self.cells.update(SPAWN_COLUMN as int, g.0).update(
                    SPAWN_COLUMN + self.width,
                    g.1,
                ).update(SPAWN_COLUMN + 2 * self.width, g.2),
                None => self.cells,
            },
            active: Some(SPAWN_COLUMN as int),
            next_gems: Some(upcoming),
            ..self
        }
    }

    /// What the next tick will do.
    pub open spec fn phase(self) -> Phase {
        if self.active is Some {
            Phase::Falling
        } else if !self.is_static() {
            Phase::Resolving
        } else if self.matches().len() > 0 {
            Phase::Matching
        } else if self.spawn_blocked() {
            Phase::GameOver
        } else {
            Phase::Spawning
        }
    }

    /// The game is over: the grid is at rest, no column is falling, no run of
    /// three is left, and no new column can appear.
    pub open spec fn game_over(self) -> bool {
        self.phase() == Phase::GameOver
    }

    /// The board after one tick. While the grid is not at rest, a gravity
    /// step. Once it is at rest: the falling column is let go; else the runs
    /// of three are cleared; else, unless the game is over, a new column
    /// appears.
    pub open spec fn after_tick(self, upcoming: (i16, i16, i16)) -> BoardView {
        if !self.is_static() {
            self.after_drop()
        } else if self.active is Some {
            BoardView { active: None, ..self }
        } else if self.matches().len() > 0 {
            self.after_clear(self.matches())
        } else if self.spawn_blocked() {
            self
        } else {
            self.spawned(upcoming)
        }
    }

    /// Number of gems that one tick clears.
    pub open spec fn tick_cleared(self) -> int {
        if self.is_static() && self.active is None && self.matches().len() > 0 {
            occupied(self.cells) - occupied(cleared(self.cells, self.matches()))
        } else {
            0
        }
    }
}

/// A product exceeds a bound exactly when one factor exceeds the bound
/// divided by the other.
pub proof fn lemma_product_bound(a: int, b: int, max: int)
    requires
        b > 0,
    ensures
        a > max / b <==> a * b > max,
{
    vstd::arithmetic::div_mod::lemma_fundamental_div_mod(max, b);
    vstd::arithmetic::div_mod::lemma_mod_bound(max, b);
    let q = max / b;
    let r = max % b;
    assert(a >= q + 1 ==> a * b > b * q + r) by (nonlinear_arith)
        requires
            b > 0,
            0 <= r < b,
    ;
    assert(a <= q ==> a * b <= b * q + r) by (nonlinear_arith)
        requires
            b > 0,
            0 <= r < b,
    ;
}

/// A grid of `w` columns and `h` rows has `w * h` cells, and more than the
/// falling column needs where it appears.
pub proof fn lemma_grid_size(w: int, h: int)
    requires
        w >= 1,
        h >= 3,
    ensures
        w * h >= 3 * w,
        w * (h - 1) == w * h - w,
{
    assert(w * h >= 3 * w) by (nonlinear_arith)
        requires
            w >= 1,
            h >= 3,
    ;
    assert(w * (h - 1) == w * h - w) by (nonlinear_arith);
}

/// Column and row of a cell give back its index, and lie in the grid.
pub proof fn lemma_index_to_xy(w: int, h: int, i: int)
    requires
        w > 0,
        0 <= i < w * h,
    ensures
        0 <= i % w < w,
        0 <= i / w < h,
        cell_index(w, i % w, i / w) == i,
{
    vstd::arithmetic::div_mod::lemma_fundamental_div_mod(i, w);
    vstd::arithmetic::div_mod::lemma_mod_pos_bound(i, w);
    let q = i / w;
    let r = i % w;
    assert(q * w == w * q) by (nonlinear_arith);
    assert(0 <= q < h) by (nonlinear_arith)
        requires
            w > 0,
            0 <= r < w,
            0 <= w * q + r < w * h,
    ;
}

/// The index of a cell of the grid lies in the grid, and gives back its
/// column and row.
pub proof fn lemma_xy_to_index(w: int, h: int, x: int, y: int)
    requires
        0 <= x < w,
        0 <= y < h,
    ensures
        0 <= cell_index(w, x, y) < w * h,
        cell_index(w, x, y) % w == x,
        cell_index(w, x, y) / w == y,
{
    assert(0 <= y * w + x < w * h) by (nonlinear_arith)
        requires
            0 <= x < w,
            0 <= y < h,
    ;
    vstd::arithmetic::div_mod::lemma_fundamental_div_mod_converse(y * w + x, w, y, x);
}

/// A column that may step `dx` columns sideways stays within the grid.
pub proof fn lemma_step_in_grid(w: int, h: int, t: int, dx: int)
    requires
        w > 0,
        0 <= t,
        t + 2 * w < w * h,
        dx == 1 || dx == -1,
        0 <= t % w + dx < w,
    ensures
        0 <= t + dx,
        t + 2 * w + dx < w * h,
        (t + dx) % w == t % w + dx,
{
    vstd::arithmetic::div_mod::lemma_fundamental_div_mod(t, w);
    let q = t / w;
    let r = t % w;
    assert(q >= 0 && q + 2 <= h - 1 && w * (q + 2) == w * q + 2 * w && w * (h - 1) == w * h - w && w
        * q >= 0 && w * (q + 2) <= w * (h - 1)) by (nonlinear_arith)
        requires
            w > 0,
            0 <= r < w,
            0 <= w * q + r,
            w * q + r + 2 * w < w * h,
    ;
    assert(q * w == w * q) by (nonlinear_arith);
    vstd::arithmetic::div_mod::lemma_fundamental_div_mod_converse(t + dx, w, q, r + dx);
}

/// The row that decides whether a new column can appear lies in the grid.
pub proof fn lemma_hidden_row_in_grid(w: int, h: int, hidden: int)
    requires
        w > 0,
        1 <= hidden < h,
    ensures
        0 <= (hidden - 1) * w,
        (hidden - 1) * w + w <= w * h,
{
    assert(0 <= (hidden - 1) * w && (hidden - 1) * w + w <= w * h) by (nonlinear_arith)
        requires
            w > 0,
            1 <= hidden < h,
    ;
}

} // verus!
