//! The board: the grid, the column of three gems that is falling, and the
//! colours of the column that comes next.

use crate::grid::{
    cell_index, cleared, falls, gravity_from, lemma_append_four, lemma_cleared_step,
    lemma_gravity_conserves, lemma_gravity_done, lemma_gravity_step, lemma_occupied_bound,
    lemma_occupied_update, matches_at, matches_from, occupied, run_of_three,
};
use crate::model::{
    config_error, load_error, lemma_grid_size, lemma_hidden_row_in_grid, lemma_index_to_xy,
    lemma_product_bound, lemma_step_in_grid, lemma_xy_to_index, BoardView, ConfigError, Phase, DEFAULT_HIDDEN_ROWS,
    SPAWN_COLUMN,
};
use crate::spawn::{are_gems, is_gem_colour, GEM_COLORS};
use vstd::prelude::*;

verus! {

/// What there is to show of a board.
#[derive(Debug, PartialEq, Eq)]
pub struct Snapshot {
    /// The cell values, row by row from the top.
    pub cells: Vec<i16>,
    /// The indices of the three cells of the falling column, from the top.
    pub active_cells: Option<(i16, i16, i16)>,
    /// The colours of the column that comes next, from the top.
    pub next_gems: Option<(i16, i16, i16)>,
    /// Whether the game is over.
    pub game_over: bool,
}

/// A grid of `n` empty cells.
fn empty_cells(n: usize) -> (cells: Vec<i16>)
    ensures
        cells@ == Seq::new(n as nat, |j: int| 0i16),
{
    let mut cells: Vec<i16> = Vec::new();
    let mut i: usize = 0;
    while i < n
        invariant
            i <= n,
            cells@ == Seq::new(i as nat, |j: int| 0i16),
        decreases n - i,
    {
        cells.push(0);
        i = i + 1;
        assert(cells@ =~= Seq::new(i as nat, |j: int| 0i16));
    }
    cells
}

/// The error that the sizes given for a board call for, if any.
fn check_config(width: i16, height: i16, hidden_rows: i16) -> (r: Option<ConfigError>)
    ensures
        r == config_error(width as int, height as int, hidden_rows as int),
{
    if width <= SPAWN_COLUMN {
        Some(ConfigError::Width)
    } else if height < 3 {
        Some(ConfigError::Height)
    } else if hidden_rows < 1 || hidden_rows >= height {
        Some(ConfigError::HiddenRows)
    } else {
        proof {
            lemma_product_bound(width as int, height as int, i16::MAX as int);
        }
        if width > i16::MAX / height {
            Some(ConfigError::TooManyCells)
        } else {
            None
        }
    }
}

/// The board of the game.
#[derive(Debug)]
pub struct Board {
    width: i16,
    height: i16,
    hidden_top_rows: i16,
    cells: Vec<i16>,
    next_gems: Option<(i16, i16, i16)>,
    active_top: Option<i16>,
}

impl Board {
    /// What the board is, as mathematics.
    pub closed spec fn view(&self) -> BoardView {
        BoardView {
            width: self.width as int,
            height: self.height as int,
            hidden_rows: self.hidden_top_rows as int,
            cells: self.cells@,
            active: match self.active_top {
                Some(t) => Some(t as int),
                None => None,
            },
            next_gems: self.next_gems,
        }
    }

    /// An empty board of the given size with the usual number of hidden rows.
    pub fn new(width: i16, height: i16) -> (r: Result<Board, ConfigError>)
        ensures
            match r {
                Ok(b) => config_error(width as int, height as int, DEFAULT_HIDDEN_ROWS as int) is None
                    && b@.wf() && b@ == (BoardView {
                    width: width as int,
                    height: height as int,
                    hidden_rows: DEFAULT_HIDDEN_ROWS as int,
                    cells: Seq::new((width * height) as nat, |i: int| 0i16),
                    active: None,
                    next_gems: None,
                }),
                Err(e) => config_error(width as int, height as int, DEFAULT_HIDDEN_ROWS as int)
                    == Some(e),
            },
    {
        Board::with_hidden_rows(width, height, DEFAULT_HIDDEN_ROWS)
    }

    /// An empty board of the given size, of which the `hidden_rows` topmost
    /// rows are not shown.
    pub fn with_hidden_rows(width: i16, height: i16, hidden_rows: i16) -> (r: Result<
        Board,
        ConfigError,
    >)
        ensures
            match r {
                Ok(b) => config_error(width as int, height as int, hidden_rows as int) is None
                    && b@.wf() && b@ == (BoardView {
                    width: width as int,
                    height: height as int,
                    hidden_rows: hidden_rows as int,
                    cells: Seq::new((width * height) as nat, |i: int| 0i16),
                    active: None,
                    next_gems: None,
                }),
                Err(e) => config_error(width as int, height as int, hidden_rows as int) == Some(e),
            },
    {
        match check_config(width, height, hidden_rows) {
            Some(e) => Err(e),
            None => {
                let cells = empty_cells((width * height) as usize);
                Ok(
                    Board {
                        width,
                        height,
                        hidden_top_rows: hidden_rows,
                        cells,
                        next_gems: None,
                        active_top: None,
                    },
                )
            },
        }
    }

    /// A board of the given size that holds the given cells, row by row from
    /// the top, with no column falling and `next_gems` as the colours of the
    /// column to come.
    pub fn from_cells(
        width: i16,
        height: i16,
        hidden_rows: i16,
        cells: Vec<i16>,
        next_gems: (i16, i16, i16),
    ) -> (r: Result<Board, ConfigError>)
        ensures
            match r {
                Ok(b) => load_error(
                    width as int,
                    height as int,
                    hidden_rows as int,
                    cells@,
                    next_gems,
                ) is None && b@.wf() && b@ == (BoardView {
                    width: width as int,
                    height: height as int,
                    hidden_rows: hidden_rows as int,
                    cells: cells@,
                    active: None,
                    next_gems: Some(next_gems),
                }),
                Err(e) => load_error(
                    width as int,
                    height as int,
                    hidden_rows as int,
                    cells@,
                    next_gems,
                ) == Some(e),
            },
    {
        match check_config(width, height, hidden_rows) {
            Some(e) => Err(e),
            None => {
                if cells.len() != (width * height) as usize {
                    return Err(ConfigError::Cells);
                }
                let mut i: usize = 0;
                while i < cells.len()
                    invariant
                        i <= cells.len(),
                        config_error(width as int, height as int, hidden_rows as int) is None,
                        cells@.len() == width * height,
                        forall|j: int| 0 <= j < i ==> 0 <= #[trigger] cells@[j] <= GEM_COLORS,
                    decreases cells.len() - i,
                {
                    if cells[i] < 0 || cells[i] > GEM_COLORS {
                        return Err(ConfigError::Cells);
                    }
                    i = i + 1;
                }
                if !(is_gem_colour(next_gems.0) && is_gem_colour(next_gems.1) && is_gem_colour(
                    next_gems.2,
                )) {
                    return Err(ConfigError::NextGems);
                }
                Ok(
                    Board {
                        width,
                        height,
                        hidden_top_rows: hidden_rows,
                        cells,
                        next_gems: Some(next_gems),
                        active_top: None,
                    },
                )
            },
        }
    }

    /// Number of columns.
    pub fn width(&self) -> (w: i16)
        ensures
            w == self@.width,
    {
        self.width
    }

    /// Number of rows, the hidden ones included.
    pub fn height(&self) -> (h: i16)
        ensures
            h == self@.height,
    {
        self.height
    }

    /// Number of rows at the top that are not shown.
    pub fn hidden_top_rows(&self) -> (n: i16)
        ensures
            n == self@.hidden_rows,
    {
        self.hidden_top_rows
    }

    /// The cell values, row by row from the top.
    pub fn cells(&self) -> (c: &Vec<i16>)
        ensures
            c@ == self@.cells,
    {
        &self.cells
    }

    /// The colours of the column that comes next, from the top.
    pub fn next_gems(&self) -> (g: Option<(i16, i16, i16)>)
        ensures
            g == self@.next_gems,
    {
        self.next_gems
    }

    /// The indices of the three cells of the falling column, from the top.
    pub fn active_cells(&self) -> (a: Option<(i16, i16, i16)>)
        requires
            self@.wf(),
        ensures
            match a {
                Some(t) => self@.active == Some(t.0 as int) && t.1 == t.0 + self@.width && t.2 == t.0
                    + 2 * self@.width,
                None => self@.active is None,
            },
    {
        match self.active_top {
            Some(t) => Some((t, t + self.width, t + 2 * self.width)),
            None => None,
        }
    }

    /// Column and row of the cell with index `idx`.
    pub fn idx_xy(&self, idx: i16) -> (xy: (i16, i16))
        requires
            self@.wf(),
            0 <= idx,
        ensures
            xy.0 == idx as int % self@.width,
            xy.1 == idx as int / self@.width,
    {
        let y = idx / self.width;
        let x = idx % self.width;
        (x, y)
    }

    /// Index of the cell in column `x` of row `y`.
    pub fn xy_idx(&self, x: i16, y: i16) -> (idx: usize)
        requires
            self@.wf(),
            0 <= x < self@.width,
            0 <= y < self@.height,
        ensures
            idx == cell_index(self@.width, x as int, y as int),
            idx < self@.cells.len(),
    {
        proof {
            lemma_xy_to_index(self.width as int, self.height as int, x as int, y as int);
        }
        (y * self.width + x) as usize
    }

    /// Whether no gem has an empty cell directly beneath it.
    pub fn is_static(&self) -> (r: bool)
        requires
            self@.wf(),
        ensures
            r == self@.is_static(),
    {
        let n = self.cells.len();
        let w = self.width as usize;
        let mut idx: usize = 0;
        while idx < n
            invariant
                idx <= n,
                n == self.cells@.len(),
                n <= i16::MAX,
                0 < w <= i16::MAX,
                w == self.width,
                forall|i: int|
                    0 <= i < idx && i + w < n && #[trigger] self.cells@[i] != 0 ==> self.cells@[i + w]
                        != 0,
            decreases n - idx,
        {
            if self.cells[idx] != 0 && idx + w < n && self.cells[idx + w] == 0 {
                return false;
            }
            idx = idx + 1;
        }
        true
    }

    /// One gravity step: every gem with a gap beneath it in its column goes
    /// down one row, and the falling column goes with its gems.
    pub fn drop(&mut self)
        requires
            old(self)@.wf(),
        ensures
            final(self)@.wf(),
            final(self)@ == old(self)@.after_drop(),
            occupied(final(self)@.cells) == occupied(old(self)@.cells),
    {
        let ghost before = self.cells@;
        let n = self.cells.len();
        let w = self.width as usize;
        let bottom: usize = match self.active_top {
            Some(t) => t as usize + 2 * w,
            None => n,
        };
        let mut advance = false;
        let mut cells = empty_cells(n);
        assert(cells@ =~= gravity_from(before, w as int, n as int));
        let mut k: usize = n;
        while k > 0
            invariant
                k <= n,
                n == before.len(),
                n <= i16::MAX,
                w == self.width,
                0 < w <= i16::MAX,
                self.cells@ == before,
                cells@ == gravity_from(before, w as int, k as int),
                advance == (k <= bottom < n && falls(before, w as int, bottom as int)),
            decreases k,
        {
            k = k - 1;
            proof {
                lemma_gravity_step(before, w as int, k + 1);
            }
            let cell = self.cells[k];
            if cell != 0 && k + w < n && cells[k + w] == 0 {
                cells.set(k + w, cell);
                if k == bottom {
                    advance = true;
                }
            } else if cell != 0 {
                cells.set(k, cell);
            } else {
                assert(cells@ =~= cells@.update(k as int, cell));
            }
        }
        proof {
            lemma_gravity_done(before, w as int);
            lemma_gravity_conserves(before, w as int);
            lemma_grid_size(self.width as int, self.height as int);
        }
        self.cells = cells;
        if advance {
            match self.active_top {
                Some(t) => {
                    self.active_top = Some(t + self.width);
                },
                None => {},
            }
        }
    }
}

impl Board {
    /// Adds to `hits` the run through `idx`, `a` and `b`, if they hold one colour.
    fn push_run(&self, hits: &mut Vec<usize>, idx: usize, a: usize, b: usize)
        requires
            idx < self@.cells.len(),
            a < self@.cells.len(),
            b < self@.cells.len(),
            forall|m: int| 0 <= m < old(hits)@.len() ==> old(hits)@[m] < self@.cells.len(),
        ensures
            final(hits)@ == old(hits)@ + run_of_three(self@.cells, idx as int, a as int, b as int),
            forall|m: int| 0 <= m < final(hits)@.len() ==> final(hits)@[m] < self@.cells.len(),
    {
        let cell = self.cells[idx];
        if cell == self.cells[a] && cell == self.cells[b] {
            hits.push(idx);
            hits.push(a);
            hits.push(b);
            assert(hits@ =~= old(hits)@ + seq![idx, a, b]);
        } else {
            assert(hits@ =~= old(hits)@ + Seq::<usize>::empty());
        }
    }

    /// Adds to `hits` the runs of three centred on cell `k`.
    fn push_matches_at(&self, hits: &mut Vec<usize>, k: usize)
        requires
            self@.wf(),
            k < self@.cells.len(),
            forall|m: int| 0 <= m < old(hits)@.len() ==> old(hits)@[m] < self@.cells.len(),
        ensures
            final(hits)@ == old(hits)@ + matches_at(
                self@.cells,
                self@.width,
                self@.height,
                k as int,
            ),
            forall|m: int| 0 <= m < final(hits)@.len() ==> final(hits)@[m] < self@.cells.len(),
    {
        let ghost found = hits@;
        let ghost none = Seq::<usize>::empty();
        let ghost cells = self.cells@;
        let cell = self.cells[k];
        if cell > 0 {
            proof {
                lemma_index_to_xy(self.width as int, self.height as int, k as int);
            }
            let (x, y) = self.idx_xy(k as i16);
            let inner_col = x > 0 && x < self.width - 1;
            let inner_row = y > 0 && y < self.height - 1;
            let ghost mut along_row = none;
            let ghost mut along_col = none;
            let ghost mut falling = none;
            let ghost mut rising = none;
            if inner_col {
                let a = self.xy_idx(x - 1, y);
                let b = self.xy_idx(x + 1, y);
                self.push_run(hits, k, a, b);
                proof {
                    along_row = run_of_three(cells, k as int, a as int, b as int);
                }
            }
            if inner_row {
                let a = self.xy_idx(x, y - 1);
                let b = self.xy_idx(x, y + 1);
                self.push_run(hits, k, a, b);
                proof {
                    along_col = run_of_three(cells, k as int, a as int, b as int);
                }
            }
            if inner_col && inner_row {
                let a = self.xy_idx(x - 1, y - 1);
                let b = self.xy_idx(x + 1, y + 1);
                self.push_run(hits, k, a, b);
                proof {
                    falling = run_of_three(cells, k as int, a as int, b as int);
                }
                let a = self.xy_idx(x - 1, y + 1);
                let b = self.xy_idx(x + 1, y - 1);
                self.push_run(hits, k, a, b);
                proof {
                    rising = run_of_three(cells, k as int, a as int, b as int);
                }
            }
            proof {
                assert(found + none =~= found);
                assert(hits@ == (((found + along_row) + along_col) + falling) + rising);
                lemma_append_four(found, along_row, along_col, falling, rising);
                assert(matches_at(cells, self.width as int, self.height as int, k as int) == ((
                along_row + along_col) + falling) + rising);
            }
        } else {
            assert(found + none =~= found);
        }
    }

    /// The runs of three gems of one colour, each by the indices of its
    /// centre and its two ends, as a scan from the last cell to the first
    /// finds them.
    pub fn next_match(&self) -> (hits: Vec<usize>)
        requires
            self@.wf(),
        ensures
            hits@ == self@.matches(),
            forall|m: int| 0 <= m < hits@.len() ==> hits@[m] < self@.cells.len(),
    {
        let n = self.cells.len();
        let mut hits: Vec<usize> = Vec::new();
        let mut k: usize = n;
        while k > 0
            invariant
                k <= n,
                n == self.cells@.len(),
                self@.wf(),
                hits@ == matches_from(self.cells@, self.width as int, self.height as int, k as int),
                forall|m: int| 0 <= m < hits@.len() ==> hits@[m] < n,
            decreases k,
        {
            k = k - 1;
            self.push_matches_at(&mut hits, k);
        }
        hits
    }

    /// Empties every cell that `matching_cells` names. Returns how many of
    /// them held a gem.
    pub fn clear_match(&mut self, matching_cells: Vec<usize>) -> (count: u32)
        requires
            old(self)@.wf(),
            forall|m: int|
                0 <= m < matching_cells@.len() ==> matching_cells@[m] < old(self)@.cells.len(),
        ensures
            final(self)@.wf(),
            final(self)@ == old(self)@.after_clear(matching_cells@),
            count == occupied(old(self)@.cells) - occupied(final(self)@.cells),
    {
        let ghost pre = self@;
        let ghost before = self.cells@;
        let mut count: u32 = 0;
        let mut m: usize = 0;
        assert(self.cells@ =~= cleared(before, matching_cells@.take(0)));
        proof {
            lemma_occupied_bound(before, 0);
        }
        while m < matching_cells.len()
            invariant
                m <= matching_cells@.len(),
                pre.wf(),
                before == pre.cells,
                self@ == (BoardView { cells: self.cells@, ..pre }),
                forall|i: int| 0 <= i < matching_cells@.len() ==> matching_cells@[i] < before.len(),
                self.cells@ == cleared(before, matching_cells@.take(m as int)),
                count + occupied(self.cells@) == occupied(before),
                occupied(before) <= i16::MAX,
            decreases matching_cells@.len() - m,
        {
            let idx = matching_cells[m];
            proof {
                lemma_cleared_step(before, matching_cells@, m as int);
                lemma_occupied_update(self.cells@, idx as int, 0, 0);
            }
            if self.cells[idx] != 0 {
                self.cells.set(idx, 0);
                count = count + 1;
            } else {
                assert(self.cells@ =~= self.cells@.update(idx as int, 0));
            }
            m = m + 1;
        }
        assert(matching_cells@.take(m as int) =~= matching_cells@);
        count
    }

    /// Whether one of the three cells that the falling column would take,
    /// `dx` columns over, is occupied. Not so where no column is falling.
    pub fn check_collision(&self, dx: i16) -> (hit: bool)
        requires
            self@.wf(),
            dx == 1 || dx == -1,
            self@.active is Some ==> 0 <= self@.active_column() + dx < self@.width,
        ensures
            hit == self@.blocked(dx as int),
    {
        match self.active_top {
            None => false,
            Some(t) => {
                proof {
                    lemma_step_in_grid(self.width as int, self.height as int, t as int, dx as int);
                }
                let w = self.width;
                let top = (t + dx) as usize;
                let mid = (t + w + dx) as usize;
                let low = (t + 2 * w + dx) as usize;
                self.cells[top] != 0 || self.cells[mid] != 0 || self.cells[low] != 0
            },
        }
    }

    /// Applies the player's input to the falling column: a step to the left
    /// or to the right, taken only if the three cells it leads to are empty,
    /// and then, where `up` is set, a turn of its three gems by one place
    /// downwards. Does nothing where no column is falling.
    pub fn handle_input(&mut self, left: bool, right: bool, up: bool)
        requires
            old(self)@.wf(),
        ensures
            final(self)@.wf(),
            final(self)@ == old(self)@.after_input(left, right, up),
    {
        let ghost pre = self@;
        match self.active_top {
            None => {},
            Some(t) => {
                let w = self.width;
                let (x, _y) = self.idx_xy(t);
                let dx: i16 = if x > 0 && left {
                    -1
                } else if x < w - 1 && right {
                    1
                } else {
                    0
                };
                let mut top = t;
                if dx != 0 && !self.check_collision(dx) {
                    proof {
                        lemma_step_in_grid(w as int, self.height as int, t as int, dx as int);
                    }
                    let g0 = self.cells[t as usize];
                    let g1 = self.cells[(t + w) as usize];
                    let g2 = self.cells[(t + 2 * w) as usize];
                    self.cells.set((t + dx) as usize, g0);
                    self.cells.set(t as usize, 0);
                    self.cells.set((t + w + dx) as usize, g1);
                    self.cells.set((t + w) as usize, 0);
                    self.cells.set((t + 2 * w + dx) as usize, g2);
                    self.cells.set((t + 2 * w) as usize, 0);
                    top = t + dx;
                    self.active_top = Some(top);
                    assert(self@.cells =~= pre.shifted(dx as int).cells);
                }
                let ghost moved = self@;
                if up {
                    let g0 = self.cells[top as usize];
                    let g1 = self.cells[(top + w) as usize];
                    let g2 = self.cells[(top + 2 * w) as usize];
                    self.cells.set(top as usize, g2);
                    self.cells.set((top + w) as usize, g0);
                    self.cells.set((top + 2 * w) as usize, g1);
                    assert(self@.cells =~= moved.rotated().cells);
                }
            },
        }
    }

    /// Whether the last hidden row holds a gem, so that no new column can appear.
    pub fn check_game_over(&self) -> (over: bool)
        requires
            self@.wf(),
        ensures
            over == self@.spawn_blocked(),
    {
        proof {
            lemma_hidden_row_in_grid(
                self.width as int,
                self.height as int,
                self.hidden_top_rows as int,
            );
        }
        let w = self.width as usize;
        let start: usize = (self.hidden_top_rows - 1) as usize * w;
        let mut x: usize = 0;
        while x < w
            invariant
                x <= w,
                w == self.width,
                start == (self.hidden_top_rows - 1) * self.width,
                start + w <= self.cells@.len(),
                self.cells@.len() <= i16::MAX,
                forall|j: int| 0 <= j < x ==> #[trigger] self@.gate_cell(j) == 0,
            decreases w - x,
        {
            assert(self.cells@[start + x] == self@.gate_cell(x as int));
            if self.cells[start + x] != 0 {
                return true;
            }
            x = x + 1;
        }
        false
    }

    /// What the next tick will do.
    pub fn phase(&self) -> (p: Phase)
        requires
            self@.wf(),
        ensures
            p == self@.phase(),
    {
        if self.active_top.is_some() {
            Phase::Falling
        } else if !self.is_static() {
            Phase::Resolving
        } else if self.next_match().len() > 0 {
            Phase::Matching
        } else if self.check_game_over() {
            Phase::GameOver
        } else {
            Phase::Spawning
        }
    }

    /// Whether the game is over.
    pub fn is_game_over(&self) -> (over: bool)
        requires
            self@.wf(),
        ensures
            over == self@.game_over(),
    {
        self.phase() == Phase::GameOver
    }

    /// What there is to show of the board: the grid, the falling column, the
    /// colours to come, and whether the game is over.
    pub fn snapshot(&self) -> (s: Snapshot)
        requires
            self@.wf(),
        ensures
            s.cells@ == self@.cells,
            match s.active_cells {
                Some(t) => self@.active == Some(t.0 as int) && t.1 == t.0 + self@.width && t.2 == t.0
                    + 2 * self@.width,
                None => self@.active is None,
            },
            s.next_gems == self@.next_gems,
            s.game_over == self@.game_over(),
    {
        let cells = self.cells.clone();
        assert(cells@ =~= self.cells@);
        Snapshot {
            cells,
            active_cells: self.active_cells(),
            next_gems: self.next_gems,
            game_over: self.is_game_over(),
        }
    }

    /// One tick of the game. While the grid is not at rest, one gravity
    /// step. Once it is at rest: the falling column is let go; else the runs
    /// of three are cleared; else, unless the last hidden row holds a gem, a
    /// new column appears with the colours that were to come, and `upcoming`
    /// are the colours to come after it. Returns the number of gems cleared.
    pub fn update(&mut self, upcoming: (i16, i16, i16)) -> (cleared_cells: u32)
        requires
            old(self)@.wf(),
            are_gems(upcoming),
        ensures
            final(self)@.wf(),
            final(self)@ == old(self)@.after_tick(upcoming),
            cleared_cells == old(self)@.tick_cleared(),
    {
        if !self.is_static() {
            self.drop();
            return 0;
        }
        if self.active_top.is_some() {
            self.active_top = None;
            return 0;
        }
        let matching_cells = self.next_match();
        if matching_cells.len() > 0 {
            return self.clear_match(matching_cells);
        }
        if !self.check_game_over() {
            proof {
                lemma_grid_size(self.width as int, self.height as int);
            }
            let w = self.width;
            match self.next_gems {
                Some(gems) => {
                    self.cells.set(SPAWN_COLUMN as usize, gems.0);
                    self.cells.set((SPAWN_COLUMN + w) as usize, gems.1);
                    self.cells.set((SPAWN_COLUMN + 2 * w) as usize, gems.2);
                },
                None => {},
            }
            self.active_top = Some(SPAWN_COLUMN);
            self.next_gems = Some(upcoming);
        }
        0
    }
}

} // verus!
