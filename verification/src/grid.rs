//! The grid as a sequence of cell values in row-major order, and what gravity,
//! matching and clearing mean on it. A cell holds 0 when it is empty and the id
//! of a gem colour otherwise.

use vstd::prelude::*;

verus! {

/// Number of occupied cells among those at index `from` and after.
pub open spec fn occupied_from(cells: Seq<i16>, from: int) -> nat
    decreases cells.len() - from,
{
    if from < 0 || from >= cells.len() {
        0
    } else {
        (if cells[from] != 0 { 1nat } else { 0nat }) + occupied_from(cells, from + 1)
    }
}

/// Number of occupied cells of the grid.
pub open spec fn occupied(cells: Seq<i16>) -> nat {
    occupied_from(cells, 0)
}

/// Writing `v` into cell `p` changes the count of occupied cells by one where
/// an empty cell is filled or a filled one is emptied, and not otherwise.
pub proof fn lemma_occupied_update(cells: Seq<i16>, p: int, v: i16, from: int)
    requires
        0 <= p < cells.len(),
        0 <= from,
    ensures
        from <= p ==> occupied_from(cells.update(p, v), from) + (if cells[p] != 0 { 1nat } else { 0nat })
            == occupied_from(cells, from) + (if v != 0 { 1nat } else { 0nat }),
        from > p ==> occupied_from(cells.update(p, v), from) == occupied_from(cells, from),
    decreases cells.len() - from,
{
    if from < cells.len() {
        lemma_occupied_update(cells, p, v, from + 1);
    }
}

/// No more cells are occupied than there are.
pub proof fn lemma_occupied_bound(cells: Seq<i16>, from: int)
    requires
        0 <= from <= cells.len(),
    ensures
        occupied_from(cells, from) <= cells.len() - from,
    decreases cells.len() - from,
{
    if from < cells.len() {
        lemma_occupied_bound(cells, from + 1);
    }
}

/// A grid without an occupied cell from `from` on counts none there.
pub proof fn lemma_occupied_none(cells: Seq<i16>, from: int)
    requires
        forall|j: int| from <= j < cells.len() ==> cells[j] == 0,
    ensures
        occupied_from(cells, from) == 0,
    decreases cells.len() - from,
{
    if 0 <= from < cells.len() {
        lemma_occupied_none(cells, from + 1);
    }
}

/// Cell `i` has room to fall into: the cell beneath it is empty, or holds a
/// gem that has room to fall itself. `w` is the grid's width.
pub open spec fn gap_below(cells: Seq<i16>, w: int, i: int) -> bool
    decreases cells.len() - i,
{
    w > 0 && 0 <= i && i + w < cells.len() && (cells[i + w] == 0 || gap_below(cells, w, i + w))
}

/// Cell `i` is occupied and moves down one row in a gravity step.
pub open spec fn falls(cells: Seq<i16>, w: int, i: int) -> bool {
    0 <= i < cells.len() && cells[i] != 0 && gap_below(cells, w, i)
}

/// The value of the cell `k` rows beneath cell `i`.
pub open spec fn cell_beneath(cells: Seq<i16>, w: int, i: int, k: int) -> i16 {
    cells[i + k * w]
}

/// The cell `k` rows beneath cell `i` lies in the grid and is empty.
pub open spec fn empty_beneath(cells: Seq<i16>, w: int, i: int, k: int) -> bool {
    k >= 1 && i + k * w < cells.len() && cell_beneath(cells, w, i, k) == 0
}

/// An empty cell `k` rows beneath cell `i` gives cell `i` room to fall.
pub proof fn lemma_empty_beneath_gives_room(cells: Seq<i16>, w: int, i: int, k: int)
    requires
        w > 0,
        0 <= i,
        empty_beneath(cells, w, i, k),
    ensures
        gap_below(cells, w, i),
    decreases k,
{
    assert((k - 1) * w == k * w - w && (k - 1) * w >= 0) by (nonlinear_arith)
        requires
            k >= 1,
            w > 0,
    ;
    if k > 1 {
        assert(cell_beneath(cells, w, i + w, k - 1) == cell_beneath(cells, w, i, k));
        lemma_empty_beneath_gives_room(cells, w, i + w, k - 1);
    } else {
        assert(k * w == w) by (nonlinear_arith)
            requires
                k == 1,
        ;
    }
}

/// A cell has room to fall exactly when some cell beneath it, in its column,
/// is empty.
pub proof fn lemma_room_is_empty_cell_beneath(cells: Seq<i16>, w: int, i: int)
    requires
        w > 0,
        0 <= i,
    ensures
        gap_below(cells, w, i) <==> exists|k: int| #[trigger] empty_beneath(cells, w, i, k),
    decreases cells.len() - i,
{
    if gap_below(cells, w, i) {
        if cells[i + w] == 0 {
            assert(1 * w == w) by (nonlinear_arith);
            assert(empty_beneath(cells, w, i, 1));
        } else {
            lemma_room_is_empty_cell_beneath(cells, w, i + w);
            let k = choose|k: int| #[trigger] empty_beneath(cells, w, i + w, k);
            assert((k + 1) * w == k * w + w) by (nonlinear_arith);
            assert(empty_beneath(cells, w, i, k + 1));
        }
    }
    if exists|k: int| #[trigger] empty_beneath(cells, w, i, k) {
        let k = choose|k: int| #[trigger] empty_beneath(cells, w, i, k);
        lemma_empty_beneath_gives_room(cells, w, i, k);
    }
}

/// What stays in cell `j` over a gravity step: its gem if that does not fall.
pub open spec fn rests(cells: Seq<i16>, w: int, j: int) -> i16 {
    if cells[j] != 0 && !gap_below(cells, w, j) {
        cells[j]
    } else {
        0
    }
}

/// What cell `j` holds after a gravity step: the gem from above where that
/// falls, else what stays.
pub open spec fn settled_cell(cells: Seq<i16>, w: int, j: int) -> i16 {
    if falls(cells, w, j - w) {
        cells[j - w]
    } else {
        rests(cells, w, j)
    }
}

/// The grid after one gravity step: every gem with an empty cell somewhere
/// beneath it in its column is one row lower, every other gem is where it was.
pub open spec fn after_gravity(cells: Seq<i16>, w: int) -> Seq<i16> {
    Seq::new(cells.len(), |j: int| settled_cell(cells, w, j))
}

/// The grid in the middle of a gravity step that works from the last cell
/// upwards: the gems at index `k` and after have been moved, the others not yet
/// put down.
pub open spec fn gravity_from(cells: Seq<i16>, w: int, k: int) -> Seq<i16> {
    Seq::new(
        cells.len(),
        |j: int|
            if j < k {
                0i16
            } else if j - w >= k {
                settled_cell(cells, w, j)
            } else {
                rests(cells, w, j)
            },
    )
}

/// No gem has an empty cell directly beneath it.
pub open spec fn is_settled(cells: Seq<i16>, w: int) -> bool {
    forall|i: int| 0 <= i && i + w < cells.len() && #[trigger] cells[i] != 0 ==> cells[i + w] != 0
}

/// Moving the gem of cell `k - 1` takes the half-done grid from `k` to `k - 1`:
/// the gem goes to the cell beneath, which is empty then, if it falls, and to
/// its own cell if it does not.
pub proof fn lemma_gravity_step(cells: Seq<i16>, w: int, k: int)
    requires
        w > 0,
        0 < k <= cells.len(),
    ensures
        falls(cells, w, k - 1) <==> cells[k - 1] != 0 && k - 1 + w < cells.len() && gravity_from(
            cells,
            w,
            k,
        )[k - 1 + w] == 0,
        gravity_from(cells, w, k)[k - 1] == 0,
        falls(cells, w, k - 1) ==> gravity_from(cells, w, k - 1) == gravity_from(cells, w, k).update(
            k - 1 + w,
            cells[k - 1],
        ),
        !falls(cells, w, k - 1) ==> gravity_from(cells, w, k - 1) == gravity_from(cells, w, k).update(
            k - 1,
            cells[k - 1],
        ),
{
    let i = k - 1;
    let before = gravity_from(cells, w, k);
    let after = gravity_from(cells, w, i);
    if i + w < cells.len() {
        assert(before[i + w] == rests(cells, w, i + w));
    }
    if falls(cells, w, i) {
        assert(after =~= before.update(i + w, cells[i]));
    } else {
        assert(after =~= before.update(i, cells[i]));
    }
}

/// A gravity step that has worked through all cells has made the grid that
/// `after_gravity` describes.
pub proof fn lemma_gravity_done(cells: Seq<i16>, w: int)
    requires
        w > 0,
    ensures
        gravity_from(cells, w, 0) == after_gravity(cells, w),
{
    assert(gravity_from(cells, w, 0) =~= after_gravity(cells, w));
}

/// The half-done grid holds as many gems as have been moved.
pub proof fn lemma_gravity_from_count(cells: Seq<i16>, w: int, k: int)
    requires
        w > 0,
        0 <= k <= cells.len(),
    ensures
        occupied(gravity_from(cells, w, k)) == occupied_from(cells, k),
    decreases cells.len() - k,
{
    if k == cells.len() {
        lemma_occupied_none(gravity_from(cells, w, k), 0);
    } else {
        lemma_gravity_from_count(cells, w, k + 1);
        lemma_gravity_step(cells, w, k + 1);
        let before = gravity_from(cells, w, k + 1);
        if falls(cells, w, k) {
            lemma_occupied_update(before, k + w, cells[k], 0);
        } else {
            lemma_occupied_update(before, k, cells[k], 0);
        }
    }
}

/// A gravity step moves a gem down by exactly one row or leaves it where it
/// is: a gem that falls is found in the cell beneath, a gem that does not is
/// found in its own cell. A gem in the bottom row stays, a gem over an empty
/// cell falls, and a gem on another gem does what that one does.
pub proof fn lemma_gravity_moves_one_row(cells: Seq<i16>, w: int, i: int)
    requires
        w > 0,
        0 <= i < cells.len(),
        cells[i] != 0,
    ensures
        falls(cells, w, i) ==> i + w < cells.len() && after_gravity(cells, w)[i + w] == cells[i],
        !falls(cells, w, i) ==> after_gravity(cells, w)[i] == cells[i],
        i + w >= cells.len() ==> !falls(cells, w, i),
        i + w < cells.len() && cells[i + w] == 0 ==> falls(cells, w, i),
        i + w < cells.len() && cells[i + w] != 0 ==> falls(cells, w, i) == falls(cells, w, i + w),
{
    if !falls(cells, w, i) && falls(cells, w, i - w) {
        assert(gap_below(cells, w, i - w));
        assert(false);
    }
}

/// A gravity step neither makes nor loses a gem.
pub proof fn lemma_gravity_conserves(cells: Seq<i16>, w: int)
    requires
        w > 0,
    ensures
        occupied(after_gravity(cells, w)) == occupied(cells),
{
    lemma_gravity_from_count(cells, w, 0);
    lemma_gravity_done(cells, w);
}

/// In a settled grid no gem has a gap anywhere beneath it.
pub proof fn lemma_settled_no_gap(cells: Seq<i16>, w: int, i: int)
    requires
        w > 0,
        is_settled(cells, w),
        0 <= i < cells.len(),
        cells[i] != 0,
    ensures
        !gap_below(cells, w, i),
    decreases cells.len() - i,
{
    if i + w < cells.len() {
        lemma_settled_no_gap(cells, w, i + w);
    }
}

/// A grid is settled exactly when a gravity step leaves it as it is.
pub proof fn lemma_settled_iff_gravity_fixed(cells: Seq<i16>, w: int)
    requires
        w > 0,
    ensures
        is_settled(cells, w) <==> after_gravity(cells, w) == cells,
{
    let after = after_gravity(cells, w);
    if is_settled(cells, w) {
        assert forall|j: int| 0 <= j < cells.len() implies after[j] == cells[j] by {
            if cells[j] != 0 {
                lemma_settled_no_gap(cells, w, j);
            }
            if 0 <= j - w && cells[j - w] != 0 {
                lemma_settled_no_gap(cells, w, j - w);
            }
        }
        assert(after =~= cells);
    }
    if after == cells {
        assert forall|i: int| 0 <= i && i + w < cells.len() && #[trigger] cells[i] != 0 implies cells[i
            + w] != 0 by {
            if cells[i + w] == 0 {
                assert(falls(cells, w, i));
                assert(after[i + w] == cells[i]);
            }
        }
    }
}

/// Index of the cell in column `x` of row `y`.
pub open spec fn cell_index(w: int, x: int, y: int) -> int {
    y * w + x
}

/// The run through cell `i` and the two cells `a` and `b` on either side of
/// it, if the three hold one colour: `i` first, then `a`, then `b`.
pub open spec fn run_of_three(cells: Seq<i16>, i: int, a: int, b: int) -> Seq<usize> {
    if cells[i] == cells[a] && cells[i] == cells[b] {
        seq![i as usize, a as usize, b as usize]
    } else {
        Seq::empty()
    }
}

/// The runs of three centred on cell `i` in a grid of `w` columns and `h` rows:
/// along the row, along the column, along the diagonal from upper left to
/// lower right, and along the one from lower left to upper right, in this
/// order. A run is looked for only where both its ends lie in the grid.
pub open spec fn matches_at(cells: Seq<i16>, w: int, h: int, i: int) -> Seq<usize> {
    let x = i % w;
    let y = i / w;
    let inner_col = 0 < x < w - 1;
    let inner_row = 0 < y < h - 1;
    if cells[i] > 0 {
        (if inner_col {
            run_of_three(cells, i, cell_index(w, x - 1, y), cell_index(w, x + 1, y))
        } else {
            Seq::empty()
        }) + (if inner_row {
            run_of_three(cells, i, cell_index(w, x, y - 1), cell_index(w, x, y + 1))
        } else {
            Seq::empty()
        }) + (if inner_col && inner_row {
            run_of_three(cells, i, cell_index(w, x - 1, y - 1), cell_index(w, x + 1, y + 1))
        } else {
            Seq::empty()
        }) + (if inner_col && inner_row {
            run_of_three(cells, i, cell_index(w, x - 1, y + 1), cell_index(w, x + 1, y - 1))
        } else {
            Seq::empty()
        })
    } else {
        Seq::empty()
    }
}

/// The runs of three found by a scan from the last cell up to cell `from`.
pub open spec fn matches_from(cells: Seq<i16>, w: int, h: int, from: int) -> Seq<usize>
    decreases cells.len() - from,
{
    if from < 0 || from >= cells.len() {
        Seq::empty()
    } else {
        matches_from(cells, w, h, from + 1) + matches_at(cells, w, h, from)
    }
}

/// The runs of three of the whole grid, in the order of a scan from the last
/// cell to the first. A cell may be named more than once.
pub open spec fn all_matches(cells: Seq<i16>, w: int, h: int) -> Seq<usize> {
    matches_from(cells, w, h, 0)
}

/// Four sequences joined one after the other to a first are the first joined
/// to the four.
pub proof fn lemma_append_four<A>(f: Seq<A>, a: Seq<A>, b: Seq<A>, c: Seq<A>, d: Seq<A>)
    ensures
        (((f + a) + b) + c) + d == f + (((a + b) + c) + d),
{
    assert((((f + a) + b) + c) + d =~= f + (((a + b) + c) + d));
}

/// Cell `j` is named in `hits`.
pub open spec fn is_hit(hits: Seq<usize>, j: int) -> bool {
    exists|m: int| 0 <= m < hits.len() && #[trigger] hits[m] == j
}

/// The grid with every cell that `hits` names emptied.
pub open spec fn cleared(cells: Seq<i16>, hits: Seq<usize>) -> Seq<i16> {
    Seq::new(
        cells.len(),
        |j: int|
            if is_hit(hits, j) {
                0i16
            } else {
                cells[j]
            },
    )
}

/// Clearing one more cell empties that cell in the grid cleared so far.
pub proof fn lemma_cleared_step(cells: Seq<i16>, hits: Seq<usize>, n: int)
    requires
        0 <= n < hits.len(),
        hits[n] < cells.len(),
    ensures
        cleared(cells, hits.take(n + 1)) == cleared(cells, hits.take(n)).update(hits[n] as int, 0),
{
    let less = hits.take(n);
    let more = hits.take(n + 1);
    assert forall|j: int| 0 <= j < cells.len() implies is_hit(more, j) == (is_hit(less, j) || j
        == hits[n]) by {
        if is_hit(less, j) {
            let m = choose|m: int| 0 <= m < less.len() && #[trigger] less[m] == j;
            assert(more[m] == j);
        }
        if j == hits[n] {
            assert(more[n] == j);
        }
        if is_hit(more, j) {
            let m = choose|m: int| 0 <= m < more.len() && #[trigger] more[m] == j;
            if m < n {
                assert(less[m] == j);
            }
        }
    }
    assert(cleared(cells, more) =~= cleared(cells, less).update(hits[n] as int, 0));
}

} // verus!
