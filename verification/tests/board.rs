use columns::board::{Board, Snapshot};
use columns::model::{ConfigError, Phase};

const W: i16 = 6;
const H: i16 = 16;

fn empty_cells() -> Vec<i16> {
    vec![0; (W * H) as usize]
}

fn at(x: i16, y: i16) -> usize {
    (y * W + x) as usize
}

fn board_with(cells: Vec<i16>) -> Board {
    Board::from_cells(W, H, 2, cells, (7, 7, 7)).unwrap()
}

fn occupied(cells: &[i16]) -> usize {
    cells.iter().filter(|c| **c != 0).count()
}

/// A board on which a column with the given colours has just appeared over the given cells.
fn board_with_falling(cells: Vec<i16>, gems: (i16, i16, i16)) -> Board {
    let mut b = Board::from_cells(W, H, 2, cells, gems).unwrap();
    assert_eq!(b.active_cells(), None);
    assert_eq!(b.update((7, 7, 7)), 0);
    assert_eq!(b.active_cells(), Some((2, 8, 14)));
    b
}

#[test]
fn new_board_is_empty() {
    let b = Board::new(W, H).unwrap();
    assert_eq!(b.width(), 6);
    assert_eq!(b.height(), 16);
    assert_eq!(b.hidden_top_rows(), 2);
    assert_eq!(b.cells(), &empty_cells());
    assert_eq!(b.active_cells(), None);
    assert_eq!(b.next_gems(), None);
    assert!(b.is_static());
    assert!(!b.is_game_over());
}

#[test]
fn new_rejects_bad_width() {
    assert_eq!(Board::new(0, 16).err(), Some(ConfigError::Width));
    assert_eq!(Board::new(-4, 16).err(), Some(ConfigError::Width));
    assert_eq!(Board::new(2, 16).err(), Some(ConfigError::Width));
    assert!(Board::new(3, 16).is_ok());
}

#[test]
fn new_rejects_bad_height() {
    assert_eq!(Board::new(6, 0).err(), Some(ConfigError::Height));
    assert_eq!(Board::new(6, -1).err(), Some(ConfigError::Height));
    assert_eq!(Board::new(6, 2).err(), Some(ConfigError::Height));
    assert!(Board::new(6, 3).is_ok());
}

#[test]
fn hidden_rows_must_be_fewer_than_rows() {
    assert_eq!(Board::with_hidden_rows(6, 16, 16).err(), Some(ConfigError::HiddenRows));
    assert_eq!(Board::with_hidden_rows(6, 16, 17).err(), Some(ConfigError::HiddenRows));
    assert_eq!(Board::with_hidden_rows(6, 16, 0).err(), Some(ConfigError::HiddenRows));
    assert_eq!(Board::with_hidden_rows(6, 16, -1).err(), Some(ConfigError::HiddenRows));
    assert!(Board::with_hidden_rows(6, 16, 15).is_ok());
    assert!(Board::with_hidden_rows(6, 16, 1).is_ok());
}

#[test]
fn new_rejects_too_many_cells() {
    assert_eq!(Board::new(200, 200).err(), Some(ConfigError::TooManyCells));
    assert_eq!(Board::new(i16::MAX, i16::MAX).err(), Some(ConfigError::TooManyCells));
    assert_eq!(Board::new(128, 256).err(), Some(ConfigError::TooManyCells));
    let b = Board::new(127, 258).unwrap();
    assert_eq!(b.cells().len(), 32766);
    assert!(Board::new(4681, 7).is_ok());
    assert_eq!(Board::new(4682, 7).err(), Some(ConfigError::TooManyCells));
}

#[test]
fn from_cells_checks_the_cells() {
    let next = (1, 2, 3);
    assert_eq!(Board::from_cells(W, H, 2, vec![0; 95], next).err(), Some(ConfigError::Cells));
    assert_eq!(Board::from_cells(W, H, 2, vec![0; 97], next).err(), Some(ConfigError::Cells));
    let mut cells = empty_cells();
    cells[40] = 8;
    assert_eq!(Board::from_cells(W, H, 2, cells, next).err(), Some(ConfigError::Cells));
    let mut cells = empty_cells();
    cells[40] = -1;
    assert_eq!(Board::from_cells(W, H, 2, cells, next).err(), Some(ConfigError::Cells));
    let mut cells = empty_cells();
    cells[40] = 7;
    let b = Board::from_cells(W, H, 2, cells.clone(), next).unwrap();
    assert_eq!(b.cells(), &cells);
    assert_eq!(b.next_gems(), Some(next));
    assert_eq!(b.active_cells(), None);
    assert_eq!(Board::from_cells(2, H, 2, vec![0; 32], next).err(), Some(ConfigError::Width));
    assert_eq!(Board::from_cells(W, H, 16, vec![0; 95], next).err(), Some(ConfigError::HiddenRows));
}

#[test]
fn from_cells_checks_the_colours_to_come() {
    assert_eq!(
        Board::from_cells(W, H, 2, empty_cells(), (0, 1, 2)).err(),
        Some(ConfigError::NextGems)
    );
    assert_eq!(
        Board::from_cells(W, H, 2, empty_cells(), (1, 8, 2)).err(),
        Some(ConfigError::NextGems)
    );
    assert_eq!(
        Board::from_cells(W, H, 2, empty_cells(), (1, 2, -3)).err(),
        Some(ConfigError::NextGems)
    );
    assert_eq!(
        Board::from_cells(W, H, 2, vec![0; 3], (1, 2, 9)).err(),
        Some(ConfigError::Cells)
    );
    assert!(Board::from_cells(W, H, 2, empty_cells(), (7, 1, 7)).is_ok());
}

#[test]
fn index_and_coordinates() {
    let b = Board::new(W, H).unwrap();
    assert_eq!(b.idx_xy(0), (0, 0));
    assert_eq!(b.idx_xy(5), (5, 0));
    assert_eq!(b.idx_xy(6), (0, 1));
    assert_eq!(b.idx_xy(14), (2, 2));
    assert_eq!(b.idx_xy(95), (5, 15));
    assert_eq!(b.xy_idx(0, 0), 0);
    assert_eq!(b.xy_idx(2, 2), 14);
    assert_eq!(b.xy_idx(5, 15), 95);
    for i in 0..96i16 {
        let (x, y) = b.idx_xy(i);
        assert_eq!(b.xy_idx(x, y), i as usize);
    }
}

#[test]
fn gravity_moves_each_loose_gem_one_row() {
    let mut cells = empty_cells();
    cells[at(0, 15)] = 1; // on the floor
    cells[at(0, 14)] = 2; // on a gem that rests
    cells[at(1, 3)] = 3; // in the air
    cells[at(2, 10)] = 4; // a stack of two over a gap
    cells[at(2, 11)] = 5;
    cells[at(2, 13)] = 6; // one more gap further down
    cells[at(2, 15)] = 7;
    let mut b = board_with(cells.clone());
    assert!(!b.is_static());
    b.drop();
    let mut want = empty_cells();
    want[at(0, 15)] = 1;
    want[at(0, 14)] = 2;
    want[at(1, 4)] = 3;
    want[at(2, 11)] = 4;
    want[at(2, 12)] = 5;
    want[at(2, 14)] = 6;
    want[at(2, 15)] = 7;
    assert_eq!(b.cells(), &want);
    assert_eq!(occupied(b.cells()), occupied(&cells));
    assert!(!b.is_static());
    b.drop();
    want[at(1, 4)] = 0;
    want[at(1, 5)] = 3;
    want[at(2, 11)] = 0;
    want[at(2, 13)] = 5;
    want[at(2, 12)] = 4;
    assert_eq!(b.cells(), &want);
    assert_eq!(occupied(b.cells()), 7);
}

#[test]
fn gravity_is_one_row_per_step_not_a_compaction() {
    let mut cells = empty_cells();
    cells[at(4, 2)] = 3;
    let mut b = board_with(cells);
    for row in 3..16 {
        assert!(!b.is_static());
        b.drop();
        let mut want = empty_cells();
        want[at(4, row)] = 3;
        assert_eq!(b.cells(), &want);
    }
    assert!(b.is_static());
}

#[test]
fn static_board_is_left_alone_by_gravity() {
    let mut cells = empty_cells();
    cells[at(0, 15)] = 1;
    cells[at(0, 14)] = 2;
    cells[at(3, 15)] = 2;
    cells[at(5, 15)] = 7;
    cells[at(5, 14)] = 7;
    let mut b = board_with(cells.clone());
    assert!(b.is_static());
    b.drop();
    assert_eq!(b.cells(), &cells);

    cells[at(3, 13)] = 4;
    let mut b = board_with(cells.clone());
    assert!(!b.is_static());
    b.drop();
    assert_ne!(b.cells(), &cells);
}

#[test]
fn a_gem_in_the_bottom_row_never_moves() {
    let mut cells = empty_cells();
    for x in 0..W {
        cells[at(x, 15)] = 1 + x;
    }
    let mut b = board_with(cells.clone());
    assert!(b.is_static());
    b.drop();
    assert_eq!(b.cells(), &cells);
}

#[test]
fn horizontal_run_of_three_is_found_and_cleared() {
    let mut cells = empty_cells();
    cells[at(1, 15)] = 4;
    cells[at(2, 15)] = 4;
    cells[at(3, 15)] = 4;
    let mut b = board_with(cells);
    let hits = b.next_match();
    assert_eq!(hits, vec![at(2, 15), at(1, 15), at(3, 15)]);
    assert_eq!(b.clear_match(hits), 3);
    assert_eq!(b.cells(), &empty_cells());
}

#[test]
fn vertical_run_names_centre_upper_lower() {
    let mut cells = empty_cells();
    cells[at(0, 13)] = 2;
    cells[at(0, 14)] = 2;
    cells[at(0, 15)] = 2;
    let b = board_with(cells);
    assert_eq!(b.next_match(), vec![at(0, 14), at(0, 13), at(0, 15)]);
}

#[test]
fn diagonal_runs_are_found() {
    let mut cells = empty_cells();
    cells[at(1, 13)] = 5;
    cells[at(2, 14)] = 5;
    cells[at(3, 15)] = 5;
    cells[at(1, 14)] = 1;
    cells[at(1, 15)] = 2;
    cells[at(2, 15)] = 3;
    let b = board_with(cells);
    assert!(b.is_static());
    assert_eq!(b.next_match(), vec![at(2, 14), at(1, 13), at(3, 15)]);

    let mut cells = empty_cells();
    cells[at(1, 15)] = 6;
    cells[at(2, 14)] = 6;
    cells[at(3, 13)] = 6;
    cells[at(2, 15)] = 1;
    cells[at(3, 14)] = 2;
    cells[at(3, 15)] = 3;
    let b = board_with(cells);
    assert_eq!(b.next_match(), vec![at(2, 14), at(1, 15), at(3, 13)]);
}

#[test]
fn runs_are_scanned_from_the_last_cell_and_may_repeat_a_cell() {
    let mut cells = empty_cells();
    for x in 0..4 {
        cells[at(x, 15)] = 3;
    }
    let mut b = board_with(cells);
    let hits = b.next_match();
    assert_eq!(
        hits,
        vec![at(2, 15), at(1, 15), at(3, 15), at(1, 15), at(0, 15), at(2, 15)]
    );
    assert_eq!(b.clear_match(hits), 4);
    assert_eq!(b.cells(), &empty_cells());
}

#[test]
fn cross_of_two_runs_lists_row_before_column() {
    let mut cells = empty_cells();
    cells[at(1, 14)] = 2;
    cells[at(2, 14)] = 2;
    cells[at(3, 14)] = 2;
    cells[at(2, 13)] = 2;
    cells[at(2, 15)] = 2;
    cells[at(1, 15)] = 1;
    cells[at(3, 15)] = 3;
    let mut b = board_with(cells);
    let hits = b.next_match();
    assert_eq!(
        hits,
        vec![at(2, 14), at(1, 14), at(3, 14), at(2, 14), at(2, 13), at(2, 15)]
    );
    assert_eq!(b.clear_match(hits), 5);
    assert_eq!(occupied(b.cells()), 2);
}

#[test]
fn run_at_the_edge_is_not_looked_for_outside_the_grid() {
    let mut cells = empty_cells();
    cells[at(4, 15)] = 1;
    cells[at(5, 15)] = 1;
    cells[at(0, 15)] = 1;
    cells[at(5, 14)] = 1;
    cells[at(0, 14)] = 2;
    let b = board_with(cells);
    assert!(b.next_match().is_empty());
}

#[test]
fn two_alike_are_no_run() {
    let mut cells = empty_cells();
    cells[at(1, 15)] = 4;
    cells[at(2, 15)] = 4;
    cells[at(3, 15)] = 5;
    let b = board_with(cells);
    assert!(b.next_match().is_empty());
}

#[test]
fn clearing_counts_only_cells_that_held_a_gem() {
    let mut cells = empty_cells();
    cells[at(0, 15)] = 1;
    cells[at(1, 15)] = 2;
    let mut b = board_with(cells);
    assert_eq!(b.clear_match(vec![at(0, 15), at(0, 15), at(3, 3)]), 1);
    let mut want = empty_cells();
    want[at(1, 15)] = 2;
    assert_eq!(b.cells(), &want);
    assert_eq!(b.clear_match(vec![]), 0);
    assert_eq!(b.cells(), &want);
}

#[test]
fn shift_moves_all_three_gems() {
    let mut b = board_with_falling(empty_cells(), (1, 2, 3));
    b.handle_input(false, true, false);
    assert_eq!(b.active_cells(), Some((3, 9, 15)));
    let mut want = empty_cells();
    want[3] = 1;
    want[9] = 2;
    want[15] = 3;
    assert_eq!(b.cells(), &want);
    b.handle_input(true, false, false);
    b.handle_input(true, false, false);
    assert_eq!(b.active_cells(), Some((1, 7, 13)));
    let mut want = empty_cells();
    want[1] = 1;
    want[7] = 2;
    want[13] = 3;
    assert_eq!(b.cells(), &want);
}

#[test]
fn shift_is_refused_when_one_destination_is_occupied() {
    let mut cells = empty_cells();
    for y in 2..16 {
        cells[at(3, y)] = 1 + (y % 2);
    }
    let mut b = board_with_falling(cells, (4, 5, 6));
    let before = b.cells().clone();
    assert!(b.check_collision(1));
    assert!(!b.check_collision(-1));
    b.handle_input(false, true, false);
    assert_eq!(b.cells(), &before);
    assert_eq!(b.active_cells(), Some((2, 8, 14)));
    b.handle_input(true, false, false);
    assert_eq!(b.active_cells(), Some((1, 7, 13)));
    assert_eq!(b.cells()[1], 4);
    assert_eq!(b.cells()[7], 5);
    assert_eq!(b.cells()[13], 6);
    assert_eq!(b.cells()[2], 0);
    assert_eq!(b.cells()[8], 0);
    assert_eq!(b.cells()[14], 0);
    assert_eq!(occupied(b.cells()), occupied(&before));
}

#[test]
fn shift_stops_at_the_walls() {
    let mut b = board_with_falling(empty_cells(), (1, 2, 3));
    for _ in 0..10 {
        b.handle_input(true, false, false);
    }
    assert_eq!(b.active_cells(), Some((0, 6, 12)));
    for _ in 0..10 {
        b.handle_input(false, true, false);
    }
    assert_eq!(b.active_cells(), Some((5, 11, 17)));
    assert_eq!(b.cells()[5], 1);
    assert_eq!(b.cells()[11], 2);
    assert_eq!(b.cells()[17], 3);
    assert_eq!(occupied(b.cells()), 3);
}

#[test]
fn left_wins_over_right() {
    let mut b = board_with_falling(empty_cells(), (1, 2, 3));
    b.handle_input(true, true, false);
    assert_eq!(b.active_cells(), Some((1, 7, 13)));
}

#[test]
fn rotation_sends_each_gem_one_place_down() {
    let mut b = board_with_falling(empty_cells(), (1, 2, 3));
    b.handle_input(false, false, true);
    assert_eq!((b.cells()[2], b.cells()[8], b.cells()[14]), (3, 1, 2));
    b.handle_input(false, false, true);
    assert_eq!((b.cells()[2], b.cells()[8], b.cells()[14]), (2, 3, 1));
    b.handle_input(false, false, true);
    assert_eq!((b.cells()[2], b.cells()[8], b.cells()[14]), (1, 2, 3));
    assert_eq!(b.active_cells(), Some((2, 8, 14)));
}

#[test]
fn rotation_is_allowed_between_full_columns() {
    let mut cells = empty_cells();
    for y in 2..16 {
        cells[at(1, y)] = 1 + (y % 2);
        cells[at(3, y)] = 1 + (y % 2);
    }
    let mut b = board_with_falling(cells, (4, 5, 6));
    b.handle_input(true, true, true);
    assert_eq!(b.active_cells(), Some((2, 8, 14)));
    assert_eq!((b.cells()[2], b.cells()[8], b.cells()[14]), (6, 4, 5));
}

#[test]
fn shift_and_rotation_in_one_input() {
    let mut b = board_with_falling(empty_cells(), (1, 2, 3));
    b.handle_input(false, true, true);
    assert_eq!(b.active_cells(), Some((3, 9, 15)));
    assert_eq!((b.cells()[3], b.cells()[9], b.cells()[15]), (3, 1, 2));
    assert_eq!(occupied(b.cells()), 3);
}

#[test]
fn input_without_falling_column_changes_nothing() {
    let mut cells = empty_cells();
    cells[at(2, 15)] = 3;
    let mut b = board_with(cells.clone());
    b.handle_input(true, false, true);
    b.handle_input(false, true, true);
    assert_eq!(b.cells(), &cells);
    assert_eq!(b.active_cells(), None);
    assert!(!b.check_collision(1));
}

#[test]
fn first_column_appears_without_gems() {
    let mut b = Board::new(W, H).unwrap();
    assert_eq!(b.phase(), Phase::Spawning);
    assert_eq!(b.update((1, 2, 3)), 0);
    assert_eq!(b.active_cells(), Some((2, 8, 14)));
    assert_eq!(b.next_gems(), Some((1, 2, 3)));
    assert_eq!(b.cells(), &empty_cells());
    assert_eq!(b.phase(), Phase::Falling);
    assert_eq!(b.update((4, 5, 6)), 0);
    assert_eq!(b.active_cells(), None);
    assert_eq!(b.next_gems(), Some((1, 2, 3)));
}

#[test]
fn column_of_one_colour_falls_lands_and_is_cleared() {
    let mut b = Board::new(W, H).unwrap();
    b.update((1, 1, 1));
    b.update((2, 3, 4));
    assert_eq!(b.update((2, 3, 4)), 0);
    assert_eq!(b.active_cells(), Some((2, 8, 14)));
    assert_eq!(b.next_gems(), Some((2, 3, 4)));
    assert_eq!((b.cells()[2], b.cells()[8], b.cells()[14]), (1, 1, 1));
    for step in 1..=13i16 {
        assert!(!b.is_static());
        assert_eq!(b.update((5, 5, 5)), 0);
        assert_eq!(b.active_cells(), Some((2 + 6 * step, 8 + 6 * step, 14 + 6 * step)));
        assert_eq!(occupied(b.cells()), 3);
    }
    assert_eq!(b.active_cells(), Some((80, 86, 92)));
    assert_eq!(b.idx_xy(92), (2, 15));
    assert!(b.is_static());
    // the column is let go
    assert_eq!(b.update((5, 5, 5)), 0);
    assert_eq!(b.active_cells(), None);
    assert_eq!((b.cells()[80], b.cells()[86], b.cells()[92]), (1, 1, 1));
    // three alike, one above the other, are a run
    assert_eq!(b.next_match(), vec![86, 80, 92]);
    assert_eq!(b.update((5, 5, 5)), 3);
    assert_eq!(b.cells(), &empty_cells());
    // the next column appears
    assert_eq!(b.phase(), Phase::Spawning);
    assert!(!b.check_game_over());
    assert_eq!(b.update((5, 5, 5)), 0);
    assert_eq!(b.active_cells(), Some((2, 8, 14)));
    assert_eq!((b.cells()[2], b.cells()[8], b.cells()[14]), (2, 3, 4));
    assert_eq!(b.next_gems(), Some((5, 5, 5)));
}

#[test]
fn column_without_run_lands_and_next_tick_spawns() {
    let mut b = Board::new(W, H).unwrap();
    b.update((1, 2, 1));
    b.update((2, 3, 4));
    b.update((2, 3, 4));
    for _ in 0..13 {
        assert_eq!(b.update((5, 5, 5)), 0);
    }
    assert_eq!(b.active_cells(), Some((80, 86, 92)));
    assert_eq!(b.update((5, 5, 5)), 0);
    assert_eq!(b.active_cells(), None);
    assert!(b.next_match().is_empty());
    // the row that decides: indices 6 to 11
    for i in 6..12 {
        assert_eq!(b.cells()[i], 0);
    }
    assert_eq!(b.update((5, 5, 5)), 0);
    assert_eq!(b.active_cells(), Some((2, 8, 14)));
    assert_eq!((b.cells()[2], b.cells()[8], b.cells()[14]), (2, 3, 4));
    assert_eq!((b.cells()[80], b.cells()[86], b.cells()[92]), (1, 2, 1));
    assert_eq!(occupied(b.cells()), 6);
}

#[test]
fn full_column_ends_the_game() {
    let mut cells = empty_cells();
    for y in 1..16 {
        cells[at(4, y)] = 1 + (y % 2);
    }
    let mut b = board_with(cells.clone());
    assert!(b.is_static());
    assert!(b.next_match().is_empty());
    assert!(b.check_game_over());
    assert!(b.is_game_over());
    for _ in 0..5 {
        assert_eq!(b.update((1, 2, 3)), 0);
        assert_eq!(b.active_cells(), None);
        assert_eq!(b.next_gems(), Some((7, 7, 7)));
        assert_eq!(b.cells(), &cells);
        assert!(b.is_game_over());
    }
}

#[test]
fn game_over_looks_at_the_last_hidden_row_only() {
    let mut cells = empty_cells();
    for y in 2..16 {
        cells[at(4, y)] = 1 + (y % 2);
    }
    let mut b = board_with(cells.clone());
    assert!(!b.check_game_over());
    assert!(!b.is_game_over());
    b.update((1, 2, 3));
    assert_eq!(b.active_cells(), Some((2, 8, 14)));

    let mut top = vec![0i16; 6 * 16];
    top[6 * 3 + 5] = 1;
    for y in 4..16 {
        top[6 * y + 5] = 1 + (y % 2) as i16;
    }
    let b = Board::from_cells(6, 16, 4, top, (1, 1, 1)).unwrap();
    assert!(b.is_static());
    assert!(b.check_game_over());
}

#[test]
fn falling_column_stops_on_a_stack() {
    let mut cells = empty_cells();
    cells[at(2, 15)] = 7;
    cells[at(2, 14)] = 6;
    let mut b = board_with_falling(cells, (1, 2, 3));
    let mut ticks = 0;
    while !b.is_static() {
        assert_eq!(b.update((4, 4, 4)), 0);
        ticks += 1;
    }
    assert_eq!(ticks, 11);
    assert_eq!(b.active_cells(), Some((at(2, 11) as i16, at(2, 12) as i16, at(2, 13) as i16)));
    assert_eq!(b.cells()[at(2, 11)], 1);
    assert_eq!(b.cells()[at(2, 12)], 2);
    assert_eq!(b.cells()[at(2, 13)], 3);
    assert_eq!(occupied(b.cells()), 5);
}

#[test]
fn phases_of_a_game() {
    let mut b = Board::new(W, H).unwrap();
    assert_eq!(b.phase(), Phase::Spawning);
    b.update((3, 3, 3));
    assert_eq!(b.phase(), Phase::Falling);
    b.update((3, 3, 3));
    assert_eq!(b.phase(), Phase::Spawning);
    b.update((1, 2, 3));
    assert_eq!(b.phase(), Phase::Falling);
    for _ in 0..14 {
        assert_eq!(b.phase(), Phase::Falling);
        b.update((1, 2, 3));
    }
    assert_eq!(b.phase(), Phase::Matching);
    assert_eq!(b.update((1, 2, 3)), 3);
    assert_eq!(b.phase(), Phase::Spawning);

    let mut cells = empty_cells();
    cells[at(0, 3)] = 1;
    let mut b = board_with(cells);
    assert_eq!(b.phase(), Phase::Resolving);
    for _ in 0..12 {
        assert_eq!(b.phase(), Phase::Resolving);
        assert_eq!(b.update((1, 2, 3)), 0);
        assert_eq!(b.active_cells(), None);
    }
    assert_eq!(b.phase(), Phase::Spawning);
}

#[test]
fn snapshot_shows_the_board() {
    let mut cells = empty_cells();
    cells[at(5, 15)] = 2;
    let mut b = board_with_falling(cells.clone(), (1, 2, 3));
    cells[2] = 1;
    cells[8] = 2;
    cells[14] = 3;
    assert_eq!(
        b.snapshot(),
        Snapshot {
            cells: cells.clone(),
            active_cells: Some((2, 8, 14)),
            next_gems: Some((7, 7, 7)),
            game_over: false,
        }
    );
    b.handle_input(false, false, true);
    assert_eq!(b.snapshot().cells[2], 3);

    let mut full = empty_cells();
    for y in 1..16 {
        full[at(0, y)] = 1 + (y % 2);
    }
    let b = board_with(full.clone());
    assert_eq!(
        b.snapshot(),
        Snapshot { cells: full, active_cells: None, next_gems: Some((7, 7, 7)), game_over: true }
    );
}

#[test]
fn cleared_gems_let_the_ones_above_fall() {
    let mut cells = empty_cells();
    cells[at(1, 15)] = 4;
    cells[at(2, 15)] = 4;
    cells[at(3, 15)] = 4;
    cells[at(2, 14)] = 5;
    cells[at(4, 15)] = 6;
    let mut b = board_with(cells);
    assert_eq!(b.phase(), Phase::Matching);
    assert_eq!(b.update((1, 1, 1)), 3);
    assert_eq!(b.phase(), Phase::Resolving);
    assert_eq!(b.update((1, 1, 1)), 0);
    let mut want = empty_cells();
    want[at(2, 15)] = 5;
    want[at(4, 15)] = 6;
    assert_eq!(b.cells(), &want);
    assert_eq!(b.phase(), Phase::Spawning);
}

#[test]
fn clearing_again_finds_nothing() {
    let mut cells = empty_cells();
    cells[at(1, 15)] = 4;
    cells[at(2, 15)] = 4;
    cells[at(3, 15)] = 4;
    cells[at(5, 15)] = 1;
    let mut b = board_with(cells);
    let hits = b.next_match();
    assert_eq!(b.clear_match(hits.clone()), 3);
    let once = b.cells().clone();
    assert_eq!(b.clear_match(hits), 0);
    assert_eq!(b.cells(), &once);
    assert_eq!(occupied(&once), 1);
}
