use puyo_core::board::{Board, GameState};
use puyo_core::palette::PuyoType;
use puyo_core::rules::{GRID_HEIGHT, GRID_WIDTH};

use PuyoType::{Blue, Green, Purple, Red, Yellow};

fn empty_board() -> Board {
    Board::with_preview(GRID_WIDTH, GRID_HEIGHT, (Red, Blue), (Green, Yellow))
}

fn no_marks() -> Vec<Vec<bool>> {
    vec![vec![false; GRID_WIDTH]; GRID_HEIGHT]
}

fn sorted(mut cells: Vec<(usize, usize)>) -> Vec<(usize, usize)> {
    cells.sort();
    cells
}

/// Bottom three rows filled so that nothing matches, with three reds on top
/// of each other in column 2.
fn prefilled_board() -> Board {
    let mut board = empty_board();
    let rows = [
        [Blue, Green, Red, Yellow, Blue, Green],
        [Green, Blue, Red, Blue, Yellow, Blue],
        [Yellow, Green, Red, Green, Blue, Yellow],
    ];
    for (i, row) in rows.iter().enumerate() {
        for (col, colour) in row.iter().enumerate() {
            board.cells[10 + i][col] = Some(*colour);
        }
    }
    board
}

#[test]
fn flood_fill_collects_the_group_of_a_cell() {
    let mut board = empty_board();
    board.cells[12][0] = Some(Red);
    board.cells[12][1] = Some(Red);
    board.cells[11][1] = Some(Red);
    board.cells[11][2] = Some(Blue);
    board.cells[10][2] = Some(Red);
    let mut visited = no_marks();
    let group = board.flood_fill(12, 0, &mut visited);
    assert_eq!(group[0], (12, 0));
    assert_eq!(sorted(group), vec![(11, 1), (12, 0), (12, 1)]);
    assert!(visited[12][0] && visited[12][1] && visited[11][1]);
    assert!(!visited[11][2] && !visited[10][2]);
}

#[test]
fn flood_fill_gives_the_same_group_from_any_of_its_cells() {
    let mut board = empty_board();
    for cell in [(12, 0), (12, 1), (11, 1), (10, 1), (10, 2)] {
        board.cells[cell.0][cell.1] = Some(Green);
    }
    board.cells[11][0] = Some(Red);
    let expected = vec![(10, 1), (10, 2), (11, 1), (12, 0), (12, 1)];
    for start in expected.clone() {
        let mut visited = no_marks();
        let group = board.flood_fill(start.0, start.1, &mut visited);
        assert_eq!(group[0], start);
        assert_eq!(sorted(group), expected);
    }
}

#[test]
fn flood_fill_does_not_join_diagonal_cells() {
    let mut board = empty_board();
    board.cells[12][0] = Some(Red);
    board.cells[11][1] = Some(Red);
    board.cells[10][2] = Some(Red);
    let mut visited = no_marks();
    assert_eq!(board.flood_fill(11, 1, &mut visited), vec![(11, 1)]);
}

#[test]
fn flood_fill_of_an_empty_or_marked_cell_lists_nothing() {
    let mut board = empty_board();
    board.cells[12][0] = Some(Red);
    board.cells[12][1] = Some(Red);
    let mut visited = no_marks();
    assert!(board.flood_fill(5, 5, &mut visited).is_empty());
    assert_eq!(visited, no_marks());
    assert_eq!(board.flood_fill(12, 0, &mut visited).len(), 2);
    assert!(board.flood_fill(12, 1, &mut visited).is_empty());
}

#[test]
fn groups_partition_the_puyos() {
    let board = prefilled_board();
    let mut visited = no_marks();
    let mut seen = Vec::new();
    for row in 0..GRID_HEIGHT {
        for col in 0..GRID_WIDTH {
            let group = board.flood_fill(row, col, &mut visited);
            if let Some(first) = group.first() {
                let colour = board.cells[first.0][first.1];
                assert!(group.iter().all(|cell| board.cells[cell.0][cell.1] == colour));
            }
            seen.extend(group);
        }
    }
    let mut expected = Vec::new();
    for row in 10..13 {
        for col in 0..GRID_WIDTH {
            expected.push((row, col));
        }
    }
    assert_eq!(sorted(seen), expected);
}

#[test]
fn three_of_a_colour_do_not_clear() {
    let mut board = prefilled_board();
    let before = board.cells.clone();
    assert!(!board.check_matches());
    assert_eq!(board.cells, before);
    assert_eq!(board.score, 0);
    assert_eq!(board.chain_count, 0);
}

#[test]
fn lock_that_completes_four_clears_them() {
    let mut board = prefilled_board();
    board.spawn_with((Purple, Purple));
    let piece = board.active_piece.expect("the piece spawned");
    assert_eq!((piece.row, piece.col, piece.rotation), (1, 2, 0));
    assert_eq!((piece.axis_type, piece.sat_type), (Red, Blue));
    board.hard_drop();
    assert_eq!(board.state, GameState::ResolvingMatches);
    assert_eq!(board.cells[9][2], Some(Red));
    assert_eq!(board.cells[8][2], Some(Blue));
    let score_before = board.score;
    assert!(board.check_matches());
    for row in 9..13 {
        assert_eq!(board.cells[row][2], None);
    }
    assert_eq!(board.cells[8][2], Some(Blue));
    assert_eq!(board.cells[10][1], Some(Green));
    assert_eq!(board.cells[12][3], Some(Green));
    assert_eq!(board.chain_count, 1);
    assert_eq!(board.score - score_before, 40);
    assert!(!board.check_matches());
}

#[test]
fn group_hidden_above_the_visible_rows_does_not_clear() {
    let mut board = empty_board();
    for col in 0..4 {
        board.cells[0][col] = Some(Red);
    }
    assert!(!board.check_matches());
    assert_eq!(board.cells[0][0], Some(Red));
    assert_eq!(board.score, 0);
}

#[test]
fn group_that_reaches_one_visible_row_clears_whole() {
    let mut board = empty_board();
    for col in 0..3 {
        board.cells[0][col] = Some(Red);
    }
    board.cells[1][2] = Some(Red);
    assert!(board.check_matches());
    for col in 0..3 {
        assert_eq!(board.cells[0][col], None);
    }
    assert_eq!(board.cells[1][2], None);
    assert_eq!(board.score, 40);
}

#[test]
fn two_groups_of_two_colours_clear_in_one_round() {
    let mut board = empty_board();
    for col in 0..4 {
        board.cells[12][col] = Some(Red);
        board.cells[11][col] = Some(Blue);
    }
    board.cells[12][5] = Some(Green);
    assert!(board.check_matches());
    assert_eq!(board.chain_count, 1);
    assert_eq!(board.score, 10 * 8 * 3);
    for col in 0..4 {
        assert_eq!(board.cells[12][col], None);
        assert_eq!(board.cells[11][col], None);
    }
    assert_eq!(board.cells[12][5], Some(Green));
}

#[test]
fn two_groups_of_one_colour_count_one_colour() {
    let mut board = empty_board();
    for row in 9..13 {
        board.cells[row][0] = Some(Yellow);
        board.cells[row][5] = Some(Yellow);
    }
    assert!(board.check_matches());
    assert_eq!(board.score, 10 * 8 * 1);
}

#[test]
fn larger_group_earns_its_group_bonus() {
    let mut board = empty_board();
    for col in 0..5 {
        board.cells[12][col] = Some(Purple);
    }
    assert!(board.check_matches());
    assert_eq!(board.score, 10 * 5 * 2);
    let mut board = empty_board();
    for col in 0..6 {
        board.cells[12][col] = Some(Purple);
        board.cells[11][col] = Some(Purple);
    }
    assert!(board.check_matches());
    assert_eq!(board.score, 10 * 12 * 10);
}

#[test]
fn later_chain_link_scores_with_its_chain_power() {
    let mut board = empty_board();
    for col in 0..4 {
        board.cells[12][col] = Some(Red);
    }
    board.chain_count = 1;
    board.score = 40;
    assert!(board.check_matches());
    assert_eq!(board.chain_count, 2);
    assert_eq!(board.score, 40 + 10 * 4 * 8);
}

#[test]
fn five_colours_clear_with_the_largest_colour_bonus() {
    let mut board = empty_board();
    let colours = [Red, Blue, Yellow, Green, Purple];
    for (col, colour) in colours.iter().enumerate() {
        for row in 9..13 {
            board.cells[row][col] = Some(*colour);
        }
    }
    assert!(board.check_matches());
    assert_eq!(board.score, 10 * 20 * 24);
    assert!(board.cells.iter().all(|row| row.iter().all(|cell| cell.is_none())));
}

#[test]
fn match_detection_leaves_piece_and_state_alone() {
    let mut board = empty_board();
    for col in 0..4 {
        board.cells[12][col] = Some(Red);
    }
    board.state = GameState::ResolvingMatches;
    board.lock_timer = 9;
    assert!(board.check_matches());
    assert_eq!(board.state, GameState::ResolvingMatches);
    assert_eq!(board.lock_timer, 9);
    assert!(board.active_piece.is_none());
}

#[test]
fn chain_count_stops_at_the_largest_value() {
    let mut board = empty_board();
    for col in 0..4 {
        board.cells[12][col] = Some(Red);
    }
    board.chain_count = u32::MAX;
    assert!(board.check_matches());
    assert_eq!(board.chain_count, u32::MAX);
    assert_eq!(board.score, 10 * 4 * 512);
}
