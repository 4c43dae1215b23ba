use puyo_core::board::{Board, GameState};
use puyo_core::palette::PuyoType;
use puyo_core::replay::update_opponent_board;
use puyo_core::rules::{GRID_HEIGHT, GRID_WIDTH};

use PuyoType::{Blue, Green, Red, Yellow};

fn empty_board() -> Board {
    Board::with_preview(GRID_WIDTH, GRID_HEIGHT, (Red, Blue), (Green, Yellow))
}

#[test]
fn replay_drops_the_piece_in_its_column() {
    let mut board = empty_board();
    update_opponent_board(&mut board, 4, 0, 0, 1);
    assert_eq!(board.cells[12][4], Some(Red));
    assert_eq!(board.cells[11][4], Some(Blue));
    assert!(board.active_piece.is_none());
    assert_eq!(board.state, GameState::Playing);
    assert_eq!(board.score, 0);
}

#[test]
fn replay_settles_a_lying_piece() {
    let mut board = empty_board();
    board.cells[12][1] = Some(Green);
    update_opponent_board(&mut board, 1, 1, 2, 3);
    assert_eq!(board.cells[11][1], Some(Yellow));
    assert_eq!(board.cells[12][2], Some(Green));
    assert_eq!(board.cells[11][2], None);
}

#[test]
fn replay_resolves_until_the_grid_is_stable() {
    let mut board = empty_board();
    for col in 0..3 {
        board.cells[12][col] = Some(Red);
        board.cells[11][col] = Some(Blue);
    }
    board.cells[12][4] = Some(Blue);
    update_opponent_board(&mut board, 3, 0, 0, 2);
    assert_eq!(board.chain_count, 1);
    assert_eq!(board.score, 40);
    assert_eq!(board.cells[12][3], Some(Yellow));
    for col in 0..3 {
        assert_eq!(board.cells[12][col], Some(Blue));
        assert_eq!(board.cells[11][col], None);
    }
    assert_eq!(board.cells[12][4], Some(Blue));
}

#[test]
fn replay_keeps_counting_links_across_placements() {
    let mut board = empty_board();
    for col in 0..3 {
        board.cells[12][col] = Some(Blue);
    }
    board.cells[12][3] = Some(Yellow);
    board.chain_count = 1;
    board.score = 40;
    update_opponent_board(&mut board, 3, 3, 1, 1);
    assert_eq!(board.chain_count, 2);
    assert_eq!(board.score, 40 + 10 * 5 * (8 + 2));
    for col in 0..3 {
        assert_eq!(board.cells[12][col], None);
    }
    assert_eq!(board.cells[11][2], None);
    assert_eq!(board.cells[11][3], None);
    assert_eq!(board.cells[12][3], Some(Yellow));
}

#[test]
fn replay_runs_a_two_link_chain() {
    let mut board = empty_board();
    for row in 10..13 {
        board.cells[row][0] = Some(Blue);
        board.cells[row][1] = Some(Red);
    }
    board.cells[9][1] = Some(Blue);
    update_opponent_board(&mut board, 2, 0, 0, 3);
    assert_eq!(board.chain_count, 2);
    assert_eq!(board.score, 40 + 10 * 4 * 8);
    for row in 0..13 {
        assert_eq!(board.cells[row][0], None);
        assert_eq!(board.cells[row][1], None);
    }
    assert_eq!(board.cells[12][2], Some(Green));
    assert_eq!(board.cells[11][2], None);
}

#[test]
fn replay_into_a_blocked_column_does_nothing() {
    let mut board = empty_board();
    for row in 1..13 {
        board.cells[row][2] = Some(if row % 2 == 0 { Red } else { Blue });
    }
    let before = board.cells.clone();
    update_opponent_board(&mut board, 2, 0, 0, 0);
    assert_eq!(board.cells, before);
    update_opponent_board(&mut board, 6, 0, 0, 0);
    update_opponent_board(&mut board, -1, 0, 0, 0);
    update_opponent_board(&mut board, 5, 1, 0, 0);
    assert_eq!(board.cells, before);
    assert_eq!(board.score, 0);
}
