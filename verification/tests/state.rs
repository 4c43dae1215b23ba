use puyo_core::board::{Board, GameState};
use puyo_core::palette::{PuyoType, PALETTE_SIZE};
use puyo_core::piece::ActivePuyo;
use puyo_core::rules::{GRID_HEIGHT, GRID_WIDTH, SPAWN_COL, SPAWN_ROW, VISIBLE_ROW_OFFSET};

use PuyoType::{Blue, Green, Purple, Red, Yellow};

fn empty_board() -> Board {
    Board::with_preview(GRID_WIDTH, GRID_HEIGHT, (Red, Blue), (Green, Yellow))
}

#[test]
fn standard_grid_is_six_by_thirteen_with_one_hidden_row() {
    assert_eq!(GRID_WIDTH, 6);
    assert_eq!(GRID_HEIGHT, 13);
    assert_eq!(VISIBLE_ROW_OFFSET, 1);
    assert_eq!((SPAWN_ROW, SPAWN_COL), (1, 2));
}

#[test]
fn new_board_is_empty_and_in_play() {
    let board = Board::new(GRID_WIDTH, GRID_HEIGHT);
    assert_eq!(board.width, 6);
    assert_eq!(board.height, 13);
    assert_eq!(board.cells.len(), 13);
    assert!(board.cells.iter().all(|row| row.len() == 6 && row.iter().all(|c| c.is_none())));
    assert!(board.active_piece.is_none());
    assert_eq!(board.score, 0);
    assert_eq!(board.state, GameState::Playing);
    assert!(board.previous_state.is_none());
    assert_eq!(board.lock_timer, 0);
    assert_eq!(board.total_ground_timer, 0);
    assert!(!board.is_touching_ground);
    assert_eq!(board.ground_move_count, 0);
    assert_eq!(board.lowest_row_reached, -100);
    assert_eq!(board.chain_count, 0);
}

#[test]
fn board_with_preview_holds_the_given_queue() {
    let board = empty_board();
    assert_eq!(board.next_types, (Red, Blue));
    assert_eq!(board.next_next_types, (Green, Yellow));
}

#[test]
fn colours_map_to_palette_positions_and_back() {
    let palette = [Red, Blue, Yellow, Green, Purple];
    for (i, colour) in palette.iter().enumerate() {
        assert_eq!(PuyoType::from_u8(i as u8), *colour);
        assert_eq!(colour.to_u8(), i as u8);
    }
    assert_eq!(PuyoType::from_u8(5), Purple);
    assert_eq!(PuyoType::from_u8(255), Purple);
    assert_eq!(PALETTE_SIZE, 5);
}

#[test]
fn random_colours_cover_more_than_the_last_colour() {
    let mut seen = [false; 5];
    for _ in 0..400 {
        seen[PuyoType::random().to_u8() as usize] = true;
    }
    assert!(seen[0] || seen[1] || seen[2] || seen[3]);
    assert!(seen.iter().filter(|s| **s).count() >= 2);
}

#[test]
fn spawn_takes_the_front_of_the_queue() {
    let mut board = empty_board();
    board.lock_timer = 44;
    board.total_ground_timer = 55;
    board.ground_move_count = 3;
    board.chain_count = 2;
    board.is_touching_ground = true;
    board.spawn_with((Purple, Red));
    assert_eq!(
        board.active_piece,
        Some(ActivePuyo { row: 1, col: 2, rotation: 0, axis_type: Red, sat_type: Blue })
    );
    assert_eq!(board.next_types, (Green, Yellow));
    assert_eq!(board.next_next_types, (Purple, Red));
    assert_eq!(board.lowest_row_reached, 1);
    assert_eq!(board.lock_timer, 0);
    assert_eq!(board.total_ground_timer, 0);
    assert_eq!(board.ground_move_count, 0);
    assert_eq!(board.chain_count, 0);
    assert!(!board.is_touching_ground);
    assert_eq!(board.state, GameState::Playing);
}

#[test]
fn spawn_piece_draws_a_new_pair_for_the_queue() {
    let mut board = empty_board();
    board.spawn_piece();
    let piece = board.active_piece.expect("the piece spawned");
    assert_eq!((piece.axis_type, piece.sat_type), (Red, Blue));
    assert_eq!(board.next_types, (Green, Yellow));
    board.spawn_piece();
    let piece = board.active_piece.expect("the piece spawned");
    assert_eq!((piece.axis_type, piece.sat_type), (Green, Yellow));
}

#[test]
fn spawn_onto_an_occupied_spawn_cell_ends_the_game() {
    let mut board = empty_board();
    board.cells[1][2] = Some(Green);
    board.spawn_with((Purple, Red));
    assert_eq!(board.state, GameState::GameOver);
    assert!(board.active_piece.is_none());
    assert_eq!(board.next_types, (Red, Blue));
    assert_eq!(board.next_next_types, (Green, Yellow));
    let mut board = empty_board();
    board.cells[1][2] = Some(Green);
    board.spawn_piece();
    assert_eq!(board.state, GameState::GameOver);
    assert!(board.active_piece.is_none());
}

#[test]
fn spawn_with_the_satellite_cell_occupied_ends_the_game() {
    let mut board = empty_board();
    board.cells[0][2] = Some(Green);
    board.spawn_with((Purple, Red));
    assert_eq!(board.state, GameState::GameOver);
    assert!(board.active_piece.is_none());
    assert_eq!(board.next_types, (Green, Yellow));
    assert_eq!(board.next_next_types, (Purple, Red));
}

#[test]
fn spawn_on_a_grid_too_small_for_the_spawn_cell_ends_the_game() {
    let mut board = Board::with_preview(2, 5, (Red, Blue), (Green, Yellow));
    board.spawn_with((Purple, Red));
    assert_eq!(board.state, GameState::GameOver);
    assert!(board.active_piece.is_none());
}

#[test]
fn pause_round_trip_restores_play() {
    let mut board = empty_board();
    board.spawn_with((Purple, Red));
    board.move_piece(1);
    board.lock_timer = 123;
    board.total_ground_timer = 456;
    board.ground_move_count = 7;
    board.score = 990;
    let piece = board.active_piece;
    let cells = board.cells.clone();
    board.toggle_pause();
    assert_eq!(board.state, GameState::Paused);
    assert_eq!(board.previous_state, Some(GameState::Playing));
    board.toggle_pause();
    assert_eq!(board.state, GameState::Playing);
    assert_eq!(board.previous_state, None);
    assert_eq!(board.active_piece, piece);
    assert_eq!(board.cells, cells);
    assert_eq!(board.lock_timer, 123);
    assert_eq!(board.total_ground_timer, 456);
    assert_eq!(board.ground_move_count, 7);
    assert_eq!(board.score, 990);
}

#[test]
fn pause_recalls_the_state_it_interrupted() {
    let mut board = empty_board();
    board.state = GameState::ResolvingMatches;
    board.toggle_pause();
    assert_eq!(board.state, GameState::Paused);
    board.toggle_pause();
    assert_eq!(board.state, GameState::ResolvingMatches);
}

#[test]
fn pause_is_a_no_op_once_the_game_is_over() {
    let mut board = empty_board();
    board.state = GameState::GameOver;
    board.toggle_pause();
    assert_eq!(board.state, GameState::GameOver);
    assert_eq!(board.previous_state, None);
}

#[test]
fn resume_without_a_saved_state_goes_to_play() {
    let mut board = empty_board();
    board.state = GameState::Paused;
    board.previous_state = None;
    board.toggle_pause();
    assert_eq!(board.state, GameState::Playing);
}

#[test]
fn resolution_settles_then_clears_then_spawns() {
    let mut board = empty_board();
    for col in 0..3 {
        board.cells[12][col] = Some(Red);
    }
    board.cells[5][3] = Some(Red);
    board.cells[4][3] = Some(Blue);
    board.state = GameState::ResolvingMatches;
    board.resolve_step_with((Purple, Purple));
    assert_eq!(board.cells[12][3], Some(Red));
    assert_eq!(board.cells[11][3], Some(Blue));
    assert_eq!(board.cells[5][3], None);
    assert_eq!(board.chain_count, 0);
    assert_eq!(board.state, GameState::ResolvingMatches);
    board.resolve_step_with((Purple, Purple));
    for col in 0..4 {
        assert_eq!(board.cells[12][col], None);
    }
    assert_eq!(board.cells[11][3], Some(Blue));
    assert_eq!(board.chain_count, 1);
    assert_eq!(board.score, 40);
    assert_eq!(board.state, GameState::ResolvingMatches);
    assert!(board.active_piece.is_none());
    board.resolve_step_with((Purple, Purple));
    assert_eq!(board.cells[12][3], Some(Blue));
    assert_eq!(board.cells[11][3], None);
    assert_eq!(board.state, GameState::ResolvingMatches);
    board.resolve_step_with((Purple, Yellow));
    assert_eq!(board.state, GameState::Playing);
    assert_eq!(
        board.active_piece,
        Some(ActivePuyo { row: 1, col: 2, rotation: 0, axis_type: Red, sat_type: Blue })
    );
    assert_eq!(board.next_next_types, (Purple, Yellow));
    assert_eq!(board.chain_count, 0);
    assert_eq!(board.score, 40);
}

#[test]
fn resolution_ends_the_chain_when_nothing_more_clears() {
    let mut board = empty_board();
    for col in 0..4 {
        board.cells[12][col] = Some(Red);
    }
    for col in 0..3 {
        board.cells[11][col] = Some(Blue);
    }
    board.cells[10][3] = Some(Blue);
    board.cells[11][3] = Some(Green);
    board.state = GameState::ResolvingMatches;
    board.resolve_step();
    assert_eq!(board.chain_count, 1);
    assert_eq!(board.score, 40);
    board.resolve_step();
    assert_eq!(board.cells[12][0], Some(Blue));
    assert_eq!(board.cells[12][3], Some(Green));
    assert_eq!(board.cells[11][3], Some(Blue));
    assert_eq!(board.chain_count, 1);
    assert_eq!(board.state, GameState::ResolvingMatches);
    board.resolve_step();
    assert_eq!(board.chain_count, 0);
    assert_eq!(board.score, 40);
    assert_eq!(board.state, GameState::Playing);
    assert!(board.active_piece.is_some());
}

#[test]
fn resolution_scores_the_second_link_eightfold() {
    let mut board = empty_board();
    for row in 10..13 {
        board.cells[row][0] = Some(Blue);
        board.cells[row][1] = Some(Red);
    }
    board.cells[9][1] = Some(Blue);
    board.cells[12][2] = Some(Red);
    board.cells[11][2] = Some(Green);
    board.state = GameState::ResolvingMatches;
    board.resolve_step_with((Purple, Purple));
    assert_eq!((board.chain_count, board.score), (1, 40));
    assert_eq!(board.cells[9][1], Some(Blue));
    assert_eq!(board.cells[11][2], Some(Green));
    board.resolve_step_with((Purple, Purple));
    assert_eq!(board.cells[12][1], Some(Blue));
    assert_eq!(board.cells[9][1], None);
    assert_eq!(board.cells[12][2], Some(Green));
    assert_eq!((board.chain_count, board.score), (1, 40));
    board.resolve_step_with((Purple, Purple));
    assert_eq!((board.chain_count, board.score), (2, 40 + 320));
    assert_eq!(board.cells[12][0], None);
    assert_eq!(board.cells[12][1], None);
    assert_eq!(board.state, GameState::ResolvingMatches);
    board.resolve_step_with((Purple, Purple));
    assert_eq!(board.state, GameState::Playing);
    assert_eq!((board.chain_count, board.score), (0, 360));
    assert_eq!(board.cells[12][2], Some(Green));
}

#[test]
fn resolution_of_a_stable_finished_game_changes_nothing() {
    let mut board = empty_board();
    board.cells[12][0] = Some(Red);
    board.state = GameState::GameOver;
    board.resolve_step();
    assert_eq!(board.state, GameState::GameOver);
    assert!(board.active_piece.is_none());
    assert_eq!(board.next_types, (Red, Blue));
}

#[test]
fn resolution_onto_a_blocked_spawn_cell_ends_the_game() {
    let mut board = empty_board();
    for row in 1..13 {
        board.cells[row][2] = Some(if row % 2 == 0 { Red } else { Blue });
    }
    board.state = GameState::ResolvingMatches;
    board.resolve_step();
    assert_eq!(board.state, GameState::GameOver);
    assert!(board.active_piece.is_none());
}
