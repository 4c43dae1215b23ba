//! Cross-checks on many generated boards: each operation against a plain
//! restatement of its rule, written here without regard for speed.

use std::collections::HashSet;

use puyo_core::board::{Board, GameState};
use puyo_core::palette::PuyoType;
use puyo_core::piece::ActivePuyo;
use puyo_core::replay::update_opponent_board;

type Cells = Vec<Vec<Option<PuyoType>>>;

/// A small deterministic generator, so that every run sees the same boards.
struct Dice(u64);

impl Dice {
    fn next(&mut self) -> u64 {
        self.0 = self.0.wrapping_mul(6364136223846793005).wrapping_add(1442695040888963407);
        self.0 >> 33
    }

    fn below(&mut self, bound: u64) -> u64 {
        self.next() % bound
    }

    fn colour(&mut self, colours: u64) -> PuyoType {
        PuyoType::from_u8(self.below(colours) as u8)
    }
}

fn generated_board(dice: &mut Dice, width: usize, height: usize, fill: u64, colours: u64) -> Board {
    let mut board = Board::with_preview(
        width,
        height,
        (dice.colour(5), dice.colour(5)),
        (dice.colour(5), dice.colour(5)),
    );
    for row in 0..height {
        for col in 0..width {
            if dice.below(100) < fill {
                board.cells[row][col] = Some(dice.colour(colours));
            }
        }
    }
    board
}

fn stacked(cells: &Cells, width: usize, height: usize) -> Cells {
    let mut out = vec![vec![None; width]; height];
    for col in 0..width {
        let puyos: Vec<PuyoType> = (0..height).filter_map(|row| cells[row][col]).collect();
        let gap = height - puyos.len();
        for (i, puyo) in puyos.iter().enumerate() {
            out[gap + i][col] = Some(*puyo);
        }
    }
    out
}

fn group_from(cells: &Cells, start: (usize, usize), seen: &mut HashSet<(usize, usize)>) -> Vec<(usize, usize)> {
    let colour = cells[start.0][start.1];
    let mut group = Vec::new();
    let mut stack = vec![start];
    while let Some((row, col)) = stack.pop() {
        if cells[row][col] != colour || !seen.insert((row, col)) {
            continue;
        }
        group.push((row, col));
        if row > 0 {
            stack.push((row - 1, col));
        }
        if row + 1 < cells.len() {
            stack.push((row + 1, col));
        }
        if col > 0 {
            stack.push((row, col - 1));
        }
        if col + 1 < cells[row].len() {
            stack.push((row, col + 1));
        }
    }
    group
}

/// Cells after one round of clears, and the score of the round at the given
/// chain count; none where nothing clears.
fn round_of_clears(cells: &Cells, chain_count: u32) -> Option<(Cells, i64)> {
    const CHAIN: [i64; 20] = [
        0, 0, 8, 16, 32, 64, 96, 128, 160, 192, 224, 256, 288, 320, 352, 384, 416, 448, 480, 512,
    ];
    const COLOUR: [i64; 6] = [0, 0, 3, 6, 12, 24];
    const GROUP: [i64; 8] = [0, 2, 3, 4, 5, 6, 7, 10];
    let mut seen = HashSet::new();
    let mut out = cells.clone();
    let mut colours = HashSet::new();
    let mut total = 0i64;
    let mut group_bonus = 0i64;
    for row in 0..cells.len() {
        for col in 0..cells[row].len() {
            if cells[row][col].is_none() || seen.contains(&(row, col)) {
                continue;
            }
            let group = group_from(cells, (row, col), &mut seen);
            if group.len() >= 4 && group.iter().any(|cell| cell.0 >= 1) {
                colours.insert(cells[row][col]);
                total += group.len() as i64;
                group_bonus += GROUP[(group.len() - 4).min(7)];
                for cell in group {
                    out[cell.0][cell.1] = None;
                }
            }
        }
    }
    if total == 0 {
        return None;
    }
    let sum = CHAIN[chain_count.min(19) as usize] + COLOUR[colours.len().min(5)] + group_bonus;
    Some((out, 10 * total * sum.clamp(1, 999)))
}

fn collides(board: &Board, row: i64, col: i64, rotation: usize) -> bool {
    let (dr, dc) = [(-1, 0), (0, 1), (1, 0), (0, -1)][rotation];
    [(row, col), (row + dr, col + dc)].iter().any(|&(r, c)| {
        c < 0
            || c >= board.width as i64
            || r >= board.height as i64
            || (r >= 0 && board.cells[r as usize][c as usize].is_some())
    })
}

#[test]
fn gravity_agrees_with_restacking_each_column() {
    let mut dice = Dice(7);
    for round in 0..400 {
        let (width, height) = if round % 4 == 0 { (3, 5) } else { (6, 13) };
        let mut board = generated_board(&mut dice, width, height, 10 + (round % 7) * 12, 5);
        let before = board.cells.clone();
        let expected = stacked(&before, width, height);
        let moved = board.apply_board_gravity();
        assert_eq!(board.cells, expected);
        assert_eq!(moved, before != expected);
        assert!(!board.apply_board_gravity());
        assert_eq!(board.cells, expected);
    }
}

#[test]
fn match_detection_agrees_with_a_plain_search() {
    let mut dice = Dice(11);
    let mut rounds_with_clears = 0;
    for round in 0..600 {
        let (width, height) = if round % 5 == 0 { (4, 4) } else { (6, 13) };
        let colours = 2 + (round % 4);
        let mut board = generated_board(&mut dice, width, height, 30 + (round % 6) * 12, colours);
        board.chain_count = dice.below(24) as u32;
        board.score = dice.below(100_000) as i32;
        let before = board.cells.clone();
        let score = board.score as i64;
        let chain = board.chain_count;
        let matched = board.check_matches();
        match round_of_clears(&before, chain + 1) {
            None => {
                assert!(!matched);
                assert_eq!(board.cells, before);
                assert_eq!(board.score as i64, score);
                assert_eq!(board.chain_count, chain);
            }
            Some((cells, gained)) => {
                rounds_with_clears += 1;
                assert!(matched);
                assert_eq!(board.cells, cells);
                assert_eq!(board.score as i64, score + gained);
                assert_eq!(board.chain_count, chain + 1);
            }
        }
        assert_eq!(board.state, GameState::Playing);
    }
    assert!(rounds_with_clears > 100);
}

#[test]
fn flood_fill_agrees_with_a_plain_search() {
    let mut dice = Dice(13);
    for _ in 0..200 {
        let board = generated_board(&mut dice, 6, 13, 70, 3);
        let mut visited = vec![vec![false; 6]; 13];
        let mut seen = HashSet::new();
        for row in 0..13 {
            for col in 0..6 {
                let was_marked = visited[row][col];
                let group = board.flood_fill(row, col, &mut visited);
                if board.cells[row][col].is_none() || was_marked {
                    assert!(group.is_empty());
                    continue;
                }
                let mut expected = group_from(&board.cells, (row, col), &mut seen);
                assert_eq!(group[0], (row, col));
                let mut found = group.clone();
                found.sort();
                expected.sort();
                assert_eq!(found, expected);
                assert!(group.iter().all(|cell| visited[cell.0][cell.1]));
            }
        }
    }
}

#[test]
fn moves_and_rotations_agree_with_the_ordered_probes() {
    let mut dice = Dice(17);
    let mut kicked = 0;
    for _ in 0..3000 {
        let mut board = generated_board(&mut dice, 6, 13, 35, 5);
        let row = dice.below(15) as i32 - 2;
        let col = dice.below(6) as i32;
        let rotation = dice.below(4) as usize;
        if collides(&board, row as i64, col as i64, rotation) {
            continue;
        }
        let piece = ActivePuyo {
            row,
            col,
            rotation,
            axis_type: PuyoType::Red,
            sat_type: PuyoType::Blue,
        };
        board.active_piece = Some(piece);

        let dx = if dice.below(2) == 0 { -1 } else { 1 };
        let mut shifted = board.clone();
        shifted.move_piece(dx);
        let expected_col = if collides(&board, row as i64, (col + dx) as i64, rotation) {
            col
        } else {
            col + dx
        };
        assert_eq!(shifted.active_piece, Some(ActivePuyo { col: expected_col, ..piece }));

        let direction = if dice.below(2) == 0 { 1 } else { 3 };
        let turned = (rotation + direction) % 4;
        let (r, c) = (row as i64, col as i64);
        let expected = if !collides(&board, r, c, turned) {
            ActivePuyo { rotation: turned, ..piece }
        } else if !collides(&board, r, c - 1, turned) {
            ActivePuyo { rotation: turned, col: col - 1, ..piece }
        } else if !collides(&board, r, c + 1, turned) {
            ActivePuyo { rotation: turned, col: col + 1, ..piece }
        } else if !collides(&board, r - 1, c, turned) {
            ActivePuyo { rotation: turned, row: row - 1, ..piece }
        } else if !collides(&board, r, c, (rotation + 2) % 4) {
            ActivePuyo { rotation: (rotation + 2) % 4, ..piece }
        } else {
            piece
        };
        if expected.row != row || expected.col != col {
            kicked += 1;
        }
        let mut rotated = board.clone();
        rotated.rotate_piece(direction);
        assert_eq!(rotated.active_piece, Some(expected));
        assert_eq!(rotated.cells, board.cells);
        assert!(!rotated.check_collision(&expected) || expected == piece);

        let mut dropped = board.clone();
        dropped.hard_drop();
        let mut landing = r;
        while !collides(&board, landing + 1, c, rotation) {
            landing += 1;
        }
        let ghost = board.get_ghost_piece().expect("a ghost");
        assert_eq!(ghost, ActivePuyo { row: landing as i32, ..piece });
        assert!(dropped.active_piece.is_none());
        let (dr, dc) = [(-1, 0), (0, 1), (1, 0), (0, -1)][rotation];
        let mut outside = false;
        for (cell, colour) in [((landing, c), PuyoType::Red), ((landing + dr, c + dc), PuyoType::Blue)] {
            if cell.0 >= 0 {
                assert_eq!(dropped.cells[cell.0 as usize][cell.1 as usize], Some(colour));
            } else {
                outside = true;
            }
        }
        let expected_state =
            if outside { GameState::GameOver } else { GameState::ResolvingMatches };
        assert_eq!(dropped.state, expected_state);
    }
    assert!(kicked > 50);
}

#[test]
fn board_copy_equals_the_board() {
    let mut dice = Dice(19);
    let mut board = generated_board(&mut dice, 6, 13, 50, 5);
    board.spawn_with((PuyoType::Red, PuyoType::Green));
    board.score = 77;
    board.lock_timer = 5;
    let copy = board.clone();
    assert_eq!(copy.cells, board.cells);
    assert_eq!(copy.active_piece, board.active_piece);
    assert_eq!(copy.next_types, board.next_types);
    assert_eq!(copy.next_next_types, board.next_next_types);
    assert_eq!((copy.width, copy.height), (board.width, board.height));
    assert_eq!((copy.score, copy.lock_timer), (77, 5));
    assert_eq!(copy.state, board.state);
    assert!(copy.is_well_formed() && board.is_well_formed());
}

#[test]
fn well_formedness_test_rejects_misshapen_boards() {
    let mut dice = Dice(23);
    let mut board = generated_board(&mut dice, 6, 13, 50, 5);
    assert!(board.is_well_formed());
    board.cells[4].pop();
    assert!(!board.is_well_formed());
    let mut board = generated_board(&mut dice, 6, 13, 50, 5);
    board.cells.pop();
    assert!(!board.is_well_formed());
    let mut board = generated_board(&mut dice, 6, 13, 50, 5);
    board.active_piece = Some(ActivePuyo {
        row: 3,
        col: 2,
        rotation: 4,
        axis_type: PuyoType::Red,
        sat_type: PuyoType::Blue,
    });
    assert!(!board.is_well_formed());
    board.active_piece = Some(ActivePuyo {
        row: i32::MAX,
        col: 2,
        rotation: 0,
        axis_type: PuyoType::Red,
        sat_type: PuyoType::Blue,
    });
    assert!(!board.is_well_formed());
}

#[test]
fn replay_agrees_with_resolving_by_hand() {
    let mut dice = Dice(29);
    let mut chains = 0;
    for round in 0..800 {
        let colours = 2 + (round % 3);
        let mut board = generated_board(&mut dice, 6, 13, 20 + (round % 5) * 10, colours);
        board.chain_count = 0;
        let col = dice.below(8) as i32 - 1;
        let rot = dice.below(4) as usize;
        let c1 = dice.below(colours) as u8;
        let c2 = dice.below(colours) as u8;
        let before = board.cells.clone();
        let blocked = collides(&board, 1, col as i64, rot);
        let mut landing = 1i64;
        if !blocked {
            while !collides(&board, landing + 1, col as i64, rot) {
                landing += 1;
            }
        }
        update_opponent_board(&mut board, col, rot, c1, c2);
        if blocked {
            assert_eq!(board.cells, before);
            assert_eq!((board.score, board.chain_count), (0, 0));
            continue;
        }
        let mut cells = before;
        let (dr, dc) = [(-1, 0), (0, 1), (1, 0), (0, -1)][rot];
        cells[landing as usize][col as usize] = Some(PuyoType::from_u8(c1));
        let sat = (landing + dr, col as i64 + dc);
        if sat.0 >= 0 {
            cells[sat.0 as usize][sat.1 as usize] = Some(PuyoType::from_u8(c2));
        }
        cells = stacked(&cells, 6, 13);
        let mut score = 0i64;
        let mut chain = 0u32;
        while let Some((cleared, gained)) = round_of_clears(&cells, chain + 1) {
            cells = stacked(&cleared, 6, 13);
            score += gained;
            chain += 1;
        }
        if chain >= 2 {
            chains += 1;
        }
        assert_eq!(board.cells, cells);
        assert_eq!(board.score as i64, score);
        assert_eq!(board.chain_count, chain);
        assert!(board.active_piece.is_none());
        assert_eq!(board.state, GameState::Playing);
    }
    assert!(chains > 5);
}

#[test]
fn resolution_steps_agree_with_resolving_by_hand() {
    let mut dice = Dice(31);
    for round in 0..300 {
        let colours = 2 + (round % 3);
        let mut board = generated_board(&mut dice, 6, 13, 20 + (round % 5) * 12, colours);
        board.state = GameState::ResolvingMatches;
        let mut cells = board.cells.clone();
        let mut score = 0i64;
        let mut chain = 0u32;
        let mut steps = 0;
        while board.state == GameState::ResolvingMatches {
            let settled = stacked(&cells, 6, 13);
            if settled != cells {
                cells = settled;
            } else if let Some((cleared, gained)) = round_of_clears(&cells, chain + 1) {
                cells = cleared;
                score += gained;
                chain += 1;
            } else {
                board.resolve_step_with((PuyoType::Red, PuyoType::Blue));
                assert_eq!(board.cells, cells);
                assert_eq!(board.score as i64, score);
                let spawn_free = cells[1][2].is_none() && cells[0][2].is_none();
                if spawn_free {
                    assert_eq!(board.state, GameState::Playing);
                    assert!(board.active_piece.is_some());
                    assert_eq!(board.chain_count, 0);
                } else {
                    assert_eq!(board.state, GameState::GameOver);
                    assert!(board.active_piece.is_none());
                    assert_eq!(board.chain_count, chain);
                }
                break;
            }
            board.resolve_step_with((PuyoType::Red, PuyoType::Blue));
            steps += 1;
            assert_eq!(board.cells, cells);
            assert_eq!(board.score as i64, score);
            assert_eq!(board.chain_count, chain);
            assert_eq!(board.state, GameState::ResolvingMatches);
            assert!(steps <= 2 * 78 + 1);
        }
    }
}
