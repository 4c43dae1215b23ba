//! Replaying a committed placement on a mirrored board: the piece is dropped
//! in its column, and the grid is resolved until it is stable.

use crate::board::{lemma_landing_row, Board, BoardView};
use crate::gravity::{
    floating, lemma_gravity_keeps_count, lemma_settled_grid_rests, puyo_count, rectangular,
};
use crate::matches::{any_clears, cleared, lemma_clear_lowers_count};
use crate::motion::place;
use crate::palette::PuyoType;
use crate::piece::{satellite_offset, ActivePuyo};
use crate::rules::SPAWN_ROW;
use vstd::prelude::*;

verus! {

impl BoardView {
    /// The board with a piece of the given column, rotation and colours
    /// dropped from the spawn row and written where it lands; cells of the
    /// piece that land outside the grid are left out. Nothing but the grid
    /// changes.
    pub open spec fn placed(self, col: int, rotation: int, axis_type: PuyoType, sat_type: PuyoType) -> BoardView {
        let row = self.landing_row(SPAWN_ROW as int, col, rotation);
        let off = satellite_offset(rotation);
        BoardView {
            grid: place(place(self.grid, (row, col), axis_type), (row + off.0, col + off.1), sat_type),
            ..self
        }
    }

    /// The board after the piece has been placed and the grid has settled.
    pub open spec fn landed(self, col: int, rotation: int, axis_type: PuyoType, sat_type: PuyoType) -> BoardView {
        self.placed(col, rotation, axis_type, sat_type).fallen()
    }

    /// The board after `rounds` rounds of clears, each followed by gravity.
    pub open spec fn cascaded(self, rounds: nat) -> BoardView
        decreases rounds,
    {
        if rounds == 0 {
            self
        } else {
            self.cascaded((rounds - 1) as nat).matched().fallen()
        }
    }
}

/// Replays on `board` the placement of a piece that the other side has
/// locked: column `col`, rotation `rot`, colours by palette position.
///
/// Where the piece collides at the spawn row of that column, nothing
/// happens. Otherwise the piece lands as [`BoardView::placed`] says, the
/// grid settles, and rounds of clears, each followed by gravity, go on
/// exactly until nothing clears any more; the grid is then stable.
pub fn update_opponent_board(board: &mut Board, col: i32, rot: usize, c1: u8, c2: u8)
    requires
        old(board).wf(),
    ensures
        final(board).wf(),
        old(board)@.collides_at(SPAWN_ROW as int, col as int, rot as int) ==> final(board)@ == old(
            board,
        )@,
        !old(board)@.collides_at(SPAWN_ROW as int, col as int, rot as int) ==> exists|rounds: nat|
            {
                &&& final(board)@ == #[trigger] old(board)@.landed(
                    col as int,
                    rot as int,
                    PuyoType::of_index(c1 as nat),
                    PuyoType::of_index(c2 as nat),
                ).cascaded(rounds)
                &&& forall|k: nat|
                    k < rounds ==> any_clears(
                        #[trigger] old(board)@.landed(
                            col as int,
                            rot as int,
                            PuyoType::of_index(c1 as nat),
                            PuyoType::of_index(c2 as nat),
                        ).cascaded(k).grid,
                    )
                &&& final(board)@.stable()
            },
{
    if board.collides_at(SPAWN_ROW as i64, col as i64, rot) {
        return;
    }
    let axis_type = PuyoType::from_u8(c1);
    let sat_type = PuyoType::from_u8(c2);
    let mut row: i64 = SPAWN_ROW as i64;
    while !board.collides_at(row + 1, col as i64, rot)
        invariant
            board.wf(),
            board@ == old(board)@,
            SPAWN_ROW <= row < board.height,
            0 <= col < board.width,
            board@.landing_row(row as int, col as int, rot as int) == board@.landing_row(
                SPAWN_ROW as int,
                col as int,
                rot as int,
            ),
        decreases board.height - row,
    {
        row += 1;
    }
    let (dr, dc): (i32, i32) = match rot {
        1 => (0, 1),
        2 => (1, 0),
        3 => (0, -1),
        _ => (-1, 0),
    };
    board.write_cell(row as i32, col, axis_type);
    board.write_cell(row as i32 + dr, col + dc, sat_type);
    proof {
        assert(rectangular(board@.grid, board@.width));
        lemma_settled_grid_rests(board@.grid, board@.width);
    }
    board.apply_board_gravity();
    let ghost landed = board@;
    let ghost mut rounds: nat = 0;
    loop
        invariant
            board.wf(),
            board@ == landed.cascaded(rounds),
            forall|k: nat| k < rounds ==> any_clears(#[trigger] landed.cascaded(k).grid),
            !floating(board@.grid),
        ensures
            board@.stable(),
        decreases puyo_count(board@.grid, board@.width),
    {
        let ghost g = board@.grid;
        let ghost width = board@.width;
        let matched = board.check_matches();
        if !matched {
            break;
        }
        proof {
            assert(rectangular(g, width));
            lemma_clear_lowers_count(g, width);
            lemma_gravity_keeps_count(cleared(g), width);
            lemma_settled_grid_rests(cleared(g), width);
        }
        board.apply_board_gravity();
        proof {
            rounds = rounds + 1;
        }
    }
}

/// A replay mirrors a hard drop: where a piece at the spawn row collides
/// with nothing, the grid that a hard drop of it leaves is the grid that the
/// replay of its column, rotation and colours places.
pub proof fn lemma_replay_mirrors_hard_drop(b: BoardView, p: ActivePuyo)
    requires
        b.wf(),
        b.active_piece == Some(p),
        p.row == SPAWN_ROW,
        !b.collides(p),
    ensures
        b.hard_dropped().grid == b.placed(
            p.col as int,
            p.rotation as int,
            p.axis_type,
            p.sat_type,
        ).grid,
{
    lemma_landing_row(b, p.row as int, p.col as int, p.rotation as int);
}

} // verus!
