//! Moving the falling piece: sideways moves, rotation with its kicks, drops,
//! the lock delay, and the lock that commits the piece to the grid.

use crate::board::{Board, BoardView, GameState, Grid};
use crate::palette::PuyoType;
use crate::piece::ActivePuyo;
use crate::rules::{clip_u64, MAX_LOCK_DELAY_MOVES, MAX_LOCK_TIME, MAX_TOTAL_GROUND_TIME};
use vstd::prelude::*;

verus! {

/// The grid with a puyo of colour `t` written at cell `a`; the grid itself
/// where `a` is outside it.
pub open spec fn place(g: Grid, a: (int, int), t: PuyoType) -> Grid {
    if 0 <= a.0 < g.len() && 0 <= a.1 < g[a.0].len() {
        g.update(a.0, g[a.0].update(a.1, Some(t)))
    } else {
        g
    }
}

impl BoardView {
    /// Cell `a` lies within the grid.
    pub open spec fn in_grid(self, a: (int, int)) -> bool {
        0 <= a.0 < self.height && 0 <= a.1 < self.width
    }

    /// The lock delay reset rule, applied after a move or rotation that was
    /// taken: while the piece touches the ground and fewer than the allowed
    /// number of resets are used, the lock timer restarts and one more reset
    /// is used. Otherwise nothing changes.
    pub open spec fn lock_reset(self) -> BoardView {
        if self.is_touching_ground && self.ground_move_count < MAX_LOCK_DELAY_MOVES {
            BoardView {
                lock_timer: 0,
                ground_move_count: (self.ground_move_count + 1) as u32,
                ..self
            }
        } else {
            self
        }
    }

    /// The board after a sideways move by `dx` columns: the piece shifted and
    /// the reset rule applied where the shifted piece collides with nothing,
    /// the board unchanged where it collides or there is no piece.
    pub open spec fn moved(self, dx: int) -> BoardView {
        match self.active_piece {
            None => self,
            Some(p) => {
                if self.collides_at(p.row as int, p.col + dx, p.rotation as int) {
                    self
                } else {
                    BoardView {
                        active_piece: Some(ActivePuyo { col: (p.col + dx) as i32, ..p }),
                        ..self
                    }.lock_reset()
                }
            },
        }
    }

    /// Where piece `p` ends up when it is turned to `rotation`. Tried in this
    /// order, the first that collides with nothing wins: the turn in place;
    /// one column to the left; one column to the right; one row up; a half
    /// turn of the piece as it was, in place. Where all collide, the piece
    /// stays as it was.
    pub open spec fn kicked(self, p: ActivePuyo, rotation: usize) -> ActivePuyo {
        let half = ((p.rotation + 2) % 4) as usize;
        if !self.collides_at(p.row as int, p.col as int, rotation as int) {
            ActivePuyo { rotation, ..p }
        } else if !self.collides_at(p.row as int, p.col - 1, rotation as int) {
            ActivePuyo { rotation, col: (p.col - 1) as i32, ..p }
        } else if !self.collides_at(p.row as int, p.col + 1, rotation as int) {
            ActivePuyo { rotation, col: (p.col + 1) as i32, ..p }
        } else if !self.collides_at(p.row - 1, p.col as int, rotation as int) {
            ActivePuyo { rotation, row: (p.row - 1) as i32, ..p }
        } else if !self.collides_at(p.row as int, p.col as int, half as int) {
            ActivePuyo { rotation: half, ..p }
        } else {
            p
        }
    }

    /// The board after a rotation by `direction` quarter turns clockwise:
    /// the piece as `kicked` places it, and the reset rule applied where its
    /// rotation, column or row changed.
    pub open spec fn rotated(self, direction: usize) -> BoardView {
        match self.active_piece {
            None => self,
            Some(p) => {
                let q = self.kicked(p, ((p.rotation + direction) % 4) as usize);
                let placed = BoardView { active_piece: Some(q), ..self };
                if q.rotation != p.rotation || q.col != p.col || q.row != p.row {
                    placed.lock_reset()
                } else {
                    placed
                }
            },
        }
    }

    /// The board after a drop by one row: the piece one row down, off the
    /// ground, with the lock timer at zero, where that row is free; the piece
    /// where it was, on the ground, where it is not.
    pub open spec fn dropped(self) -> BoardView {
        match self.active_piece {
            None => self,
            Some(p) => {
                if self.collides_at(p.row + 1, p.col as int, p.rotation as int) {
                    BoardView { is_touching_ground: true, ..self }
                } else {
                    BoardView {
                        active_piece: Some(ActivePuyo { row: (p.row + 1) as i32, ..p }),
                        is_touching_ground: false,
                        lock_timer: 0,
                        ..self
                    }
                }
            },
        }
    }

    /// The board after the piece has locked: each cell of the piece that
    /// lies within the grid holds its colour, the piece is gone, and matches
    /// are to be resolved; but where a cell of the piece lies outside the
    /// grid, the game is over.
    pub open spec fn locked(self) -> BoardView {
        match self.active_piece {
            None => self,
            Some(p) => BoardView {
                grid: place(place(self.grid, p.axis(), p.axis_type), p.satellite(), p.sat_type),
                active_piece: None,
                state: if self.in_grid(p.axis()) && self.in_grid(p.satellite()) {
                    GameState::ResolvingMatches
                } else {
                    GameState::GameOver
                },
                ..self
            },
        }
    }

    /// The board after a hard drop: the piece taken down to its landing row
    /// and locked there at once.
    pub open spec fn hard_dropped(self) -> BoardView {
        match self.active_piece {
            None => self,
            Some(p) => BoardView {
                active_piece: Some(
                    ActivePuyo {
                        row: self.landing_row(p.row as int, p.col as int, p.rotation as int) as i32,
                        ..p
                    },
                ),
                ..self
            }.locked(),
        }
    }

    /// The board once a piece at a row below the lowest reached so far has
    /// been noted: that row is the new mark, and the ground timer and the
    /// resets used start afresh.
    pub open spec fn depth_noted(self) -> BoardView {
        match self.active_piece {
            Some(p) if p.row > self.lowest_row_reached => BoardView {
                lowest_row_reached: p.row,
                total_ground_timer: 0,
                ground_move_count: 0,
                ..self
            },
            _ => self,
        }
    }

    /// The piece rests on something: the row below it is not free.
    pub open spec fn grounded(self) -> bool {
        self.active_piece matches Some(p) && self.collides_at(
            p.row + 1,
            p.col as int,
            p.rotation as int,
        )
    }

    /// The board with `delta_ms` more milliseconds on both ground timers
    /// (each stops at the largest `u64`), the piece on the ground.
    pub open spec fn ground_time_added(self, delta_ms: u64) -> BoardView {
        BoardView {
            is_touching_ground: true,
            lock_timer: clip_u64(self.lock_timer + delta_ms),
            total_ground_timer: clip_u64(self.total_ground_timer + delta_ms),
            ..self
        }
    }

    /// One of the two ground timers is past its limit.
    pub open spec fn lock_due(self) -> bool {
        self.lock_timer > MAX_LOCK_TIME || self.total_ground_timer > MAX_TOTAL_GROUND_TIME
    }

    /// Whether a frame of `delta_ms` milliseconds locks the piece.
    pub open spec fn update_locks(self, delta_ms: u64) -> bool {
        self.grounded() && self.depth_noted().ground_time_added(delta_ms).lock_due()
    }

    /// The board after a frame of `delta_ms` milliseconds. A new lowest row
    /// is noted first. A piece in the air is off the ground with the lock
    /// timer at zero. A piece on the ground gains the time on both timers
    /// and locks once either is past its limit.
    pub open spec fn updated(self, delta_ms: u64) -> BoardView {
        if self.active_piece.is_none() {
            self
        } else if self.grounded() {
            let timed = self.depth_noted().ground_time_added(delta_ms);
            if timed.lock_due() {
                timed.locked()
            } else {
                timed
            }
        } else {
            BoardView { is_touching_ground: false, lock_timer: 0, ..self.depth_noted() }
        }
    }
}

impl Board {
    /// Applies the lock delay reset rule: see [`BoardView::lock_reset`].
    pub fn reset_lock_if_needed(&mut self)
        ensures
            final(self)@ == old(self)@.lock_reset(),
    {
        if self.is_touching_ground && self.ground_move_count < MAX_LOCK_DELAY_MOVES {
            self.lock_timer = 0;
            self.ground_move_count += 1;
        }
    }

    /// Moves the piece `dx` columns sideways if it can go there: see
    /// [`BoardView::moved`]. No kick is tried.
    pub fn move_piece(&mut self, dx: i32)
        requires
            old(self).wf(),
        ensures
            final(self).wf(),
            final(self)@ == old(self)@.moved(dx as int),
    {
        if let Some(p) = self.active_piece {
            let col: i64 = p.col as i64 + dx as i64;
            if col < i32::MIN as i64 || col > i32::MAX as i64 {
                return;
            }
            if !self.collides_at(p.row as i64, col, p.rotation) {
                self.active_piece = Some(ActivePuyo { col: col as i32, ..p });
                self.reset_lock_if_needed();
            }
        }
    }

    /// Turns the piece by `direction` quarter turns clockwise, with the
    /// ordered kicks: see [`BoardView::rotated`].
    pub fn rotate_piece(&mut self, direction: usize)
        requires
            old(self).wf(),
        ensures
            final(self).wf(),
            final(self)@ == old(self)@.rotated(direction),
    {
        if let Some(p) = self.active_piece {
            let row = p.row as i64;
            let col = p.col as i64;
            let rotation = (p.rotation + direction % 4) % 4;
            assert(rotation == (p.rotation + direction) % 4);
            let q = if !self.collides_at(row, col, rotation) {
                ActivePuyo { rotation, ..p }
            } else if !self.collides_at(row, col - 1, rotation) {
                ActivePuyo { rotation, col: p.col - 1, ..p }
            } else if !self.collides_at(row, col + 1, rotation) {
                ActivePuyo { rotation, col: p.col + 1, ..p }
            } else if !self.collides_at(row - 1, col, rotation) {
                ActivePuyo { rotation, row: p.row - 1, ..p }
            } else {
                let half = (p.rotation + 2) % 4;
                if !self.collides_at(row, col, half) {
                    ActivePuyo { rotation: half, ..p }
                } else {
                    p
                }
            };
            assert(q == self@.kicked(p, rotation));
            self.active_piece = Some(q);
            if q.rotation != p.rotation || q.col != p.col || q.row != p.row {
                self.reset_lock_if_needed();
            }
        }
    }

    /// Commits the piece to the grid: see [`BoardView::locked`].
    pub fn lock_piece(&mut self)
        requires
            old(self).wf(),
        ensures
            final(self).wf(),
            final(self)@ == old(self)@.locked(),
    {
        if let Some(p) = self.active_piece {
            let ghost before = self@;
            let cells = p.get_positions();
            let axis_in = self.write_cell(cells[0].0, cells[0].1, p.axis_type);
            let sat_in = self.write_cell(cells[1].0, cells[1].1, p.sat_type);
            self.active_piece = None;
            self.state = if axis_in && sat_in {
                GameState::ResolvingMatches
            } else {
                GameState::GameOver
            };
            assert(self@.grid == place(
                place(before.grid, p.axis(), p.axis_type),
                p.satellite(),
                p.sat_type,
            ));
        }
    }

    /// Writes a puyo of colour `t` at (r, c) where that cell is within the
    /// grid, and says whether it is.
    pub(crate) fn write_cell(&mut self, r: i32, c: i32, t: PuyoType) -> (inside: bool)
        requires
            old(self).wf(),
        ensures
            final(self).wf(),
            inside == old(self)@.in_grid((r as int, c as int)),
            final(self)@ == (BoardView {
                grid: place(old(self)@.grid, (r as int, c as int), t),
                ..old(self)@
            }),
    {
        if r >= 0 && c >= 0 && (r as usize) < self.height && (c as usize) < self.width {
            self.set_cell(r as usize, c as usize, Some(t));
            true
        } else {
            false
        }
    }

    /// Takes the piece down to its landing row and locks it there at once:
    /// see [`BoardView::hard_dropped`].
    pub fn hard_drop(&mut self)
        requires
            old(self).wf(),
        ensures
            final(self).wf(),
            final(self)@ == old(self)@.hard_dropped(),
    {
        if let Some(p) = self.active_piece {
            let col = p.col as i64;
            let mut row: i64 = p.row as i64;
            while !self.collides_at(row + 1, col, p.rotation)
                invariant
                    self.wf(),
                    self@ == old(self)@,
                    col == p.col,
                    p.row <= row < i32::MAX,
                    row == p.row || row < self.height,
                    self@.landing_row(row as int, col as int, p.rotation as int)
                        == self@.landing_row(p.row as int, col as int, p.rotation as int),
                decreases self.height - row,
            {
                row += 1;
            }
            self.active_piece = Some(ActivePuyo { row: row as i32, ..p });
            self.lock_piece();
        }
    }

    /// Takes the piece down one row if that row is free: see
    /// [`BoardView::dropped`]. The piece does not lock.
    pub fn force_drop(&mut self)
        requires
            old(self).wf(),
        ensures
            final(self).wf(),
            final(self)@ == old(self)@.dropped(),
    {
        if let Some(p) = self.active_piece {
            if self.collides_at(p.row as i64 + 1, p.col as i64, p.rotation) {
                self.is_touching_ground = true;
            } else {
                self.active_piece = Some(ActivePuyo { row: p.row + 1, ..p });
                self.is_touching_ground = false;
                self.lock_timer = 0;
            }
        }
    }

    /// One frame of `delta_ms` milliseconds: see [`BoardView::updated`].
    /// Returns whether the piece locked in this frame.
    pub fn update_logic(&mut self, delta_ms: u64) -> (locked: bool)
        requires
            old(self).wf(),
        ensures
            final(self).wf(),
            final(self)@ == old(self)@.updated(delta_ms),
            locked == old(self)@.update_locks(delta_ms),
    {
        let mut locked = false;
        if let Some(p) = self.active_piece {
            if p.row > self.lowest_row_reached {
                self.lowest_row_reached = p.row;
                self.total_ground_timer = 0;
                self.ground_move_count = 0;
            }
            if self.collides_at(p.row as i64 + 1, p.col as i64, p.rotation) {
                self.is_touching_ground = true;
                self.lock_timer = self.lock_timer.saturating_add(delta_ms);
                self.total_ground_timer = self.total_ground_timer.saturating_add(delta_ms);
                if self.lock_timer > MAX_LOCK_TIME || self.total_ground_timer
                    > MAX_TOTAL_GROUND_TIME {
                    self.lock_piece();
                    locked = true;
                }
            } else {
                self.is_touching_ground = false;
                self.lock_timer = 0;
            }
        }
        locked
    }
}

impl BoardView {
    /// The board after the reset rule has been applied `n` times in a row,
    /// the lock timer standing at `timer` before each.
    pub open spec fn resets(self, n: nat, timer: u64) -> BoardView
        decreases n,
    {
        if n == 0 {
            self
        } else {
            BoardView { lock_timer: timer, ..self.resets((n - 1) as nat, timer) }.lock_reset()
        }
    }
}

/// Where a rotation takes the piece depends on the grid and the piece alone:
/// two boards that agree on both agree on the piece after the same rotation,
/// whatever their timers, scores and states.
pub proof fn lemma_rotation_repeatable(a: BoardView, b: BoardView, direction: usize)
    requires
        a.width == b.width,
        a.height == b.height,
        a.grid == b.grid,
        a.active_piece == b.active_piece,
    ensures
        a.rotated(direction).active_piece == b.rotated(direction).active_piece,
        a.rotated(direction).grid == a.grid,
{
}

/// A rotation by four quarter turns more is the same rotation.
pub proof fn lemma_rotation_wraps(b: BoardView, direction: usize)
    requires
        direction + 4 <= usize::MAX,
    ensures
        b.rotated((direction + 4) as usize) == b.rotated(direction),
{
}

/// A piece that collides with nothing still collides with nothing after a
/// move, a rotation, a drop or a frame; none of them changes the grid while
/// the piece is there, and each leaves the board well formed.
pub proof fn lemma_piece_stays_clear(b: BoardView, dx: int, direction: usize, delta_ms: u64)
    requires
        b.wf(),
        b.piece_fits(),
    ensures
        b.moved(dx).piece_fits() && b.moved(dx).wf() && b.moved(dx).grid == b.grid,
        b.rotated(direction).piece_fits() && b.rotated(direction).wf() && b.rotated(direction).grid
            == b.grid,
        b.dropped().piece_fits() && b.dropped().wf() && b.dropped().grid == b.grid,
        b.updated(delta_ms).piece_fits(),
        b.updated(delta_ms).active_piece.is_some() ==> b.updated(delta_ms).grid == b.grid,
{
}

/// The reset rule at work on a move that is taken while the piece is on the
/// ground: with resets left, the lock timer restarts and one more reset is
/// used; with none left, the lock timer runs on. Neither the ground timer
/// nor the lowest row reached changes.
pub proof fn lemma_grounded_move(b: BoardView, dx: int)
    requires
        b.is_touching_ground,
        b.active_piece matches Some(p) && !b.collides_at(p.row as int, p.col + dx, p.rotation as int),
    ensures
        b.ground_move_count < MAX_LOCK_DELAY_MOVES ==> b.moved(dx).lock_timer == 0 && b.moved(
            dx,
        ).ground_move_count == b.ground_move_count + 1,
        b.ground_move_count >= MAX_LOCK_DELAY_MOVES ==> b.moved(dx).lock_timer == b.lock_timer
            && b.moved(dx).ground_move_count == b.ground_move_count,
        b.moved(dx).total_ground_timer == b.total_ground_timer,
        b.moved(dx).lowest_row_reached == b.lowest_row_reached,
{
}

/// Neither a move nor a rotation, taken or not, touches the ground timer or
/// the lowest row reached.
pub proof fn lemma_ground_timer_survives(b: BoardView, dx: int, direction: usize)
    ensures
        b.moved(dx).total_ground_timer == b.total_ground_timer,
        b.moved(dx).lowest_row_reached == b.lowest_row_reached,
        b.rotated(direction).total_ground_timer == b.total_ground_timer,
        b.rotated(direction).lowest_row_reached == b.lowest_row_reached,
{
}

/// The budget of resets: starting with none used, on the ground, the first
/// fifteen applications of the reset rule each restart the lock timer, and
/// no later one does.
pub proof fn lemma_reset_budget(b: BoardView, n: nat, timer: u64)
    requires
        b.is_touching_ground,
        b.ground_move_count == 0,
    ensures
        b.resets(n, timer).is_touching_ground,
        b.resets(n, timer).ground_move_count == if n < MAX_LOCK_DELAY_MOVES {
            n
        } else {
            MAX_LOCK_DELAY_MOVES as nat
        },
        1 <= n <= MAX_LOCK_DELAY_MOVES ==> b.resets(n, timer).lock_timer == 0,
        n > MAX_LOCK_DELAY_MOVES ==> b.resets(n, timer).lock_timer == timer,
    decreases n,
{
    if n > 0 {
        lemma_reset_budget(b, (n - 1) as nat, timer);
    }
}

/// The hard cap: a piece on the ground that has reached no new depth locks
/// in the frame that takes the ground timer past its limit, wherever the
/// lock timer stands.
pub proof fn lemma_ground_cap_locks(b: BoardView, delta_ms: u64)
    requires
        b.grounded(),
        b.active_piece matches Some(p) && p.row <= b.lowest_row_reached,
        b.total_ground_timer + delta_ms > MAX_TOTAL_GROUND_TIME,
    ensures
        b.update_locks(delta_ms),
        b.updated(delta_ms).active_piece.is_none(),
        b.updated(delta_ms).state == GameState::ResolvingMatches || b.updated(delta_ms).state
            == GameState::GameOver,
{
}

/// A frame locks the piece only when it is on the ground, and then exactly
/// when one of the two timers, with the frame's time added, is past its
/// limit; a piece in the air never locks and its lock timer is zero.
pub proof fn lemma_frame_outcomes(b: BoardView, delta_ms: u64)
    requires
        b.active_piece.is_some(),
    ensures
        !b.grounded() ==> !b.update_locks(delta_ms) && b.updated(delta_ms).lock_timer == 0
            && !b.updated(delta_ms).is_touching_ground && b.updated(delta_ms).active_piece
            == b.active_piece,
        b.update_locks(delta_ms) <==> b.updated(delta_ms).active_piece.is_none(),
{
}

/// The outcome of a rotation with its kicks is the piece as it was or a
/// piece that collides with nothing; its colours never change, and it moves
/// by at most one column or one row. Where the turn in place is free, it is
/// taken as it is.
pub proof fn lemma_kick_outcome(b: BoardView, p: ActivePuyo, rotation: usize)
    requires
        p.wf(),
        rotation < 4,
    ensures
        b.kicked(p, rotation) == p || !b.collides(b.kicked(p, rotation)),
        b.kicked(p, rotation).axis_type == p.axis_type,
        b.kicked(p, rotation).sat_type == p.sat_type,
        p.col - 1 <= b.kicked(p, rotation).col <= p.col + 1,
        p.row - 1 <= b.kicked(p, rotation).row <= p.row,
        !b.collides_at(p.row as int, p.col as int, rotation as int) ==> b.kicked(p, rotation)
            == (ActivePuyo { rotation, ..p }),
{
}

/// A hard drop always ends the piece: it is locked into the grid, and the
/// board resolves matches, or the game is over where a cell of the piece was
/// left outside the grid.
pub proof fn lemma_hard_drop_locks(b: BoardView)
    requires
        b.active_piece.is_some(),
    ensures
        b.hard_dropped().active_piece.is_none(),
        b.hard_dropped().state == GameState::ResolvingMatches || b.hard_dropped().state
            == GameState::GameOver,
{
}

/// A lock writes the two colours of the piece and touches no other cell.
pub proof fn lemma_lock_writes_piece(b: BoardView, p: ActivePuyo, a: (int, int))
    requires
        b.wf(),
        b.active_piece == Some(p),
        b.in_grid(a),
    ensures
        b.locked().grid.len() == b.height,
        b.locked().grid[a.0].len() == b.width,
        a == p.satellite() ==> b.locked().grid[a.0][a.1] == Some(p.sat_type),
        a == p.axis() ==> b.locked().grid[a.0][a.1] == Some(p.axis_type),
        a != p.axis() && a != p.satellite() ==> b.locked().grid[a.0][a.1] == b.grid[a.0][a.1],
{
}

} // verus!
