//! The board: the settled grid, the falling piece, the preview queue, the
//! timers and the state of play; with its mathematical model, the collision
//! test, and spawning.

use crate::palette::PuyoType;
use crate::piece::{satellite_offset, ActivePuyo};
use crate::rules::{SPAWN_COL, SPAWN_ROW, UNREACHED_ROW};
use vstd::prelude::*;

verus! {

/// What the board is doing.
#[derive(Clone, Copy, Debug, PartialEq, Eq, Structural)]
pub enum GameState {
    Playing,
    ResolvingMatches,
    GameOver,
    Paused,
}

/// The settled cells as rows of optional colours, row 0 at the top.
pub type Grid = Seq<Seq<Option<PuyoType>>>;

/// The board. `cells` holds `height` rows of `width` cells each; the falling
/// piece is not part of `cells` until it locks.
#[derive(Debug)]
pub struct Board {
    pub width: usize,
    pub height: usize,
    pub cells: Vec<Vec<Option<PuyoType>>>,
    pub active_piece: Option<ActivePuyo>,
    pub next_types: (PuyoType, PuyoType),
    pub next_next_types: (PuyoType, PuyoType),
    pub score: i32,
    pub state: GameState,
    pub previous_state: Option<GameState>,
    pub lock_timer: u64,
    pub total_ground_timer: u64,
    pub is_touching_ground: bool,
    pub ground_move_count: u32,
    pub lowest_row_reached: i32,
    pub chain_count: u32,
}

/// The board as a mathematical value: the same fields, the cells as a
/// sequence of sequences.
#[verifier::ext_equal]
pub struct BoardView {
    pub width: nat,
    pub height: nat,
    pub grid: Grid,
    pub active_piece: Option<ActivePuyo>,
    pub next_types: (PuyoType, PuyoType),
    pub next_next_types: (PuyoType, PuyoType),
    pub score: i32,
    pub state: GameState,
    pub previous_state: Option<GameState>,
    pub lock_timer: u64,
    pub total_ground_timer: u64,
    pub is_touching_ground: bool,
    pub ground_move_count: u32,
    pub lowest_row_reached: i32,
    pub chain_count: u32,
}

/// The rows of a vector of vectors, each as a sequence.
pub open spec fn grid_of(cells: Seq<Vec<Option<PuyoType>>>) -> Grid {
    Seq::new(cells.len(), |r: int| cells[r]@)
}

/// The piece that spawning places: axis at the spawn cell, satellite above.
pub open spec fn spawn_piece_of(types: (PuyoType, PuyoType)) -> ActivePuyo {
    ActivePuyo { row: SPAWN_ROW, col: SPAWN_COL, rotation: 0, axis_type: types.0, sat_type: types.1 }
}

impl BoardView {
    /// The board at the start of a game: an empty grid of the given size, no
    /// piece, the given preview queue, in play, every counter at zero, and
    /// no row reached yet.
    pub open spec fn fresh(
        width: nat,
        height: nat,
        next_types: (PuyoType, PuyoType),
        next_next_types: (PuyoType, PuyoType),
    ) -> BoardView {
        BoardView {
            width,
            height,
            grid: Seq::new(height, |r: int| Seq::new(width, |c: int| None)),
            active_piece: None,
            next_types,
            next_next_types,
            score: 0,
            state: GameState::Playing,
            previous_state: None,
            lock_timer: 0,
            total_ground_timer: 0,
            is_touching_ground: false,
            ground_move_count: 0,
            lowest_row_reached: UNREACHED_ROW,
            chain_count: 0,
        }
    }

    /// The grid has `height` rows of `width` cells, both within reach of
    /// `i32` coordinates, and the falling piece, if any, is well formed.
    pub open spec fn wf(self) -> bool {
        &&& self.width <= i32::MAX
        &&& self.height <= i32::MAX
        &&& self.grid.len() == self.height
        &&& forall|r: int| 0 <= r < self.height ==> (#[trigger] self.grid[r]).len() == self.width
        &&& (self.active_piece matches Some(p) ==> p.wf())
    }

    /// A piece cell cannot be at (r, c): the column is outside the grid, the
    /// row is below the floor, or a settled puyo is there. Rows above the
    /// grid are always free.
    pub open spec fn blocked(self, r: int, c: int) -> bool {
        c < 0 || c >= self.width || r >= self.height || (r >= 0 && self.grid[r][c].is_some())
    }

    /// A piece with its axis at (row, col) and the given rotation collides:
    /// one of its two cells is blocked.
    pub open spec fn collides_at(self, row: int, col: int, rotation: int) -> bool {
        let off = satellite_offset(rotation);
        self.blocked(row, col) || self.blocked(row + off.0, col + off.1)
    }

    /// The piece collides where it stands.
    pub open spec fn collides(self, p: ActivePuyo) -> bool {
        self.collides_at(p.row as int, p.col as int, p.rotation as int)
    }

    /// The falling piece, if there is one, collides with nothing.
    pub open spec fn piece_fits(self) -> bool {
        self.active_piece matches Some(p) ==> !self.collides(p)
    }

    /// The row at which a piece that starts at `row` comes to rest when it
    /// descends one row at a time until the next row down collides.
    pub open spec fn landing_row(self, row: int, col: int, rotation: int) -> int
        decreases self.height - row,
    {
        if row >= self.height || self.collides_at(row + 1, col, rotation) {
            row
        } else {
            self.landing_row(row + 1, col, rotation)
        }
    }

    /// The row of the ghost of piece `p`: one above the first row, from the
    /// piece's own downward, at which the piece would collide.
    pub open spec fn ghost_row(self, p: ActivePuyo) -> int {
        if self.collides(p) {
            p.row - 1
        } else {
            self.landing_row(p.row as int, p.col as int, p.rotation as int)
        }
    }

    /// The board after a spawn that draws `fresh` as the new last pair of the
    /// preview queue. A blocked spawn cell ends the game and changes nothing
    /// else. Otherwise the queue advances; the piece appears, with every
    /// per-piece counter reset, unless its satellite cell is blocked, which
    /// ends the game as well.
    pub open spec fn spawned(self, fresh: (PuyoType, PuyoType)) -> BoardView {
        let piece = spawn_piece_of(self.next_types);
        if self.blocked(SPAWN_ROW as int, SPAWN_COL as int) {
            BoardView { state: GameState::GameOver, ..self }
        } else {
            let advanced = BoardView {
                next_types: self.next_next_types,
                next_next_types: fresh,
                ..self
            };
            if self.collides(piece) {
                BoardView { state: GameState::GameOver, ..advanced }
            } else {
                BoardView {
                    active_piece: Some(piece),
                    lowest_row_reached: SPAWN_ROW,
                    lock_timer: 0,
                    total_ground_timer: 0,
                    is_touching_ground: false,
                    ground_move_count: 0,
                    chain_count: 0,
                    ..advanced
                }
            }
        }
    }
}

impl View for Board {
    type V = BoardView;

    open spec fn view(&self) -> BoardView {
        BoardView {
            width: self.width as nat,
            height: self.height as nat,
            grid: grid_of(self.cells@),
            active_piece: self.active_piece,
            next_types: self.next_types,
            next_next_types: self.next_next_types,
            score: self.score,
            state: self.state,
            previous_state: self.previous_state,
            lock_timer: self.lock_timer,
            total_ground_timer: self.total_ground_timer,
            is_touching_ground: self.is_touching_ground,
            ground_move_count: self.ground_move_count,
            lowest_row_reached: self.lowest_row_reached,
            chain_count: self.chain_count,
        }
    }
}

/// An empty row of `width` cells.
fn empty_row(width: usize) -> (row: Vec<Option<PuyoType>>)
    ensures
        row@.len() == width,
        forall|c: int| 0 <= c < width ==> row@[c].is_none(),
{
    let mut row: Vec<Option<PuyoType>> = Vec::new();
    let mut c: usize = 0;
    while c < width
        invariant
            c <= width,
            row@.len() == c,
            forall|k: int| 0 <= k < c ==> row@[k].is_none(),
        decreases width - c,
    {
        row.push(None);
        c += 1;
    }
    row
}

/// A copy of the rows of a grid.
fn copy_cells(cells: &Vec<Vec<Option<PuyoType>>>) -> (copy: Vec<Vec<Option<PuyoType>>>)
    ensures
        grid_of(copy@) == grid_of(cells@),
{
    let mut copy: Vec<Vec<Option<PuyoType>>> = Vec::new();
    let mut r: usize = 0;
    while r < cells.len()
        invariant
            r <= cells@.len(),
            copy@.len() == r,
            forall|k: int| 0 <= k < r ==> (#[trigger] copy@[k])@ == cells@[k]@,
        decreases cells@.len() - r,
    {
        let mut row: Vec<Option<PuyoType>> = Vec::new();
        let mut c: usize = 0;
        while c < cells[r].len()
            invariant
                r < cells@.len(),
                c <= cells@[r as int]@.len(),
                row@.len() == c,
                forall|k: int| 0 <= k < c ==> row@[k] == cells@[r as int]@[k],
            decreases cells@[r as int]@.len() - c,
        {
            row.push(cells[r][c]);
            c += 1;
        }
        assert(row@ =~= cells@[r as int]@);
        copy.push(row);
        r += 1;
    }
    assert(grid_of(copy@) =~= grid_of(cells@));
    copy
}

impl Clone for Board {
    /// A copy of the board, equal to it field by field.
    fn clone(&self) -> (copy: Board)
        ensures
            copy@ == self@,
    {
        Board {
            width: self.width,
            height: self.height,
            cells: copy_cells(&self.cells),
            active_piece: self.active_piece,
            next_types: self.next_types,
            next_next_types: self.next_next_types,
            score: self.score,
            state: self.state,
            previous_state: self.previous_state,
            lock_timer: self.lock_timer,
            total_ground_timer: self.total_ground_timer,
            is_touching_ground: self.is_touching_ground,
            ground_move_count: self.ground_move_count,
            lowest_row_reached: self.lowest_row_reached,
            chain_count: self.chain_count,
        }
    }
}

impl Board {
    /// The board's model is well formed; see [`BoardView::wf`].
    pub open spec fn wf(&self) -> bool {
        self@.wf()
    }

    /// Whether the board is well formed, as [`Board::wf`] defines it. Every
    /// operation of the board keeps it so; the test is for boards whose
    /// fields were written from outside.
    pub fn is_well_formed(&self) -> (ok: bool)
        ensures
            ok == self.wf(),
    {
        if self.width > i32::MAX as usize || self.height > i32::MAX as usize {
            return false;
        }
        if self.cells.len() != self.height {
            return false;
        }
        let mut r: usize = 0;
        while r < self.height
            invariant
                r <= self.height,
                self.cells@.len() == self.height,
                forall|k: int| 0 <= k < r ==> (#[trigger] self@.grid[k]).len() == self.width,
            decreases self.height - r,
        {
            assert(self@.grid[r as int] == self.cells@[r as int]@);
            if self.cells[r].len() != self.width {
                return false;
            }
            r += 1;
        }
        match self.active_piece {
            None => true,
            Some(p) => p.rotation < 4 && i32::MIN < p.row && p.row < i32::MAX && i32::MIN < p.col
                && p.col < i32::MAX,
        }
    }

    /// An empty board of the given size, in play, without a piece, with the
    /// given preview queue: see [`BoardView::fresh`].
    pub fn with_preview(
        width: usize,
        height: usize,
        next_types: (PuyoType, PuyoType),
        next_next_types: (PuyoType, PuyoType),
    ) -> (board: Board)
        requires
            width <= i32::MAX,
            height <= i32::MAX,
        ensures
            board.wf(),
            board@ == BoardView::fresh(width as nat, height as nat, next_types, next_next_types),
    {
        let mut cells: Vec<Vec<Option<PuyoType>>> = Vec::new();
        let mut r: usize = 0;
        while r < height
            invariant
                r <= height,
                cells@.len() == r,
                forall|k: int| 0 <= k < r ==> (#[trigger] cells@[k])@.len() == width,
                forall|k: int, c: int|
                    0 <= k < r && 0 <= c < width ==> (#[trigger] cells@[k]@[c]).is_none(),
            decreases height - r,
        {
            cells.push(empty_row(width));
            r += 1;
        }
        let board = Board {
            width,
            height,
            cells,
            active_piece: None,
            next_types,
            next_next_types,
            score: 0,
            state: GameState::Playing,
            previous_state: None,
            lock_timer: 0,
            total_ground_timer: 0,
            is_touching_ground: false,
            ground_move_count: 0,
            lowest_row_reached: UNREACHED_ROW,
            chain_count: 0,
        };
        proof {
            let fresh = BoardView::fresh(width as nat, height as nat, next_types, next_next_types);
            assert(board@.grid =~= fresh.grid) by {
                assert forall|k: int| 0 <= k < height implies #[trigger] board@.grid[k]
                    =~= fresh.grid[k] by {
                    assert(board@.grid[k] == board.cells@[k]@);
                }
            }
        }
        board
    }

    /// An empty board of the given size, in play, without a piece, with a
    /// preview queue drawn at random. Whatever is drawn, the board is the
    /// one that [`BoardView::fresh`] gives for the pairs drawn.
    pub fn new(width: usize, height: usize) -> (board: Board)
        requires
            width <= i32::MAX,
            height <= i32::MAX,
        ensures
            board.wf(),
            exists|next_types: (PuyoType, PuyoType), next_next_types: (PuyoType, PuyoType)|
                board@ == #[trigger] BoardView::fresh(
                    width as nat,
                    height as nat,
                    next_types,
                    next_next_types,
                ),
    {
        let next_types = (PuyoType::random(), PuyoType::random());
        let next_next_types = (PuyoType::random(), PuyoType::random());
        Board::with_preview(width, height, next_types, next_next_types)
    }

    /// Whether a piece cell cannot be at (r, c).
    pub(crate) fn blocked(&self, r: i64, c: i64) -> (b: bool)
        requires
            self.wf(),
        ensures
            b == self@.blocked(r as int, c as int),
    {
        if c < 0 || c >= self.width as i64 || r >= self.height as i64 {
            return true;
        }
        if r >= 0 {
            assert(self@.grid[r as int] == self.cells@[r as int]@);
            self.cells[r as usize][c as usize].is_some()
        } else {
            false
        }
    }

    /// Whether a piece with its axis at (row, col) and the given rotation
    /// collides.
    pub(crate) fn collides_at(&self, row: i64, col: i64, rotation: usize) -> (b: bool)
        requires
            self.wf(),
            i32::MIN <= row <= i32::MAX,
            i32::MIN <= col <= i32::MAX,
        ensures
            b == self@.collides_at(row as int, col as int, rotation as int),
    {
        let (dr, dc): (i64, i64) = match rotation {
            1 => (0, 1),
            2 => (1, 0),
            3 => (0, -1),
            _ => (-1, 0),
        };
        self.blocked(row, col) || self.blocked(row + dr, col + dc)
    }

    /// The content of the cell (r, c) of the grid.
    pub(crate) fn cell(&self, r: usize, c: usize) -> (x: Option<PuyoType>)
        requires
            self.wf(),
            r < self.height,
            c < self.width,
        ensures
            x == self@.grid[r as int][c as int],
    {
        assert(self@.grid[r as int] == self.cells@[r as int]@);
        self.cells[r][c]
    }

    /// Sets the cell (r, c) of the grid to `x`.
    pub(crate) fn set_cell(&mut self, r: usize, c: usize, x: Option<PuyoType>)
        requires
            old(self).wf(),
            r < old(self).height,
            c < old(self).width,
        ensures
            final(self).wf(),
            final(self)@ == (BoardView { grid: final(self)@.grid, ..old(self)@ }),
            final(self)@.grid == old(self)@.grid.update(
                r as int,
                old(self)@.grid[r as int].update(c as int, x),
            ),
            final(self)@.grid[r as int][c as int] == x,
            forall|i: int, j: int|
                0 <= i < old(self).height && 0 <= j < old(self).width && (i != r || j != c)
                    ==> #[trigger] final(self)@.grid[i][j] == old(self)@.grid[i][j],
    {
        let ghost before = self@.grid;
        assert(before[r as int] == self.cells@[r as int]@);
        self.cells[r][c] = x;
        proof {
            let after = before.update(r as int, before[r as int].update(c as int, x));
            assert(self@.grid =~= after) by {
                assert forall|k: int| 0 <= k < before.len() implies #[trigger] self@.grid[k]
                    =~= after[k] by {
                    if k != r {
                        assert(self.cells@[k] == old(self).cells@[k]);
                        assert(before[k] == old(self).cells@[k]@);
                    }
                }
            }
            assert forall|k: int| 0 <= k < self@.height implies (#[trigger] self@.grid[k]).len()
                == self@.width by {
                assert(before[k].len() == self@.width);
            }
        }
    }

    /// The collision test: whether one of the two cells of `piece` is outside
    /// the grid's columns, below its floor, or on a settled puyo.
    pub fn check_collision(&self, piece: &ActivePuyo) -> (b: bool)
        requires
            self.wf(),
        ensures
            b == self@.collides(*piece),
    {
        self.collides_at(piece.row as i64, piece.col as i64, piece.rotation)
    }

    /// The ghost of the falling piece: the piece at the lowest row it can
    /// reach by descending where it is, or none where there is no piece. The
    /// board is not changed.
    pub fn get_ghost_piece(&self) -> (shadow: Option<ActivePuyo>)
        requires
            self.wf(),
        ensures
            match self.active_piece {
                None => shadow.is_none(),
                Some(p) => shadow == Some(ActivePuyo { row: self@.ghost_row(p) as i32, ..p }),
            },
            self.active_piece matches Some(p) ==> p.row - 1 <= self@.ghost_row(p) < i32::MAX,
    {
        let p = match self.active_piece {
            None => {
                return None;
            },
            Some(p) => p,
        };
        let col = p.col as i64;
        let mut row: i64 = p.row as i64;
        if self.collides_at(row, col, p.rotation) {
            return Some(ActivePuyo { row: p.row - 1, ..p });
        }
        while !self.collides_at(row + 1, col, p.rotation)
            invariant
                self.wf(),
                col == p.col,
                p.row <= row < self.height,
                self@.landing_row(row as int, col as int, p.rotation as int) == self@.landing_row(
                    p.row as int,
                    col as int,
                    p.rotation as int,
                ),
            decreases self.height - row,
        {
            row += 1;
        }
        Some(ActivePuyo { row: row as i32, ..p })
    }

    /// Spawns the next piece, with `fresh` as the pair that enters the
    /// preview queue: see [`BoardView::spawned`].
    pub fn spawn_with(&mut self, fresh: (PuyoType, PuyoType))
        requires
            old(self).wf(),
        ensures
            final(self).wf(),
            final(self)@ == old(self)@.spawned(fresh),
    {
        if self.blocked(SPAWN_ROW as i64, SPAWN_COL as i64) {
            self.state = GameState::GameOver;
            return;
        }
        let (c1, c2) = self.next_types;
        self.next_types = self.next_next_types;
        self.next_next_types = fresh;
        let new_piece = ActivePuyo {
            row: SPAWN_ROW,
            col: SPAWN_COL,
            rotation: 0,
            axis_type: c1,
            sat_type: c2,
        };
        if self.check_collision(&new_piece) {
            self.state = GameState::GameOver;
        } else {
            self.lowest_row_reached = new_piece.row;
            self.active_piece = Some(new_piece);
            self.lock_timer = 0;
            self.total_ground_timer = 0;
            self.is_touching_ground = false;
            self.ground_move_count = 0;
            self.chain_count = 0;
        }
    }

    /// Spawns the next piece and draws a new pair at random for the end of
    /// the preview queue. Whatever is drawn, the board is the one that
    /// [`BoardView::spawned`] gives for the pair drawn.
    pub fn spawn_piece(&mut self)
        requires
            old(self).wf(),
        ensures
            final(self).wf(),
            exists|fresh: (PuyoType, PuyoType)| final(self)@ == #[trigger] old(self)@.spawned(fresh),
    {
        let fresh = (PuyoType::random(), PuyoType::random());
        self.spawn_with(fresh);
    }
}

/// The landing row is the lowest row a piece can reach by descending: a
/// piece that collides with nothing at `row` collides with nothing at any row
/// from there to its landing row, and collides one row further down.
pub proof fn lemma_landing_row(b: BoardView, row: int, col: int, rotation: int)
    requires
        !b.collides_at(row, col, rotation),
    ensures
        row <= b.landing_row(row, col, rotation) < b.height,
        b.collides_at(b.landing_row(row, col, rotation) + 1, col, rotation),
        forall|r: int|
            row <= r <= b.landing_row(row, col, rotation) ==> !b.collides_at(r, col, rotation),
    decreases b.height - row,
{
    if !b.collides_at(row + 1, col, rotation) {
        lemma_landing_row(b, row + 1, col, rotation);
    }
}

/// The ghost of a piece that collides with nothing stands where the piece
/// would land, at or below the piece, and collides with nothing either.
pub proof fn lemma_ghost_rests(b: BoardView, p: ActivePuyo)
    requires
        !b.collides(p),
    ensures
        p.row <= b.ghost_row(p) < b.height,
        !b.collides_at(b.ghost_row(p), p.col as int, p.rotation as int),
        b.collides_at(b.ghost_row(p) + 1, p.col as int, p.rotation as int),
{
    lemma_landing_row(b, p.row as int, p.col as int, p.rotation as int);
}

} // verus!
