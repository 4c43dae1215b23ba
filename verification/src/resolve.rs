//! The resolution step that follows a lock (settle, or clear, or go on with
//! the next piece), and the pause.

use crate::board::{spawn_piece_of, Board, BoardView, GameState};
use crate::gravity::{
    floating, lemma_gravity_keeps_count, lemma_settled_grid_rests, lemma_settled_grid_stays,
    puyo_count, rectangular,
};
use crate::matches::{any_clears, lemma_clear_lowers_count};
use crate::palette::PuyoType;
use vstd::prelude::*;

verus! {

impl BoardView {
    /// Neither gravity nor match detection would change the grid.
    pub open spec fn stable(self) -> bool {
        !floating(self.grid) && !any_clears(self.grid)
    }

    /// The board after one resolution step, exactly one of three. Where a
    /// puyo floats, the grid settles, and that is all. Else, where a group
    /// clears, the round of clears takes place, and that is all. Else the
    /// board is stable: unless the game is over, play goes on and the next
    /// piece spawns, with `fresh` entering the preview queue.
    pub open spec fn resolved(self, fresh: (PuyoType, PuyoType)) -> BoardView {
        if floating(self.grid) {
            self.fallen()
        } else if any_clears(self.grid) {
            self.matched()
        } else if self.state != GameState::GameOver {
            BoardView { state: GameState::Playing, ..self }.spawned(fresh)
        } else {
            self
        }
    }

    /// The board after the part of a resolution step that works on the grid:
    /// the grid settled where a puyo floats, a round of clears otherwise.
    pub open spec fn settled_or_cleared(self) -> BoardView {
        if floating(self.grid) {
            self.fallen()
        } else {
            self.matched()
        }
    }

    /// The board after `steps` resolution steps that work on the grid.
    pub open spec fn worked(self, steps: nat) -> BoardView
        decreases steps,
    {
        if steps == 0 {
            self
        } else {
            self.settled_or_cleared().worked((steps - 1) as nat)
        }
    }

    /// The board after the pause key. A paused board returns to the state
    /// saved when it paused (to play, where none is saved) and forgets it. A
    /// finished game stays as it is. Any other board saves its state and
    /// pauses.
    pub open spec fn toggled(self) -> BoardView {
        match self.state {
            GameState::Paused => BoardView {
                state: match self.previous_state {
                    Some(saved) => saved,
                    None => GameState::Playing,
                },
                previous_state: None,
                ..self
            },
            GameState::GameOver => self,
            _ => BoardView { previous_state: Some(self.state), state: GameState::Paused, ..self },
        }
    }
}

impl Board {
    /// Settles the grid or, where nothing floats, clears what matches.
    /// Returns whether the grid was stable, so that neither took place.
    fn settle_or_clear(&mut self) -> (stable: bool)
        requires
            old(self).wf(),
        ensures
            final(self).wf(),
            stable == old(self)@.stable(),
            final(self)@ == if floating(old(self)@.grid) {
                old(self)@.fallen()
            } else {
                old(self)@.matched()
            },
    {
        proof {
            assert(rectangular(self@.grid, self@.width));
            if !floating(self@.grid) {
                lemma_settled_grid_stays(self@.grid, self@.width);
            }
        }
        let fell = self.apply_board_gravity();
        if fell {
            return false;
        }
        let matched = self.check_matches();
        !matched
    }

    /// One resolution step, with `fresh` as the pair that enters the preview
    /// queue if a piece spawns: see [`BoardView::resolved`].
    pub fn resolve_step_with(&mut self, fresh: (PuyoType, PuyoType))
        requires
            old(self).wf(),
        ensures
            final(self).wf(),
            final(self)@ == old(self)@.resolved(fresh),
    {
        let stable = self.settle_or_clear();
        if stable && self.state != GameState::GameOver {
            self.state = GameState::Playing;
            self.spawn_with(fresh);
        }
    }

    /// One resolution step. Where the next piece spawns, a new pair is drawn
    /// at random for the end of the preview queue; whatever is drawn, the
    /// board is the one that [`BoardView::resolved`] gives for the pair
    /// drawn.
    pub fn resolve_step(&mut self)
        requires
            old(self).wf(),
        ensures
            final(self).wf(),
            exists|fresh: (PuyoType, PuyoType)| final(self)@ == #[trigger] old(self)@.resolved(fresh),
    {
        let ghost before = self@;
        let stable = self.settle_or_clear();
        if stable && self.state != GameState::GameOver {
            self.state = GameState::Playing;
            let ghost playing = self@;
            self.spawn_piece();
            proof {
                let fresh = choose|fresh: (PuyoType, PuyoType)|
                    self@ == #[trigger] playing.spawned(fresh);
                assert(self@ == before.resolved(fresh));
            }
        } else {
            proof {
                let fresh = (PuyoType::Red, PuyoType::Red);
                assert(self@ == before.resolved(fresh));
            }
        }
    }

    /// The pause key: see [`BoardView::toggled`].
    pub fn toggle_pause(&mut self)
        ensures
            final(self)@ == old(self)@.toggled(),
            old(self).wf() ==> final(self).wf(),
    {
        match self.state {
            GameState::Paused => {
                self.state = match self.previous_state {
                    Some(saved) => saved,
                    None => GameState::Playing,
                };
                self.previous_state = None;
            },
            GameState::GameOver => {},
            _ => {
                self.previous_state = Some(self.state);
                self.state = GameState::Paused;
            },
        }
    }
}

/// Pausing and resuming brings a board that is neither paused nor finished
/// back to what it was: the same state, piece, grid, timers and score, with
/// no state saved.
pub proof fn lemma_pause_round_trip(b: BoardView)
    requires
        b.state != GameState::Paused,
        b.state != GameState::GameOver,
    ensures
        b.toggled().state == GameState::Paused,
        b.toggled().toggled() == (BoardView { previous_state: None, ..b }),
{
}

/// The pause key changes nothing but the state and the state saved.
pub proof fn lemma_pause_keeps_play(b: BoardView)
    ensures
        b.toggled() == (BoardView {
            state: b.toggled().state,
            previous_state: b.toggled().previous_state,
            ..b
        }),
        b.state == GameState::GameOver ==> b.toggled() == b,
{
}

/// A spawn onto a blocked spawn cell, or with the cell above it blocked,
/// ends the game, creates no piece and leaves the grid alone.
pub proof fn lemma_blocked_spawn_ends_game(b: BoardView, fresh: (PuyoType, PuyoType))
    requires
        b.collides(spawn_piece_of(b.next_types)),
    ensures
        b.spawned(fresh).state == GameState::GameOver,
        b.spawned(fresh).active_piece == b.active_piece,
        b.spawned(fresh).grid == b.grid,
        b.spawned(fresh).score == b.score,
{
}

/// A spawn onto free cells creates the piece from the front of the preview
/// queue at the spawn cell, advances the queue, and starts every per-piece
/// counter afresh.
pub proof fn lemma_free_spawn(b: BoardView, fresh: (PuyoType, PuyoType))
    requires
        !b.collides(spawn_piece_of(b.next_types)),
    ensures
        b.spawned(fresh).active_piece == Some(spawn_piece_of(b.next_types)),
        b.spawned(fresh).next_types == b.next_next_types,
        b.spawned(fresh).next_next_types == fresh,
        b.spawned(fresh).state == b.state,
        b.spawned(fresh).lock_timer == 0,
        b.spawned(fresh).total_ground_timer == 0,
        b.spawned(fresh).ground_move_count == 0,
        b.spawned(fresh).chain_count == 0,
        b.spawned(fresh).piece_fits(),
{
}

/// The score never goes down: not in a round of clears, and no other
/// operation touches it.
pub proof fn lemma_score_never_falls(
    b: BoardView,
    fresh: (PuyoType, PuyoType),
    dx: int,
    direction: usize,
    delta_ms: u64,
)
    ensures
        b.matched().score >= b.score,
        b.resolved(fresh).score >= b.score,
        b.fallen().score == b.score,
        b.spawned(fresh).score == b.score,
        b.moved(dx).score == b.score,
        b.rotated(direction).score == b.score,
        b.dropped().score == b.score,
        b.hard_dropped().score == b.score,
        b.updated(delta_ms).score == b.score,
        b.toggled().score == b.score,
{
}

/// Resolution comes to an end: from any board, a number of resolution steps
/// no greater than twice the number of puyos, and one, leaves a stable grid,
/// so that the next step goes on with the next piece.
pub proof fn lemma_resolution_ends(b: BoardView) -> (steps: nat)
    requires
        b.wf(),
    ensures
        steps <= 2 * puyo_count(b.grid, b.width) + 1,
        b.worked(steps).stable(),
{
    assert(rectangular(b.grid, b.width));
    if floating(b.grid) {
        lemma_settled_grid_rests(b.grid, b.width);
        lemma_gravity_keeps_count(b.grid, b.width);
        1 + lemma_rested_resolution_ends(b.fallen())
    } else {
        lemma_rested_resolution_ends(b)
    }
}

proof fn lemma_rested_resolution_ends(b: BoardView) -> (steps: nat)
    requires
        b.grid.len() == b.height,
        rectangular(b.grid, b.width),
        !floating(b.grid),
    ensures
        steps <= 2 * puyo_count(b.grid, b.width),
        b.worked(steps).stable(),
    decreases puyo_count(b.grid, b.width),
{
    if !any_clears(b.grid) {
        0
    } else {
        let cleared = b.matched();
        lemma_clear_lowers_count(b.grid, b.width);
        if floating(cleared.grid) {
            let rested = cleared.fallen();
            lemma_settled_grid_rests(cleared.grid, b.width);
            lemma_gravity_keeps_count(cleared.grid, b.width);
            let more = lemma_rested_resolution_ends(rested);
            assert(b.worked(2 + more) == rested.worked(more)) by {
                assert(b.worked(2 + more) == cleared.worked(1 + more));
            }
            2 + more
        } else {
            let more = lemma_rested_resolution_ends(cleared);
            1 + more
        }
    }
}

} // verus!
