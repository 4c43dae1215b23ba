//! The fixed numbers of the game: grid size, spawn cell, timing thresholds.
//! All times are whole milliseconds.

use vstd::prelude::*;

verus! {

/// Width of the standard grid, in cells.
pub const GRID_WIDTH: usize = 6;

/// Height of the standard grid, hidden rows included.
pub const GRID_HEIGHT: usize = 13;

/// Number of rows at the top that take part in the rules but are not shown.
pub const VISIBLE_ROW_OFFSET: usize = 1;

/// Row in which the axis cell of a new piece appears.
pub const SPAWN_ROW: i32 = 1;

/// Column in which a new piece appears.
pub const SPAWN_COL: i32 = 2;

/// What the lowest row reached holds before any piece has spawned: a row
/// above every row a piece can stand in.
pub const UNREACHED_ROW: i32 = -100;

/// A piece that has rested on the stack for longer than this locks.
pub const MAX_LOCK_TIME: u64 = 500;

/// Number of moves on the ground that may each restart the lock timer.
pub const MAX_LOCK_DELAY_MOVES: u32 = 15;

/// A piece that has spent longer than this on the ground at its lowest row
/// locks, whatever the lock timer says.
pub const MAX_TOTAL_GROUND_TIME: u64 = 2000;

/// Time a direction key is held before it repeats.
pub const DAS_DELAY: u64 = 200;

/// Time between two repeats of a held direction key.
pub const DAS_SPEED: u64 = 50;

/// Time between two soft drops while the drop key is held.
pub const SOFT_DROP_SPEED: u64 = 50;

/// `x`, or the largest `u64` where `x` is beyond it.
pub open spec fn clip_u64(x: int) -> u64 {
    if x > u64::MAX {
        u64::MAX
    } else if x < 0 {
        0
    } else {
        x as u64
    }
}

/// `x`, or the largest `u32` where `x` is beyond it.
pub open spec fn clip_u32(x: int) -> u32 {
    if x > u32::MAX {
        u32::MAX
    } else if x < 0 {
        0
    } else {
        x as u32
    }
}

/// `x`, or the nearest `i32` where `x` is out of range.
pub open spec fn clip_i32(x: int) -> i32 {
    if x > i32::MAX {
        i32::MAX
    } else if x < i32::MIN {
        i32::MIN
    } else {
        x as i32
    }
}

} // verus!
