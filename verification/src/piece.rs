//! The falling piece: an axis cell, and a satellite cell beside it.

use crate::palette::PuyoType;
use vstd::prelude::*;

verus! {

/// The piece under the player's control. `row` and `col` place the axis cell;
/// `rotation` says on which side of it the satellite sits: 0 above, 1 to the
/// right, 2 below, 3 to the left.
#[derive(Clone, Copy, Debug, PartialEq, Eq, Structural)]
pub struct ActivePuyo {
    pub row: i32,
    pub col: i32,
    pub rotation: usize,
    pub axis_type: PuyoType,
    pub sat_type: PuyoType,
}

/// Offset (rows, columns) of the satellite from the axis for a rotation.
pub open spec fn satellite_offset(rotation: int) -> (int, int) {
    if rotation == 1 {
        (0, 1)
    } else if rotation == 2 {
        (1, 0)
    } else if rotation == 3 {
        (0, -1)
    } else {
        (-1, 0)
    }
}

impl ActivePuyo {
    /// A piece is well formed when its rotation is one of the four and both
    /// of its cells can be named by `i32` coordinates.
    pub open spec fn wf(&self) -> bool {
        &&& self.rotation < 4
        &&& i32::MIN < self.row < i32::MAX
        &&& i32::MIN < self.col < i32::MAX
    }

    /// Grid position (row, column) of the axis cell.
    pub open spec fn axis(&self) -> (int, int) {
        (self.row as int, self.col as int)
    }

    /// Grid position (row, column) of the satellite cell.
    pub open spec fn satellite(&self) -> (int, int) {
        let off = satellite_offset(self.rotation as int);
        (self.row + off.0, self.col + off.1)
    }

    /// The two cells of the piece, axis first.
    pub fn get_positions(&self) -> (cells: [(i32, i32); 2])
        requires
            self.wf(),
        ensures
            cells[0].0 == self.axis().0,
            cells[0].1 == self.axis().1,
            cells[1].0 == self.satellite().0,
            cells[1].1 == self.satellite().1,
    {
        let (dr, dc): (i32, i32) = match self.rotation {
            1 => (0, 1),
            2 => (1, 0),
            3 => (0, -1),
            _ => (-1, 0),
        };
        [(self.row, self.col), (self.row + dr, self.col + dc)]
    }
}

} // verus!
