//! Where on a character grid a place of the tree falls.

use vstd::prelude::*;

verus! {

/// A character grid, by its last column and its last row. Rows count
/// downwards from the top; the tree stands on the bottom row, at the
/// middle column.
#[derive(Clone, Copy, Debug)]
pub struct Grid {
    pub x_max: u16,
    pub y_max: u16,
}

impl Grid {
    /// The column of a place `x` to the right of the middle.
    pub open spec fn column(self, x: int) -> int {
        x + self.x_max / 2
    }

    /// The row of a place `y` above the bottom.
    pub open spec fn row(self, y: int) -> int {
        self.y_max - y
    }

    /// The place falls on the grid.
    pub open spec fn shows(self, x: int, y: int) -> bool {
        0 <= self.column(x) <= self.x_max && 0 <= self.row(y) <= self.y_max
    }

    /// The cell of a place of the tree, or nothing where it falls off the grid.
    pub fn cell(&self, x: i16, y: i16) -> (c: Option<(u16, u16)>)
        ensures
            self.shows(x as int, y as int) ==> c == Some(
                (self.column(x as int) as u16, self.row(y as int) as u16),
            ),
            !self.shows(x as int, y as int) ==> c.is_none(),
    {
        let column: i32 = x as i32 + (self.x_max / 2) as i32;
        let row: i32 = self.y_max as i32 - y as i32;
        if column < 0 || column > self.x_max as i32 {
            return None;
        }
        if row < 0 || row > self.y_max as i32 {
            return None;
        }
        Some((column as u16, row as u16))
    }
}

} // verus!
