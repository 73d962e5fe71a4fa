//! Where the board lies on the screen, and which cell a position falls on.
//!
//! Positions are whole numbers of one unit of length, the pixel or a fixed
//! fraction of it. A position is first taken relative to the centre of the
//! window, as the board's origin is; halves are avoided by doubling.

use crate::coordinates::Coordinates;
use vstd::prelude::*;

verus! {

/// The origin of the board's rectangle, relative to the centre of the
/// window, and the side of one cell.
#[derive(Debug, Clone, Copy, PartialEq, Eq, Structural)]
pub struct BoardGeometry {
    pub origin_x: i32,
    pub origin_y: i32,
    pub tile_size: u32,
}

impl BoardGeometry {
    /// Twice the distance, along one axis, from the board's origin to the
    /// window position `position`, in a window of extent `window`.
    pub open spec fn doubled_offset(position: int, window: int, origin: int) -> int {
        2 * position - window - 2 * origin
    }

    /// The column (or row) that holds `position`, where the board has
    /// `cells` of them along this axis: the one whose span of `tile_size`
    /// units, closed below and open above, contains the position. `None`
    /// where the position lies off the board.
    pub open spec fn locate_axis(self, position: int, window: int, origin: int, cells: int) -> Option<
        int,
    > {
        let offset = Self::doubled_offset(position, window, origin);
        if self.tile_size > 0 && 0 <= offset < 2 * cells * self.tile_size {
            Some(offset / (2 * self.tile_size))
        } else {
            None
        }
    }

    /// The cell that holds the window position (`x`, `y`) on a board of
    /// `width` columns and `height` rows, in a window of the given extent.
    /// `None` where the position lies off the board's rectangle.
    pub open spec fn locate(
        self,
        width: int,
        height: int,
        window_width: int,
        window_height: int,
        x: int,
        y: int,
    ) -> Option<Coordinates> {
        match (
            self.locate_axis(x, window_width, self.origin_x as int, width),
            self.locate_axis(y, window_height, self.origin_y as int, height),
        ) {
            (Some(column), Some(row)) => Some(Coordinates { x: column as u16, y: row as u16 }),
            _ => None,
        }
    }

    /// A located column (or row) is one of the board's, and its span
    /// contains the position.
    pub proof fn lemma_locate_axis(self, position: int, window: int, origin: int, cells: int)
        requires
            self.locate_axis(position, window, origin, cells) is Some,
        ensures
            ({
                let cell = self.locate_axis(position, window, origin, cells)->0;
                let offset = Self::doubled_offset(position, window, origin);
                &&& 0 <= cell < cells
                &&& 2 * cell * self.tile_size <= offset < 2 * (cell + 1) * self.tile_size
            }),
    {
        let offset = Self::doubled_offset(position, window, origin);
        let side = 2 * self.tile_size;
        let cell = offset / side;
        vstd::arithmetic::div_mod::lemma_fundamental_div_mod(offset, side);
        assert(2 * cells * self.tile_size == cells * side) by (nonlinear_arith)
            requires
                side == 2 * self.tile_size,
        ;
        assert(0 <= cell < cells && cell * side <= offset < (cell + 1) * side) by (nonlinear_arith)
            requires
                0 <= offset < cells * side,
                offset == side * cell + offset % side,
                0 <= offset % side < side,
                side > 0,
        ;
        assert(2 * cell * self.tile_size == cell * side) by (nonlinear_arith)
            requires
                side == 2 * self.tile_size,
        ;
        assert(2 * (cell + 1) * self.tile_size == (cell + 1) * side) by (nonlinear_arith)
            requires
                side == 2 * self.tile_size,
        ;
    }

    /// The column (or row) that holds `position`, as `locate_axis` defines
    /// it.
    fn locate_on_axis(&self, position: i32, window: u32, origin: i32, cells: u16) -> (cell: Option<
        u16,
    >)
        ensures
            match self.locate_axis(position as int, window as int, origin as int, cells as int) {
                Some(found) => cell == Some(found as u16) && 0 <= found < cells,
                None => cell is None,
            },
    {
        if self.tile_size == 0 {
            return None;
        }
        let offset: i64 = 2 * (position as i64) - (window as i64) - 2 * (origin as i64);
        let side: i64 = 2 * (self.tile_size as i64);
        assert(0 <= cells * side <= 65535 * 0x2_0000_0000) by (nonlinear_arith)
            requires
                0 <= cells <= 65535,
                0 < side <= 0x2_0000_0000,
        ;
        assert(2 * cells * self.tile_size == cells * side) by (nonlinear_arith)
            requires
                side == 2 * self.tile_size,
        ;
        let extent: i64 = (cells as i64) * side;
        if 0 <= offset && offset < extent {
            proof {
                self.lemma_locate_axis(position as int, window as int, origin as int, cells as int);
            }
            Some((offset / side) as u16)
        } else {
            None
        }
    }

    /// The cell that holds the window position (`x`, `y`) on a board of
    /// `width` columns and `height` rows, in a window of the given extent.
    /// `None` where the position lies off the board's rectangle.
    pub fn locate_cell(
        &self,
        width: u16,
        height: u16,
        window_width: u32,
        window_height: u32,
        x: i32,
        y: i32,
    ) -> (cell: Option<Coordinates>)
        ensures
            cell == self.locate(
                width as int,
                height as int,
                window_width as int,
                window_height as int,
                x as int,
                y as int,
            ),
            cell matches Some(c) ==> c.x < width && c.y < height,
    {
        let column = self.locate_on_axis(x, window_width, self.origin_x, width);
        let row = self.locate_on_axis(y, window_height, self.origin_y, height);
        match (column, row) {
            (Some(column), Some(row)) => Some(Coordinates { x: column, y: row }),
            _ => None,
        }
    }
}

} // verus!
