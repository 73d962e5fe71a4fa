//! The conditions under which an operation on a map or a board is refused.

use vstd::prelude::*;

verus! {

/// Why an operation was refused. Every one of these is local and
/// recoverable: the map or board is left as it was.
#[derive(Debug, Clone, Copy, PartialEq, Eq, Hash, Structural)]
pub enum BoardError {
    /// A map was asked for with no columns or no rows.
    InvalidDimensions,
    /// More bombs were asked for than the map has cells.
    BombCountExceedsCapacity,
    /// A position lies beyond the map's width or height.
    OutOfBounds,
    /// A position names no covered tile.
    NotCovered,
}

impl BoardError {
    /// A short description of the condition.
    pub fn message(&self) -> (text: &'static str)
        ensures
            text@ == Self::message_spec(*self)@,
    {
        match self {
            BoardError::InvalidDimensions => "map width and height must both be positive",
            BoardError::BombCountExceedsCapacity => "more bombs requested than the map has cells",
            BoardError::OutOfBounds => "coordinates lie outside the map",
            BoardError::NotCovered => "no covered tile at these coordinates",
        }
    }

    /// The description given for each condition.
    pub open spec fn message_spec(e: BoardError) -> &'static str {
        match e {
            BoardError::InvalidDimensions => "map width and height must both be positive",
            BoardError::BombCountExceedsCapacity => "more bombs requested than the map has cells",
            BoardError::OutOfBounds => "coordinates lie outside the map",
            BoardError::NotCovered => "no covered tile at these coordinates",
        }
    }
}

} // verus!
