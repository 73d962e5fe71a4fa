//! The classification of a single cell.

use vstd::prelude::*;

verus! {

/// What a cell holds. The classification is fixed when the map is generated;
/// only whether the cell is still covered changes during play.
#[derive(Debug, Clone, Copy, PartialEq, Eq, Hash, Structural)]
pub enum Tile {
    /// A bomb.
    Bomb,
    /// No bomb, and this many bombs (1 to 8) on the cells around.
    BombNeighbor(u8),
    /// No bomb, and none around.
    Empty,
}

/// The number of bombs around a numbered tile.
#[derive(Debug, Clone, Copy, PartialEq, Eq, PartialOrd, Ord, Hash, Structural)]
pub struct BombNeighbor {
    /// Number of neighbor bombs
    pub count: u8,
}

impl Tile {
    /// The classification of a cell without a bomb that has `around` bombs on
    /// the cells around it.
    pub open spec fn classify(around: nat) -> Tile {
        if around == 0 {
            Tile::Empty
        } else {
            Tile::BombNeighbor(around as u8)
        }
    }

    /// The classification of a cell without a bomb that has `around` bombs on
    /// the cells around it.
    pub fn from_count(around: u8) -> (tile: Tile)
        ensures
            tile == Tile::classify(around as nat),
    {
        if around == 0 {
            Tile::Empty
        } else {
            Tile::BombNeighbor(around)
        }
    }

    /// Whether the tile is a bomb.
    pub fn is_bomb(&self) -> (b: bool)
        ensures
            b == (*self is Bomb),
    {
        match self {
            Tile::Bomb => true,
            _ => false,
        }
    }

    /// Whether the tile has neither a bomb nor a bomb around it.
    pub fn is_empty(&self) -> (b: bool)
        ensures
            b == (*self is Empty),
    {
        match self {
            Tile::Empty => true,
            _ => false,
        }
    }

    /// The character that stands for the tile in a dump of the map: `*` for
    /// a bomb, the digit of its count for a numbered tile, a blank for an
    /// empty one.
    pub open spec fn glyph(self) -> char {
        match self {
            Tile::Bomb => '*',
            Tile::BombNeighbor(n) => if n <= 9 {
                (48u8 + n) as char
            } else {
                '#'
            },
            Tile::Empty => ' ',
        }
    }

    /// The character that stands for the tile in a dump of the map.
    pub fn console_output(&self) -> (glyph: char)
        ensures
            glyph == self.glyph(),
    {
        match self {
            Tile::Bomb => '*',
            Tile::BombNeighbor(n) => if *n <= 9 {
                (48u8 + *n) as char
            } else {
                '#'
            },
            Tile::Empty => ' ',
        }
    }

    /// The bomb count of a numbered tile, and `None` for a bomb or an empty
    /// tile.
    pub fn bomb_neighbor(&self) -> (marker: Option<BombNeighbor>)
        ensures
            marker == match *self {
                Tile::BombNeighbor(n) => Some(BombNeighbor { count: n }),
                _ => None::<BombNeighbor>,
            },
    {
        match self {
            Tile::BombNeighbor(n) => Some(BombNeighbor { count: *n }),
            _ => None,
        }
    }
}

} // verus!
