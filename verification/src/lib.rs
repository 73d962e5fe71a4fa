//! A verified Minesweeper board engine: minefield generation, neighbour
//! counts, covered and flagged cells, and the cascading reveal.
//!
//! A [`TileMap`] is generated, receives its bombs and has its tiles
//! classified; a [`Board`] then tracks which cells are covered and flagged
//! and resolves each reveal into the cells that it uncovers.

pub mod assets;
pub mod board;
pub mod cascade;
pub mod coordinates;
pub mod covered;
pub mod error;
pub mod geometry;
pub mod laws;
pub mod placement;
pub mod random;
pub mod session;
pub mod systems;
pub mod tile;
pub mod tile_map;

pub use board::{generate_board, generate_board_avoiding, Board, RevealOutcome};
pub use cascade::UncoveredTile;
pub use coordinates::Coordinates;
pub use error::BoardError;
pub use geometry::BoardGeometry;
pub use random::SplitMix64;
pub use tile::{BombNeighbor, Tile};
pub use tile_map::TileMap;
