//! Tiles: the cells a chunk is made of.

use vstd::prelude::*;
use crate::pos::TilePos;

verus! {

/// The kind of terrain a tile carries; generation uses a fixed default kind.
#[derive(Debug, Clone, Copy, PartialEq, Eq, Structural)]
pub enum TileKind {
    Grass,
}

/// One tile of the world, at a position whose `z` is the sampled height.
#[derive(Debug, Clone, Copy, PartialEq, Eq, Structural)]
pub struct Tile {
    pub tile_kind: TileKind,
    pub position: TilePos,
}

} // verus!
