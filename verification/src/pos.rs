//! Integer chunk and tile coordinates.

use vstd::prelude::*;

verus! {

/// A chunk holds a square of tiles whose side is this many tiles.
pub const CHUNK_SIZE: usize = 4;

/// Position of a single tile; `z` is the derived terrain height.
#[derive(Debug, Clone, Copy, PartialEq, Eq, Structural)]
pub struct TilePos {
    pub x: i64,
    pub y: i64,
    pub z: i64,
}

impl TilePos {
    pub fn new(x: i64, y: i64, z: i64) -> (r: Self)
        ensures
            r == (TilePos { x, y, z }),
    {
        Self { x, y, z }
    }
}

/// Position of a chunk on the chunk grid.
#[derive(Debug, Clone, Copy, PartialEq, Eq, Structural)]
pub struct ChunkPos {
    pub x: i64,
    pub y: i64,
}

impl ChunkPos {
    pub fn new(x: i64, y: i64) -> (r: Self)
        ensures
            r == (ChunkPos { x, y }),
    {
        Self { x, y }
    }

    /// The tile position of this chunk's origin corner, for a chunk side of
    /// `size` tiles.
    pub fn to_tile_pos(&self, size: usize) -> (r: TilePos)
        requires
            size <= i64::MAX,
            i64::MIN <= self.x * size <= i64::MAX,
            i64::MIN <= self.y * size <= i64::MAX,
        ensures
            r.x == self.x * size,
            r.y == self.y * size,
            r.z == 0,
    {
        TilePos { x: self.x * (size as i64), y: self.y * (size as i64), z: 0 }
    }
}

} // verus!
