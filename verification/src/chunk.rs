//! Chunks: fixed-size squares of generated tiles.

use vstd::prelude::*;
use crate::pos::{ChunkPos, TilePos, CHUNK_SIZE};
use crate::terrain::{TerrainSampler, spec_sample, MAX_HEIGHT};
use crate::tile::{Tile, TileKind};

verus! {

/// The chunk coordinates whose tiles' coordinates all fit in `i64`: the
/// bound is `i64::MAX / CHUNK_SIZE`, so scaling by the chunk side and
/// offsetting across the chunk cannot overflow.
pub open spec fn chunk_pos_in_range(pos: ChunkPos) -> bool {
    &&& -0x1FFF_FFFF_FFFF_FFFF <= pos.x <= 0x1FFF_FFFF_FFFF_FFFF
    &&& -0x1FFF_FFFF_FFFF_FFFF <= pos.y <= 0x1FFF_FFFF_FFFF_FFFF
}

/// The tile a generated chunk holds at flat index `i` (row-major: `i` =
/// `dy * CHUNK_SIZE + dx`).
pub open spec fn spec_tile_at(seed: u64, pos: ChunkPos, i: int) -> Tile {
    let dx = i % (CHUNK_SIZE as int);
    let dy = i / (CHUNK_SIZE as int);
    let x = pos.x * (CHUNK_SIZE as int) + dx;
    let y = pos.y * (CHUNK_SIZE as int) + dy;
    Tile {
        tile_kind: TileKind::Grass,
        position: TilePos {
            x: x as i64,
            y: y as i64,
            z: spec_sample(seed, x as i64, y as i64) as i64,
        },
    }
}

/// A fixed-size square of tiles at a chunk position, immutable once
/// generated.
#[derive(Debug, Clone, PartialEq)]
pub struct Chunk {
    pub pos: ChunkPos,
    pub size: usize,
    pub tiles: Vec<Tile>,
}

impl Chunk {
    /// A well-formed chunk is exactly the chunk that generation at `seed`
    /// produces for its position.
    pub open spec fn wf(&self, seed: u64) -> bool {
        &&& self.size == CHUNK_SIZE
        &&& chunk_pos_in_range(self.pos)
        &&& self.tiles@.len() == CHUNK_SIZE * CHUNK_SIZE
        &&& forall|i: int| 0 <= i < self.tiles@.len() ==> self.tiles@[i] == spec_tile_at(seed, self.pos, i)
    }

    /// Generate the chunk at `pos`: for every tile offset inside the square,
    /// sample the height and lay down the default tile kind. Pure and
    /// deterministic in the sampler's seed and `pos`.
    pub fn new(sampler: &TerrainSampler, pos: ChunkPos) -> (r: Self)
        requires
            chunk_pos_in_range(pos),
        ensures
            r.wf(sampler.seed),
            r.pos == pos,
    {
        let size: usize = CHUNK_SIZE;
        let base_x: i64 = pos.x * (size as i64);
        let base_y: i64 = pos.y * (size as i64);
        let mut tiles: Vec<Tile> = Vec::new();
        let mut dy: usize = 0;
        while dy < size
            invariant
                size == CHUNK_SIZE,
                chunk_pos_in_range(pos),
                base_x == pos.x * (CHUNK_SIZE as int),
                base_y == pos.y * (CHUNK_SIZE as int),
                dy <= size,
                tiles@.len() == dy * (CHUNK_SIZE as int),
                forall|i: int| 0 <= i < tiles@.len() ==> tiles@[i] == spec_tile_at(sampler.seed, pos, i),
            decreases size - dy,
        {
            let mut dx: usize = 0;
            while dx < size
                invariant
                    size == CHUNK_SIZE,
                    chunk_pos_in_range(pos),
                    base_x == pos.x * (CHUNK_SIZE as int),
                    base_y == pos.y * (CHUNK_SIZE as int),
                    dy < size,
                    dx <= size,
                    tiles@.len() == dy * (CHUNK_SIZE as int) + dx,
                    forall|i: int| 0 <= i < tiles@.len() ==> tiles@[i] == spec_tile_at(sampler.seed, pos, i),
                decreases size - dx,
            {
                let x: i64 = base_x + dx as i64;
                let y: i64 = base_y + dy as i64;
                let h: u64 = sampler.sample(x, y);
                let tile = Tile {
                    tile_kind: TileKind::Grass,
                    position: TilePos { x, y, z: h as i64 },
                };
                proof {
                    let i = tiles@.len() as int;
                    assert(i % (CHUNK_SIZE as int) == dx as int && i / (CHUNK_SIZE as int) == dy as int) by (nonlinear_arith)
                        requires
                            i == dy * (CHUNK_SIZE as int) + dx,
                            0 <= dx < CHUNK_SIZE,
                            0 <= dy,
                    ;
                    assert(tile == spec_tile_at(sampler.seed, pos, i));
                }
                tiles.push(tile);
                dx += 1;
            }
            dy += 1;
        }
        Self { pos, size, tiles }
    }
}

/// Generation is deterministic: two chunks generated at the same position
/// with the same seed hold identical tiles, heights included.
pub proof fn lemma_generate_chunk_deterministic(a: Chunk, b: Chunk, seed: u64)
    requires
        a.wf(seed),
        b.wf(seed),
        a.pos == b.pos,
    ensures
        a.tiles@ == b.tiles@,
        a.size == b.size,
{
    assert(a.tiles@ =~= b.tiles@);
}

} // verus!
