//! The chunk store: generated chunks cached by position, with radius queries.

use vstd::prelude::*;
use crate::chunk::{Chunk, chunk_pos_in_range};
use crate::pos::ChunkPos;
use crate::terrain::TerrainSampler;

verus! {

/// The radius, in chunks, generated eagerly around the origin at start-up.
pub const INITIAL_RADIUS: usize = 2;

/// Chebyshev distance between two chunk positions is at most `r`.
pub open spec fn within_chebyshev(p: ChunkPos, center: ChunkPos, r: int) -> bool {
    &&& -r <= p.x - center.x <= r
    &&& -r <= p.y - center.y <= r
}

/// Owns the map from chunk position to generated chunk. Chunks are generated
/// on first access ("generate-if-absent") and never regenerated.
#[derive(Debug)]
pub struct ChunkManager {
    pub sampler: TerrainSampler,
    pub chunks: Vec<Chunk>,
}

impl Chunk {
    /// A field-for-field copy of this chunk.
    pub fn duplicate(&self) -> (r: Chunk)
        ensures
            r.pos == self.pos,
            r.size == self.size,
            r.tiles@ == self.tiles@,
    {
        let mut tiles: Vec<crate::tile::Tile> = Vec::new();
        let mut j: usize = 0;
        while j < self.tiles.len()
            invariant
                j <= self.tiles@.len(),
                tiles@ == self.tiles@.take(j as int),
            decreases self.tiles@.len() - j,
        {
            tiles.push(self.tiles[j]);
            proof {
                assert(tiles@ =~= self.tiles@.take(j + 1int));
            }
            j += 1;
        }
        proof {
            assert(tiles@ =~= self.tiles@);
        }
        Chunk { pos: self.pos, size: self.size, tiles }
    }
}

impl ChunkManager {
    /// Every cached chunk is the generated chunk for its position, and no
    /// position occurs twice.
    pub open spec fn wf(&self) -> bool {
        &&& forall|i: int| 0 <= i < self.chunks@.len() ==> (#[trigger] self.chunks@[i]).wf(self.sampler.seed)
        &&& forall|i: int, j: int|
            0 <= i < j < self.chunks@.len() ==> (#[trigger] self.chunks@[i]).pos != (#[trigger] self.chunks@[j]).pos
    }

    /// The store holds a chunk for position `p`.
    pub open spec fn has_pos(&self, p: ChunkPos) -> bool {
        exists|i: int| 0 <= i < self.chunks@.len() && (#[trigger] self.chunks@[i]).pos == p
    }

    /// Index of the cached chunk at `pos`, if the store holds one.
    pub fn find_chunk(&self, pos: ChunkPos) -> (r: Option<usize>)
        ensures
            match r {
                Some(i) => i < self.chunks@.len() && self.chunks@[i as int].pos == pos,
                None => !self.has_pos(pos),
            },
    {
        let mut i: usize = 0;
        while i < self.chunks.len()
            invariant
                i <= self.chunks@.len(),
                forall|k: int| 0 <= k < i ==> (#[trigger] self.chunks@[k]).pos != pos,
            decreases self.chunks@.len() - i,
        {
            if self.chunks[i].pos.x == pos.x && self.chunks[i].pos.y == pos.y {
                return Some(i);
            }
            i += 1;
        }
        None
    }

    /// The only mutator: return the cached chunk's index, generating and
    /// inserting the chunk first if the position is absent.
    pub fn get_or_generate(&mut self, pos: ChunkPos) -> (r: usize)
        requires
            old(self).wf(),
            chunk_pos_in_range(pos),
        ensures
            final(self).wf(),
            final(self).sampler == old(self).sampler,
            r < final(self).chunks@.len(),
            final(self).chunks@[r as int].pos == pos,
            forall|p: ChunkPos| final(self).has_pos(p) <==> (old(self).has_pos(p) || p == pos),
            old(self).has_pos(pos) ==> final(self).chunks@ == old(self).chunks@,
            !old(self).has_pos(pos) ==> final(self).chunks@.len() == old(self).chunks@.len() + 1
                && final(self).chunks@.take(old(self).chunks@.len() as int) == old(self).chunks@,
    {
        match self.find_chunk(pos) {
            Some(i) => i,
            None => {
                let c = Chunk::new(&self.sampler, pos);
                let i = self.chunks.len();
                self.chunks.push(c);
                proof {
                    let pre = old(self).chunks@;
                    let post = self.chunks@;
                    assert(post.take(pre.len() as int) =~= pre);
                    assert forall|p: ChunkPos| final(self).has_pos(p) implies (old(self).has_pos(p) || p == pos) by {
                        let k = choose|k: int| 0 <= k < post.len() && post[k].pos == p;
                        if k < pre.len() {
                            assert(pre[k].pos == p);
                        }
                    }
                    assert forall|p: ChunkPos| (old(self).has_pos(p) || p == pos) implies final(self).has_pos(p) by {
                        if old(self).has_pos(p) {
                            let k = choose|k: int| 0 <= k < pre.len() && pre[k].pos == p;
                            assert(post[k].pos == p);
                        } else {
                            assert(post[pre.len() as int].pos == p);
                        }
                    }
                }
                i
            }
        }
    }
    /// The position that entry `k` of a radius query around `center` carries:
    /// the query walks the square in row-major order, `x` outermost.
    pub open spec fn grid_pos(center: ChunkPos, size: int, k: int) -> ChunkPos {
        let w = 2 * size + 1;
        ChunkPos { x: (center.x - size + k / w) as i64, y: (center.y - size + k % w) as i64 }
    }

    /// Every chunk within Chebyshev distance `size` of `pos`, generating any
    /// absent one on demand. The result covers that square exactly, with no
    /// duplicate and no omission. The radius is capped so the square's side
    /// and the count of returned chunks stay well inside `usize`, and the
    /// centre must sit far enough from the coordinate limit that the whole
    /// square is in range.
    pub fn get_chunks_radius(&mut self, pos: ChunkPos, size: usize) -> (r: Vec<(ChunkPos, Chunk)>)
        requires
            old(self).wf(),
            size <= 0x1000_0000,
            -0x1FFF_FFFF_FFFF_FFFF + size <= pos.x <= 0x1FFF_FFFF_FFFF_FFFF - size,
            -0x1FFF_FFFF_FFFF_FFFF + size <= pos.y <= 0x1FFF_FFFF_FFFF_FFFF - size,
        ensures
            final(self).wf(),
            final(self).sampler == old(self).sampler,
            r@.len() == (2 * size + 1) * (2 * size + 1),
            forall|k: int| 0 <= k < r@.len() ==> (#[trigger] r@[k]).0 == Self::grid_pos(pos, size as int, k),
            forall|k: int| 0 <= k < r@.len()
                ==> (#[trigger] r@[k]).1.wf(old(self).sampler.seed) && r@[k].1.pos == r@[k].0,
            forall|p: ChunkPos| final(self).has_pos(p) <==> (old(self).has_pos(p) || within_chebyshev(p, pos, size as int)),
            forall|p: ChunkPos| within_chebyshev(p, pos, size as int)
                <==> exists|k: int| 0 <= k < r@.len() && (#[trigger] r@[k]).0 == p,
            forall|k1: int, k2: int| 0 <= k1 < k2 < r@.len() ==> (#[trigger] r@[k1]).0 != (#[trigger] r@[k2]).0,
    {
        let w: usize = 2 * size + 1;
        let ghost seed = self.sampler.seed;
        let mut out: Vec<(ChunkPos, Chunk)> = Vec::new();
        let mut ix: usize = 0;
        while ix < w
            invariant
                self.wf(),
                self.sampler == old(self).sampler,
                w == 2 * size + 1,
                seed == self.sampler.seed,
                size <= 0x1000_0000,
                -0x1FFF_FFFF_FFFF_FFFF + size <= pos.x <= 0x1FFF_FFFF_FFFF_FFFF - size,
                -0x1FFF_FFFF_FFFF_FFFF + size <= pos.y <= 0x1FFF_FFFF_FFFF_FFFF - size,
                ix <= w,
                out@.len() == ix * w,
                forall|k: int| 0 <= k < out@.len() ==> (#[trigger] out@[k]).0 == Self::grid_pos(pos, size as int, k),
                forall|k: int| 0 <= k < out@.len() ==> (#[trigger] out@[k]).1.wf(seed) && out@[k].1.pos == out@[k].0,
                forall|p: ChunkPos| self.has_pos(p)
                    <==> (old(self).has_pos(p) || exists|k: int| 0 <= k < out@.len() && (#[trigger] out@[k]).0 == p),
            decreases w - ix,
        {
            let mut iy: usize = 0;
            while iy < w
                invariant
                    self.wf(),
                    self.sampler == old(self).sampler,
                    w == 2 * size + 1,
                    seed == self.sampler.seed,
                    size <= 0x1000_0000,
                    -0x1FFF_FFFF_FFFF_FFFF + size <= pos.x <= 0x1FFF_FFFF_FFFF_FFFF - size,
                    -0x1FFF_FFFF_FFFF_FFFF + size <= pos.y <= 0x1FFF_FFFF_FFFF_FFFF - size,
                    ix < w,
                    iy <= w,
                    out@.len() == ix * w + iy,
                    forall|k: int| 0 <= k < out@.len() ==> (#[trigger] out@[k]).0 == Self::grid_pos(pos, size as int, k),
                    forall|k: int| 0 <= k < out@.len() ==> (#[trigger] out@[k]).1.wf(seed) && out@[k].1.pos == out@[k].0,
                    forall|p: ChunkPos| self.has_pos(p)
                        <==> (old(self).has_pos(p) || exists|k: int| 0 <= k < out@.len() && (#[trigger] out@[k]).0 == p),
                decreases w - iy,
            {
                let px: i64 = pos.x - size as i64 + ix as i64;
                let py: i64 = pos.y - size as i64 + iy as i64;
                let p = ChunkPos { x: px, y: py };
                proof {
                    let k = out@.len() as int;
                    assert(k / (w as int) == ix as int && k % (w as int) == iy as int) by (nonlinear_arith)
                        requires
                            k == ix * w + iy,
                            0 <= iy < w,
                            0 <= ix,
                    ;
                    assert(p == Self::grid_pos(pos, size as int, k));
                }
                let ghost pre_self = *self;
                let ghost pre_out = out@;
                let idx = self.get_or_generate(p);
                let c = self.chunks[idx].duplicate();
                proof {
                    assert(c.wf(seed));
                }
                out.push((p, c));
                proof {
                    assert forall|q: ChunkPos| self.has_pos(q)
                        implies (old(self).has_pos(q)
                            || exists|k: int| 0 <= k < out@.len() && (#[trigger] out@[k]).0 == q) by {
                        if q == p {
                            assert(out@[out@.len() - 1].0 == q);
                        } else {
                            assert(pre_self.has_pos(q));
                            if !old(self).has_pos(q) {
                                let k = choose|k: int| 0 <= k < pre_out.len() && (#[trigger] pre_out[k]).0 == q;
                                assert(out@[k].0 == q);
                            }
                        }
                    }
                    assert forall|q: ChunkPos| (old(self).has_pos(q)
                            || exists|k: int| 0 <= k < out@.len() && (#[trigger] out@[k]).0 == q)
                        implies self.has_pos(q) by {
                        if old(self).has_pos(q) {
                            assert(pre_self.has_pos(q));
                        } else {
                            let k = choose|k: int| 0 <= k < out@.len() && (#[trigger] out@[k]).0 == q;
                            if k < pre_out.len() {
                                assert(pre_out[k].0 == q);
                                assert(pre_self.has_pos(q));
                            } else {
                                assert(q == p);
                            }
                        }
                    }
                }
                iy += 1;
            }
            proof {
                assert((ix + 1int) * w == ix * w + w) by (nonlinear_arith);
            }
            ix += 1;
        }
        proof {
            let n = out@.len() as int;
            let wi = w as int;
            let si = size as int;
            assert(n == wi * wi) by (nonlinear_arith)
                requires
                    n == wi * wi,
            ;
            assert forall|p: ChunkPos| within_chebyshev(p, pos, si)
                implies exists|k: int| 0 <= k < out@.len() && (#[trigger] out@[k]).0 == p by {
                let a = p.x - (pos.x - si);
                let b = p.y - (pos.y - si);
                let k = a * wi + b;
                assert(0 <= k < wi * wi && k / wi == a && k % wi == b) by (nonlinear_arith)
                    requires
                        0 <= a < wi,
                        0 <= b < wi,
                        k == a * wi + b,
                ;
                assert(out@[k].0 == p);
            }
            assert forall|p: ChunkPos| (exists|k: int| 0 <= k < out@.len() && (#[trigger] out@[k]).0 == p)
                implies within_chebyshev(p, pos, si) by {
                let k = choose|k: int| 0 <= k < out@.len() && (#[trigger] out@[k]).0 == p;
                assert(0 <= k % wi < wi && 0 <= k / wi < wi) by (nonlinear_arith)
                    requires
                        0 <= k < wi * wi,
                        wi > 0,
                ;
            }
            assert forall|k1: int, k2: int| 0 <= k1 < k2 < out@.len()
                implies (#[trigger] out@[k1]).0 != (#[trigger] out@[k2]).0 by {
                let d1 = k1 / wi;
                let m1 = k1 % wi;
                let d2 = k2 / wi;
                let m2 = k2 % wi;
                assert(k1 == d1 * wi + m1 && 0 <= m1 < wi && 0 <= d1 < wi
                    && k2 == d2 * wi + m2 && 0 <= m2 < wi && 0 <= d2 < wi) by (nonlinear_arith)
                    requires
                        0 <= k1 < wi * wi,
                        0 <= k2 < wi * wi,
                        wi > 0,
                        d1 == k1 / wi,
                        m1 == k1 % wi,
                        d2 == k2 / wi,
                        m2 == k2 % wi,
                ;
                if out@[k1].0 == out@[k2].0 {
                    assert(pos.x - si + d1 == pos.x - si + d2);
                    assert(pos.y - si + m1 == pos.y - si + m2);
                    assert(k1 == k2);
                    assert(false);
                }
            }
        }
        out
    }

    /// Build the store and eagerly generate the starting square around the
    /// origin chunk.
    pub fn new(sampler: TerrainSampler) -> (r: Self)
        ensures
            r.wf(),
            r.sampler == sampler,
            forall|p: ChunkPos|
                r.has_pos(p) <==> within_chebyshev(p, ChunkPos { x: 0, y: 0 }, INITIAL_RADIUS as int),
    {
        let mut m = ChunkManager { sampler, chunks: Vec::new() };
        proof {
            assert(forall|p: ChunkPos| !m.has_pos(p));
        }
        let _ = m.get_chunks_radius(ChunkPos { x: 0, y: 0 }, INITIAL_RADIUS);
        m
    }

    /// The positions of `ps` that the store holds a chunk for, in order.
    pub open spec fn spec_selected(&self, ps: Seq<ChunkPos>) -> Seq<ChunkPos>
        decreases ps.len(),
    {
        if ps.len() == 0 {
            Seq::empty()
        } else {
            let pre = self.spec_selected(ps.drop_last());
            if self.has_pos(ps.last()) {
                pre.push(ps.last())
            } else {
                pre
            }
        }
    }

    /// The cached chunks for the requested positions; a position the store
    /// does not hold is skipped.
    pub fn get_chunks(&self, positions: &Vec<ChunkPos>) -> (r: Vec<(ChunkPos, Chunk)>)
        requires
            self.wf(),
        ensures
            r@.map_values(|e: (ChunkPos, Chunk)| e.0) == self.spec_selected(positions@),
            forall|k: int| 0 <= k < r@.len()
                ==> (#[trigger] r@[k]).1.wf(self.sampler.seed) && r@[k].1.pos == r@[k].0,
    {
        let mut out: Vec<(ChunkPos, Chunk)> = Vec::new();
        let mut i: usize = 0;
        while i < positions.len()
            invariant
                self.wf(),
                i <= positions@.len(),
                out@.map_values(|e: (ChunkPos, Chunk)| e.0) == self.spec_selected(positions@.take(i as int)),
                forall|k: int| 0 <= k < out@.len()
                    ==> (#[trigger] out@[k]).1.wf(self.sampler.seed) && out@[k].1.pos == out@[k].0,
            decreases positions@.len() - i,
        {
            let p = positions[i];
            let ghost pre = out@.map_values(|e: (ChunkPos, Chunk)| e.0);
            match self.find_chunk(p) {
                Some(idx) => {
                    let c = self.chunks[idx].duplicate();
                    proof {
                        assert(self.chunks@[idx as int].wf(self.sampler.seed));
                        assert(c.wf(self.sampler.seed));
                    }
                    out.push((p, c));
                }
                None => {}
            }
            proof {
                assert(positions@.take(i + 1int).drop_last() =~= positions@.take(i as int));
                assert(positions@.take(i + 1int).last() == positions@[i as int]);
                if self.has_pos(p) {
                    assert(out@.map_values(|e: (ChunkPos, Chunk)| e.0) =~= pre.push(p));
                } else {
                    assert(out@.map_values(|e: (ChunkPos, Chunk)| e.0) =~= pre);
                }
            }
            i += 1;
        }
        proof {
            assert(positions@.take(positions@.len() as int) =~= positions@);
        }
        out
    }
}

} // verus!
