use server_core::chunk::Chunk;
use server_core::chunk_manager::ChunkManager;
use server_core::pos::{ChunkPos, TilePos, CHUNK_SIZE};
use server_core::terrain::{TerrainSampler, MAX_HEIGHT};

#[test]
fn sample_is_deterministic_within_an_instance() {
    let sampler = TerrainSampler::new(0);
    for x in -20i64..20 {
        for y in -20i64..20 {
            assert_eq!(sampler.sample(x, y), sampler.sample(x, y));
        }
    }
}

#[test]
fn sample_is_stable_across_instances_with_same_seed() {
    let a = TerrainSampler::new(12345);
    let b = TerrainSampler::new(12345);
    for x in -50i64..50 {
        for y in -50i64..50 {
            assert_eq!(a.sample(x, y), b.sample(x, y));
        }
    }
}

#[test]
fn sample_stays_in_the_height_band() {
    let sampler = TerrainSampler::new(7);
    for x in -100i64..100 {
        let h = sampler.sample(x, x * 3 - 1);
        assert!(h <= MAX_HEIGHT);
    }
}

#[test]
fn samples_are_not_all_equal() {
    let sampler = TerrainSampler::new(0);
    let first = sampler.sample(0, 0);
    let mut saw_other = false;
    for x in 0i64..64 {
        if sampler.sample(x, 0) != first {
            saw_other = true;
        }
    }
    assert!(saw_other);
}

#[test]
fn generate_chunk_twice_yields_identical_tiles() {
    let sampler = TerrainSampler::new(0);
    let pos = ChunkPos::new(3, -2);
    let a = Chunk::new(&sampler, pos);
    let b = Chunk::new(&sampler, pos);
    assert_eq!(a.tiles.len(), b.tiles.len());
    for (ta, tb) in a.tiles.iter().zip(b.tiles.iter()) {
        assert_eq!(ta, tb);
    }
}

#[test]
fn chunk_lays_out_a_full_square_of_tiles() {
    let sampler = TerrainSampler::new(0);
    let pos = ChunkPos::new(1, 1);
    let c = Chunk::new(&sampler, pos);
    assert_eq!(c.size, CHUNK_SIZE);
    assert_eq!(c.tiles.len(), CHUNK_SIZE * CHUNK_SIZE);
    let base = pos.to_tile_pos(CHUNK_SIZE);
    assert_eq!(base, TilePos::new(4, 4, 0));
    for dy in 0..CHUNK_SIZE as i64 {
        for dx in 0..CHUNK_SIZE as i64 {
            let tile = c.tiles[(dy as usize) * CHUNK_SIZE + dx as usize];
            assert_eq!(tile.position.x, base.x + dx);
            assert_eq!(tile.position.y, base.y + dy);
            let expected = sampler.sample(base.x + dx, base.y + dy);
            assert_eq!(tile.position.z, expected as i64);
        }
    }
}

#[test]
fn to_tile_pos_scales_by_chunk_size() {
    let p = ChunkPos::new(-3, 5);
    let t = p.to_tile_pos(4);
    assert_eq!(t, TilePos::new(-12, 20, 0));
}

#[test]
fn manager_starts_with_the_square_around_origin() {
    let mut m = ChunkManager::new(TerrainSampler::new(0));
    for x in -2i64..=2 {
        for y in -2i64..=2 {
            assert!(m.find_chunk(ChunkPos::new(x, y)).is_some());
        }
    }
    assert!(m.find_chunk(ChunkPos::new(3, 0)).is_none());
    assert!(m.find_chunk(ChunkPos::new(0, -3)).is_none());
    assert_eq!(m.chunks.len(), 25);
}

#[test]
fn radius_query_returns_exactly_the_chebyshev_square() {
    let mut m = ChunkManager::new(TerrainSampler::new(0));
    let center = ChunkPos::new(10, -10);
    let r = 1usize;
    let got = m.get_chunks_radius(center, r);
    assert_eq!(got.len(), 9);
    // Exactly the positions within Chebyshev distance 1, no duplicates.
    for (i, (p, c)) in got.iter().enumerate() {
        assert!((p.x - center.x).abs() <= 1 && (p.y - center.y).abs() <= 1);
        assert_eq!(c.pos, *p);
        for (j, (q, _)) in got.iter().enumerate() {
            if i != j {
                assert_ne!(p, q);
            }
        }
    }
    for x in center.x - 1..=center.x + 1 {
        for y in center.y - 1..=center.y + 1 {
            assert!(got.iter().any(|(p, _)| *p == ChunkPos::new(x, y)));
        }
    }
}

#[test]
fn radius_query_generates_each_missing_chunk_exactly_once() {
    let mut m = ChunkManager::new(TerrainSampler::new(0));
    let before = m.chunks.len();
    let center = ChunkPos::new(100, 100);
    let _ = m.get_chunks_radius(center, 1);
    assert_eq!(m.chunks.len(), before + 9);
    // A second identical query generates nothing new.
    let _ = m.get_chunks_radius(center, 1);
    assert_eq!(m.chunks.len(), before + 9);
}

#[test]
fn get_chunks_skips_absent_positions() {
    let m = ChunkManager::new(TerrainSampler::new(0));
    let wanted = vec![ChunkPos::new(0, 0), ChunkPos::new(40, 40), ChunkPos::new(-1, 2)];
    let got = m.get_chunks(&wanted);
    assert_eq!(got.len(), 2);
    assert_eq!(got[0].0, ChunkPos::new(0, 0));
    assert_eq!(got[1].0, ChunkPos::new(-1, 2));
}
