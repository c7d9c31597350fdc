use ring_world::chunk::{chunk_key, Chunk, ChunkManager};
use ring_world::lighting::{light_level_in_chunk, LightingEngine};
use ring_world::ring_world::{ChunkCoord, ChunkGrid};
use ring_world::voxel::{Voxel, VoxelType};

fn empty_chunk(size: u32) -> Chunk {
    Chunk::new(ChunkCoord::new(0, 0, 0), size)
}

#[test]
fn sunlight_reaches_top_of_empty_chunk() {
    let mut chunk = empty_chunk(16);
    LightingEngine::propagate_sunlight(&mut chunk);
    for x in 0..16 {
        for z in 0..16 {
            let (sun, _) = chunk.get_light(x, 15, z);
            assert_eq!(sun, 15, "top sunlight should be full at ({},15,{})", x, z);
        }
    }
}

#[test]
fn sunlight_fills_empty_column() {
    let mut chunk = empty_chunk(16);
    LightingEngine::propagate_sunlight(&mut chunk);
    for y in 0..16 {
        let (sun, _) = chunk.get_light(8, y, 8);
        assert_eq!(sun, 15, "expected full sunlight at y={}", y);
    }
}

#[test]
fn opaque_block_blocks_sunlight_below() {
    let mut chunk = empty_chunk(16);
    chunk.set_voxel(4, 8, 4, Voxel::new(VoxelType::Stone));
    LightingEngine::propagate_sunlight(&mut chunk);
    let (sun_at_block, _) = chunk.get_light(4, 8, 4);
    assert_eq!(sun_at_block, 0, "opaque block should have 0 sunlight");
}

#[test]
fn torch_emits_decreasing_block_light() {
    let mut chunk = empty_chunk(16);
    chunk.set_voxel(8, 8, 8, Voxel::new(VoxelType::Torch));
    LightingEngine::propagate_block_light(&mut chunk);

    let (_, at_torch) = chunk.get_light(8, 8, 8);
    let (_, one_away) = chunk.get_light(9, 8, 8);
    let (_, two_away) = chunk.get_light(10, 8, 8);

    assert!(at_torch > 0, "torch position should be lit");
    assert!(one_away < at_torch, "light should decrease away from torch");
    assert!(two_away < one_away, "light should keep decreasing");
}

#[test]
fn compute_lighting_runs_without_panic() {
    let mut chunk = empty_chunk(16);
    chunk.set_voxel(8, 4, 8, Voxel::new(VoxelType::Torch));
    chunk.set_voxel(2, 2, 2, Voxel::new(VoxelType::Stone));
    LightingEngine::compute_lighting(&mut chunk);
    let (_, block) = chunk.get_light(8, 4, 8);
    assert!(block > 0);
}

#[test]
fn torch_light_falls_off_by_one_per_step() {
    let mut chunk = empty_chunk(8);
    chunk.set_voxel(4, 4, 4, Voxel::new(VoxelType::Torch));
    LightingEngine::propagate_block_light(&mut chunk);
    assert_eq!(chunk.get_light(4, 4, 4).1, 14);
    assert_eq!(chunk.get_light(5, 4, 4).1, 13);
    assert_eq!(chunk.get_light(6, 5, 4).1, 11);
    assert_eq!(chunk.get_light(0, 0, 0).1, 2);
}

#[test]
fn sunlight_under_roof_spreads_sideways() {
    let mut chunk = empty_chunk(4);
    for x in 0..3 {
        for z in 0..4 {
            chunk.set_voxel(x, 3, z, Voxel::new(VoxelType::Stone));
        }
    }
    LightingEngine::propagate_sunlight(&mut chunk);
    // Open column at x = 3 keeps full sunlight; cells under the roof get
    // light spread sideways, one level per step.
    assert_eq!(chunk.get_light(3, 2, 0).0, 15);
    assert_eq!(chunk.get_light(2, 2, 0).0, 14);
    assert_eq!(chunk.get_light(0, 2, 0).0, 12);
    assert_eq!(chunk.get_light(1, 3, 0).0, 0);
}

#[test]
fn recompute_lighting_clears_stale_light() {
    let mut chunk = empty_chunk(4);
    chunk.set_voxel(1, 1, 1, Voxel::new(VoxelType::Torch));
    LightingEngine::compute_lighting(&mut chunk);
    assert!(chunk.get_light(1, 1, 1).1 > 0);
    chunk.set_voxel(1, 1, 1, Voxel::air());
    LightingEngine::recompute_lighting(&mut chunk);
    assert_eq!(chunk.get_light(1, 1, 1).1, 0);
    assert_eq!(chunk.get_light(2, 2, 2).1, 0);
}

#[test]
fn light_level_in_chunk_reads_brighter_channel_or_zero() {
    let grid = ChunkGrid { chunks_circumference: 8, chunks_width: 2, chunks_height: 2, chunk_size: 4 };
    let mut mgr = ChunkManager::new(grid, 1);
    let coord = ChunkCoord::new(1, 0, 0);
    assert_eq!(light_level_in_chunk(&mgr, &coord, 1, 1, 1), 0);
    let mut chunk = Chunk::new(coord, 4);
    chunk.set_light(1, 1, 1, 4, 11);
    mgr.chunks.insert(chunk_key(&coord), chunk);
    assert_eq!(light_level_in_chunk(&mgr, &coord, 1, 1, 1), 11);
    assert_eq!(light_level_in_chunk(&mgr, &coord, -1, 1, 1), 0);
    assert_eq!(light_level_in_chunk(&mgr, &coord, 1, 4, 1), 0);
}
