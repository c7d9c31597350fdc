use ring_world::chunk::Chunk;
use ring_world::ring_world::{ChunkCoord, ChunkGrid};
use ring_world::structures::StructureGenerator;
use ring_world::voxel::{Voxel, VoxelType};

fn grid() -> ChunkGrid {
    ChunkGrid { chunks_circumference: 64, chunks_width: 4, chunks_height: 4, chunk_size: 8 }
}

#[test]
fn hash_matches_known_values() {
    assert_eq!(StructureGenerator::hash(1, 2, 3), 150282087);
    assert_eq!(StructureGenerator::hash(-5, 7, 42), 3959111225);
    assert_eq!(StructureGenerator::hash3(64, 2, 1, 4001), 1593773414);
    assert_eq!(StructureGenerator::hash(0, 0, 0), 0);
}

#[test]
fn spiral_stair_turns_an_eighth_per_block() {
    let g = StructureGenerator::new(7);
    assert!(g.is_spiral_stair(1, 0, 1));
    assert!(g.is_spiral_stair(1, 1, 2));
    assert!(g.is_spiral_stair(0, 1, 3));
    assert!(g.is_spiral_stair(1, -1, 8));
    assert!(g.is_spiral_stair(1, 0, 9));
    assert!(g.is_spiral_stair(1, -1, 0));
    assert!(g.is_spiral_stair(-1, 0, -3));
    assert!(!g.is_spiral_stair(0, 0, 1));
}

#[test]
fn force_block_only_touches_this_chunk() {
    let g = StructureGenerator::new(1);
    let mut chunk = Chunk::new(ChunkCoord::new(2, 1, 0), 8);
    // World x 17 is local x 1 of ring chunk 2; world z 9 is local z 1 of width chunk 1.
    g.force_block_in_chunk(&mut chunk, 17, 9, 3, VoxelType::Stone);
    assert_eq!(chunk.get_voxel(1, 3, 1).voxel_type, VoxelType::Stone);
    g.force_block_in_chunk(&mut chunk, 17, 9, 3, VoxelType::Dirt);
    assert_eq!(chunk.get_voxel(1, 3, 1).voxel_type, VoxelType::Dirt);
    chunk.dirty = false;
    g.force_block_in_chunk(&mut chunk, 5, 9, 3, VoxelType::Stone);
    assert!(!chunk.dirty);
}

#[test]
fn surface_placement_keeps_existing_blocks() {
    let g = StructureGenerator::new(1);
    let mut chunk = Chunk::new(ChunkCoord::new(0, 0, 0), 8);
    chunk.set_voxel(2, 2, 2, Voxel::new(VoxelType::Stone));
    chunk.set_voxel(3, 2, 2, Voxel::new(VoxelType::Flower));
    g.place_block_on_surface(&mut chunk, 2, 2, 2, VoxelType::Plank);
    g.place_block_on_surface(&mut chunk, 3, 2, 2, VoxelType::Plank);
    g.place_block_on_surface(&mut chunk, 4, 2, 2, VoxelType::Plank);
    assert_eq!(chunk.get_voxel(2, 2, 2).voxel_type, VoxelType::Stone);
    assert_eq!(chunk.get_voxel(3, 2, 2).voxel_type, VoxelType::Plank);
    assert_eq!(chunk.get_voxel(4, 2, 2).voxel_type, VoxelType::Plank);
}

#[test]
fn rim_chunks_get_bedrock_walls() {
    let g = StructureGenerator::new(1);
    let mut near = Chunk::new(ChunkCoord::new(0, 0, 0), 8);
    g.generate_ring_edge_walls(&mut near, &grid());
    assert_eq!(near.get_voxel(5, 5, 2).voxel_type, VoxelType::Bedrock);
    assert_eq!(near.get_voxel(5, 5, 3).voxel_type, VoxelType::Air);
    let mut far = Chunk::new(ChunkCoord::new(0, 3, 0), 8);
    g.generate_ring_edge_walls(&mut far, &grid());
    assert_eq!(far.get_voxel(0, 7, 5).voxel_type, VoxelType::Bedrock);
    assert_eq!(far.get_voxel(0, 7, 4).voxel_type, VoxelType::Air);
    let mut inner = Chunk::new(ChunkCoord::new(0, 2, 0), 8);
    g.generate_ring_edge_walls(&mut inner, &grid());
    assert!(inner.is_empty());
}
