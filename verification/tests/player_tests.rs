use ring_world::chunk::{chunk_key, Chunk, ChunkManager};
use ring_world::inventory::Inventory;
use ring_world::block::ToolType;
use ring_world::player::{break_speed_multiplier, destroy_block_at, place_block_at, placement_target, BreakingTarget, PlacementPreview, RaycastHit};
use ring_world::ring_world::{ChunkCoord, ChunkGrid};
use ring_world::voxel::{Voxel, VoxelType};

fn grid() -> ChunkGrid {
    ChunkGrid { chunks_circumference: 10, chunks_width: 3, chunks_height: 2, chunk_size: 16 }
}

fn hit(coord: ChunkCoord, x: u32, y: u32, z: u32, normal: [i32; 3]) -> RaycastHit {
    RaycastHit { chunk_coord: coord, local_x: x, local_y: y, local_z: z, normal }
}

#[test]
fn breaking_target_copies_hit_cell() {
    let h = hit(ChunkCoord::new(3, 1, 0), 4, 5, 6, [0, 1, 0]);
    let t = BreakingTarget::from_raycast_hit(&h);
    assert_eq!(t.chunk_coord, ChunkCoord::new(3, 1, 0));
    assert_eq!((t.local_x, t.local_y, t.local_z), (4, 5, 6));
}

#[test]
fn placement_inside_chunk_steps_along_normal() {
    let p = placement_target(&hit(ChunkCoord::new(3, 1, 0), 4, 5, 6, [0, 1, 0]), &grid()).unwrap();
    assert_eq!(p.chunk_coord, ChunkCoord::new(3, 1, 0));
    assert_eq!((p.local_x, p.local_y, p.local_z), (4, 6, 6));
}

#[test]
fn placement_crosses_into_neighbor_and_wraps_ring() {
    let p = placement_target(&hit(ChunkCoord::new(0, 1, 0), 0, 5, 6, [-1, 0, 0]), &grid()).unwrap();
    assert_eq!(p.chunk_coord, ChunkCoord::new(9, 1, 0));
    assert_eq!((p.local_x, p.local_y, p.local_z), (15, 5, 6));
    let p = placement_target(&hit(ChunkCoord::new(2, 1, 0), 3, 15, 6, [0, 1, 0]), &grid()).unwrap();
    assert_eq!(p.chunk_coord, ChunkCoord::new(2, 1, 1));
    assert_eq!(p.local_y, 0);
}

#[test]
fn placement_off_world_edge_is_refused() {
    assert!(placement_target(&hit(ChunkCoord::new(2, 2, 0), 3, 4, 15, [0, 0, 1]), &grid()).is_none());
    assert!(placement_target(&hit(ChunkCoord::new(2, 0, 1), 3, 15, 4, [0, 1, 0]), &grid()).is_none());
}

fn manager_with(coord: ChunkCoord) -> ChunkManager {
    let mut mgr = ChunkManager::new(grid(), 1);
    mgr.chunks.insert(chunk_key(&coord), Chunk::new(coord, 16));
    mgr
}

#[test]
fn destroying_stone_yields_cobblestone_in_survival() {
    let coord = ChunkCoord::new(3, 1, 0);
    let mut mgr = manager_with(coord);
    mgr.set_voxel(&coord, 4, 5, 6, Voxel::new(VoxelType::Stone));
    let mut inv = Inventory::new();
    assert!(destroy_block_at(&hit(coord, 4, 5, 6, [0, 1, 0]), &mut mgr, &mut inv, false));
    assert_eq!(mgr.get_chunk(&coord).unwrap().get_voxel(4, 5, 6).voxel_type, VoxelType::Air);
    assert_eq!(inv.count_item(VoxelType::Cobblestone), 1);
}

#[test]
fn destroying_bedrock_or_in_creative() {
    let coord = ChunkCoord::new(3, 1, 0);
    let mut mgr = manager_with(coord);
    mgr.set_voxel(&coord, 1, 1, 1, Voxel::new(VoxelType::Bedrock));
    mgr.set_voxel(&coord, 2, 1, 1, Voxel::new(VoxelType::Dirt));
    let mut inv = Inventory::new();
    assert!(!destroy_block_at(&hit(coord, 1, 1, 1, [0, 1, 0]), &mut mgr, &mut inv, false));
    assert_eq!(mgr.get_chunk(&coord).unwrap().get_voxel(1, 1, 1).voxel_type, VoxelType::Bedrock);
    assert!(destroy_block_at(&hit(coord, 2, 1, 1, [0, 1, 0]), &mut mgr, &mut inv, true));
    assert_eq!(inv.count_item(VoxelType::Dirt), 0);
    assert!(!destroy_block_at(&hit(ChunkCoord::new(5, 1, 0), 2, 1, 1, [0, 1, 0]), &mut mgr, &mut inv, false));
}

#[test]
fn placing_consumes_from_hotbar_only_in_survival() {
    let coord = ChunkCoord::new(3, 1, 0);
    let mut mgr = manager_with(coord);
    let mut inv = Inventory::new();
    let target = PlacementPreview { chunk_coord: coord, local_x: 2, local_y: 2, local_z: 2 };
    assert!(!place_block_at(&target, VoxelType::Plank, &mut mgr, &mut inv, 0, false));
    inv.add_item(VoxelType::Plank, 2);
    assert!(place_block_at(&target, VoxelType::Plank, &mut mgr, &mut inv, 0, false));
    assert_eq!(mgr.get_chunk(&coord).unwrap().get_voxel(2, 2, 2).voxel_type, VoxelType::Plank);
    assert_eq!(inv.count_item(VoxelType::Plank), 1);
    // The cell is now occupied.
    assert!(!place_block_at(&target, VoxelType::Plank, &mut mgr, &mut inv, 0, false));
    let other = PlacementPreview { chunk_coord: coord, local_x: 3, local_y: 2, local_z: 2 };
    assert!(place_block_at(&other, VoxelType::Stone, &mut mgr, &mut inv, 0, true));
    assert_eq!(inv.count_item(VoxelType::Plank), 1);
}

#[test]
fn break_speed_uses_the_held_tool_only_when_it_matches() {
    let mut inv = Inventory::new();
    assert_eq!(break_speed_multiplier(&inv, 0, ToolType::Pickaxe), 1);
    inv.add_item(VoxelType::StonePickaxe, 1);
    inv.add_item(VoxelType::IronAxe, 1);
    inv.add_item(VoxelType::Dirt, 5);
    assert_eq!(break_speed_multiplier(&inv, 0, ToolType::Pickaxe), 4);
    assert_eq!(break_speed_multiplier(&inv, 0, ToolType::Axe), 1);
    assert_eq!(break_speed_multiplier(&inv, 1, ToolType::Axe), 6);
    assert_eq!(break_speed_multiplier(&inv, 2, ToolType::Shovel), 1);
    assert_eq!(break_speed_multiplier(&inv, 3, ToolType::Pickaxe), 1);
    assert_eq!(break_speed_multiplier(&inv, 9, ToolType::Pickaxe), 1);
}
