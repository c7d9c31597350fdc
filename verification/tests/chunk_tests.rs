use ring_world::chunk::{
    is_alpha_tested, is_cross_render, is_translucent, occludes, Chunk, Face, UNLOADED_NEIGHBOR_LIGHT,
};
use ring_world::ring_world::ChunkCoord;
use ring_world::voxel::{Voxel, VoxelType};

fn test_coord() -> ChunkCoord {
    ChunkCoord::new(0, 0, 0)
}

fn no_neighbors<'a>() -> [Option<&'a Chunk>; 6] {
    [None, None, None, None, None, None]
}

#[test]
fn sample_light_at_unloaded_neighbor_is_symmetric() {
    let chunk = Chunk::new(test_coord(), 16);
    let neighbors = no_neighbors();
    let size = chunk.size() as i32;

    let px = chunk.sample_light_at(size, 8, 8, &neighbors);
    let nx = chunk.sample_light_at(-1, 8, 8, &neighbors);
    let py = chunk.sample_light_at(8, size, 8, &neighbors);
    let ny = chunk.sample_light_at(8, -1, 8, &neighbors);
    let pz = chunk.sample_light_at(8, 8, size, &neighbors);
    let nz = chunk.sample_light_at(8, 8, -1, &neighbors);

    assert_eq!(px, nx);
    assert_eq!(px, py);
    assert_eq!(px, ny, "-Y unloaded-neighbor sample must match the others");
    assert_eq!(px, pz);
    assert_eq!(px, nz);
    assert_eq!(px, UNLOADED_NEIGHBOR_LIGHT);
}

#[test]
fn new_chunk_is_all_air() {
    let chunk = Chunk::new(test_coord(), 16);
    assert!(chunk.is_empty());
    for x in 0..16 {
        for y in 0..16 {
            for z in 0..16 {
                assert_eq!(chunk.get_voxel(x, y, z).voxel_type, VoxelType::Air);
            }
        }
    }
}

#[test]
fn set_and_get_voxel_round_trip() {
    let mut chunk = Chunk::new(test_coord(), 16);
    chunk.set_voxel(3, 4, 5, Voxel::new(VoxelType::Stone));
    assert_eq!(chunk.get_voxel(3, 4, 5).voxel_type, VoxelType::Stone);
    assert_eq!(chunk.get_voxel(3, 4, 6).voxel_type, VoxelType::Air);
}

#[test]
fn set_voxel_marks_dirty() {
    let mut chunk = Chunk::new(test_coord(), 16);
    chunk.dirty = false;
    chunk.set_voxel(0, 0, 0, Voxel::new(VoxelType::Dirt));
    assert!(chunk.dirty);
}

#[test]
fn out_of_bounds_get_returns_air() {
    let chunk = Chunk::new(test_coord(), 16);
    assert_eq!(chunk.get_voxel(100, 0, 0).voxel_type, VoxelType::Air);
    assert_eq!(chunk.get_voxel(0, 100, 0).voxel_type, VoxelType::Air);
    assert_eq!(chunk.get_voxel(0, 0, 100).voxel_type, VoxelType::Air);
}

#[test]
fn out_of_bounds_set_is_noop() {
    let mut chunk = Chunk::new(test_coord(), 16);
    chunk.set_voxel(100, 100, 100, Voxel::new(VoxelType::Stone));
    assert!(chunk.is_empty());
}

#[test]
fn light_packing_round_trip() {
    let mut chunk = Chunk::new(test_coord(), 16);
    chunk.set_light(1, 2, 3, 12, 7);
    let (sun, block) = chunk.get_light(1, 2, 3);
    assert_eq!(sun, 12);
    assert_eq!(block, 7);
}

#[test]
fn light_packing_independent_components() {
    let mut chunk = Chunk::new(test_coord(), 16);
    chunk.set_light(0, 0, 0, 15, 15);
    assert_eq!(chunk.get_light(0, 0, 0), (15, 15));
    chunk.set_light(0, 0, 0, 15, 0);
    assert_eq!(chunk.get_light(0, 0, 0), (15, 0));
    chunk.set_light(0, 0, 0, 0, 9);
    assert_eq!(chunk.get_light(0, 0, 0), (0, 9));
}

#[test]
fn light_out_of_bounds_default() {
    let chunk = Chunk::new(test_coord(), 16);
    assert_eq!(chunk.get_light(100, 0, 0), (15, 0));
}

#[test]
fn clear_light_resets_all() {
    let mut chunk = Chunk::new(test_coord(), 16);
    chunk.set_light(2, 2, 2, 10, 10);
    chunk.clear_light();
    assert_eq!(chunk.get_light(2, 2, 2), (0, 0));
}

#[test]
fn is_empty_after_setting_air() {
    let mut chunk = Chunk::new(test_coord(), 16);
    chunk.set_voxel(0, 0, 0, Voxel::new(VoxelType::Stone));
    assert!(!chunk.is_empty());
    chunk.set_voxel(0, 0, 0, Voxel::air());
    assert!(chunk.is_empty());
}

#[test]
fn size_reports_correctly() {
    let chunk = Chunk::new(test_coord(), 8);
    assert_eq!(chunk.size(), 8);
}

#[test]
fn occludes_air_emits_face() {
    assert!(!occludes(VoxelType::Stone, VoxelType::Air));
    assert!(!occludes(VoxelType::Water, VoxelType::Air));
}

#[test]
fn occludes_opaque_neighbor_culls_face() {
    assert!(occludes(VoxelType::Grass, VoxelType::Stone));
    assert!(occludes(VoxelType::Water, VoxelType::Stone));
}

#[test]
fn occludes_same_translucent_type_culls_interior() {
    assert!(occludes(VoxelType::Water, VoxelType::Water));
    assert!(occludes(VoxelType::Leaves, VoxelType::Leaves));
}

#[test]
fn occludes_different_translucent_types_emit() {
    assert!(!occludes(VoxelType::Water, VoxelType::Leaves));
    assert!(!occludes(VoxelType::Leaves, VoxelType::Water));
    assert!(!occludes(VoxelType::Stone, VoxelType::Water));
    assert!(!occludes(VoxelType::Stone, VoxelType::Leaves));
}

#[test]
fn occludes_cross_render_plant_never_occludes() {
    assert!(!occludes(VoxelType::Stone, VoxelType::TallGrass));
    assert!(!occludes(VoxelType::Stone, VoxelType::Flower));
    assert!(!occludes(VoxelType::Leaves, VoxelType::Vine));
}

#[test]
fn is_alpha_tested_only_foliage() {
    assert!(is_alpha_tested(VoxelType::Leaves));
    assert!(is_alpha_tested(VoxelType::TallGrass));
    assert!(is_alpha_tested(VoxelType::Flower));
    assert!(is_alpha_tested(VoxelType::Mushroom));
    assert!(is_alpha_tested(VoxelType::Vine));
    assert!(!is_alpha_tested(VoxelType::Grass));
    assert!(!is_alpha_tested(VoxelType::Dirt));
    assert!(!is_alpha_tested(VoxelType::Stone));
    assert!(!is_alpha_tested(VoxelType::Wood));
}

#[test]
fn is_translucent_only_water() {
    assert!(is_translucent(VoxelType::Water));
    assert!(!is_translucent(VoxelType::Leaves));
    assert!(!is_translucent(VoxelType::Stone));
    assert!(!is_translucent(VoxelType::Air));
}

#[test]
fn cross_render_covers_plants_only() {
    assert!(is_cross_render(VoxelType::TallGrass));
    assert!(is_cross_render(VoxelType::Vine));
    assert!(!is_cross_render(VoxelType::Leaves));
    assert!(!is_cross_render(VoxelType::Air));
}

#[test]
fn face_solid_only_when_every_face_cell_is_opaque() {
    let mut chunk = Chunk::new(test_coord(), 4);
    assert!(!chunk.is_face_solid(0));
    for y in 0..4 {
        for z in 0..4 {
            chunk.set_voxel(3, y, z, Voxel::new(VoxelType::Stone));
        }
    }
    assert!(chunk.is_face_solid(0));
    assert!(!chunk.is_face_solid(1));
    assert!(!chunk.is_face_solid(6));
    chunk.set_voxel(3, 2, 1, Voxel::new(VoxelType::Torch));
    assert!(!chunk.is_face_solid(0));
}

#[test]
fn sample_light_inside_takes_brighter_channel_and_reads_loaded_neighbor() {
    let mut chunk = Chunk::new(test_coord(), 4);
    chunk.set_light(1, 1, 1, 3, 9);
    let none = no_neighbors();
    assert_eq!(chunk.sample_light_at(1, 1, 1, &none), 9);
    let mut east = Chunk::new(ChunkCoord::new(1, 0, 0), 4);
    east.set_light(0, 3, 0, 6, 2);
    let nb = [Some(&east), None, None, None, None, None];
    // y = 7 is clamped to the neighbour's top row, z = -1 to its first column.
    assert_eq!(chunk.sample_light_at(4, 7, -1, &nb), 6);
    assert_eq!(chunk.sample_light_at(4, 0, 0, &nb), 0);
}

#[test]
fn face_light_sums_add_four_samples_per_corner() {
    let chunk = Chunk::new(test_coord(), 4);
    let none = no_neighbors();
    // All in-chunk light is 0; samples leaving the chunk see full light.
    assert_eq!(chunk.face_light_sums(1, 1, 1, Face::PosY, &none), [0, 0, 0, 0]);
    // On the -X side the offsets for corners 1 and 2 step back into the chunk.
    let sums = chunk.face_light_sums(0, 1, 1, Face::NegX, &none);
    assert_eq!(sums, [60, 30, 30, 60]);
    let sums = chunk.face_light_sums(1, 3, 0, Face::PosX, &none);
    // Corner offsets for X faces step in z: corners 0 and 1 leave the chunk.
    assert_eq!(sums, [30, 30, 0, 0]);
}

#[test]
fn face_visibility_follows_occlusion_and_neighbors() {
    let mut chunk = Chunk::new(test_coord(), 4);
    chunk.set_voxel(1, 1, 1, Voxel::new(VoxelType::Stone));
    chunk.set_voxel(2, 1, 1, Voxel::new(VoxelType::Stone));
    let none = no_neighbors();
    assert!(!chunk.is_face_visible(1, 1, 1, Face::PosX, 4, &none));
    assert!(chunk.is_face_visible(1, 1, 1, Face::NegX, 4, &none));
    chunk.set_voxel(3, 0, 0, Voxel::new(VoxelType::Stone));
    // Unloaded neighbour: the boundary face is drawn.
    assert!(chunk.is_face_visible(3, 0, 0, Face::PosX, 4, &none));
    let mut east = Chunk::new(ChunkCoord::new(1, 0, 0), 4);
    east.set_voxel(0, 0, 0, Voxel::new(VoxelType::Dirt));
    let nb = [Some(&east), None, None, None, None, None];
    assert!(!chunk.is_face_visible(3, 0, 0, Face::PosX, 4, &nb));
}

#[test]
fn lod_block_type_prefers_opaque_then_first_solid() {
    let mut chunk = Chunk::new(test_coord(), 4);
    assert_eq!(chunk.lod_block_type(0, 0, 0, 2), None);
    chunk.set_voxel(1, 0, 0, Voxel::new(VoxelType::Water));
    chunk.set_voxel(0, 1, 0, Voxel::new(VoxelType::Leaves));
    assert_eq!(chunk.lod_block_type(0, 0, 0, 2), Some(VoxelType::Water));
    chunk.set_voxel(1, 1, 1, Voxel::new(VoxelType::Stone));
    assert_eq!(chunk.lod_block_type(0, 0, 0, 2), Some(VoxelType::Stone));
    assert!(!chunk.lod_block_full_solid(0, 0, 0, 2));
}

#[test]
fn lod_solid_at_consults_neighbor_and_defaults_empty() {
    let mut chunk = Chunk::new(test_coord(), 4);
    for x in 2..4 {
        for y in 0..2 {
            for z in 0..2 {
                chunk.set_voxel(x, y, z, Voxel::new(VoxelType::Stone));
            }
        }
    }
    let none = no_neighbors();
    assert!(chunk.lod_block_full_solid(1, 0, 0, 2));
    assert!(chunk.lod_block_solid_at(1, 0, 0, 2, &none));
    assert!(!chunk.lod_block_solid_at(2, 0, 0, 2, &none));
    let mut west = Chunk::new(ChunkCoord::new(1, 0, 0), 4);
    for x in 2..4 {
        for y in 0..2 {
            for z in 0..2 {
                west.set_voxel(x, y, z, Voxel::new(VoxelType::Stone));
            }
        }
    }
    let nb = [None, Some(&west), None, None, None, None];
    assert!(chunk.lod_block_solid_at(-1, 0, 0, 2, &nb));
}

#[test]
fn face_mask_marks_drawn_cube_faces_only() {
    let mut chunk = Chunk::new(test_coord(), 4);
    chunk.set_voxel(1, 1, 1, Voxel::new(VoxelType::Stone));
    chunk.set_voxel(2, 1, 1, Voxel::new(VoxelType::Stone));
    chunk.set_voxel(2, 2, 3, Voxel::new(VoxelType::Flower));
    let none = no_neighbors();
    // +X slices index cells by (u, v) = (z, y).
    let m1 = chunk.face_mask(Face::PosX, 1, &none);
    assert_eq!(m1.len(), 16);
    assert!(m1.iter().all(|e| e.is_none()));
    let m2 = chunk.face_mask(Face::PosX, 2, &none);
    assert_eq!(m2[1 + 1 * 4], Some(VoxelType::Stone));
    assert_eq!(m2[3 + 2 * 4], None);
    assert_eq!(m2.iter().filter(|e| e.is_some()).count(), 1);
    let up = chunk.face_mask(Face::PosY, 1, &none);
    // +Y slices index cells by (u, v) = (x, z).
    assert_eq!(up[1 + 1 * 4], Some(VoxelType::Stone));
    assert_eq!(up[2 + 1 * 4], Some(VoxelType::Stone));
}

#[test]
fn apply_edits_writes_in_order_and_skips_out_of_range() {
    let mut chunk = Chunk::new(test_coord(), 4);
    chunk.dirty = false;
    // storage index = x + y*4 + z*16
    chunk.apply_edits(&[(1 + 2 * 4 + 3 * 16, 1), (0, 2), (0, 3), (64, 1), (65535, 1)]);
    assert!(chunk.dirty);
    assert_eq!(chunk.get_voxel(1, 2, 3).voxel_type, VoxelType::Stone);
    assert_eq!(chunk.get_voxel(0, 0, 0).voxel_type, VoxelType::from_u8(3));
    assert_eq!(chunk.get_voxel(3, 3, 3).voxel_type, VoxelType::Air);
    let mut untouched = Chunk::new(test_coord(), 4);
    untouched.dirty = false;
    untouched.apply_edits(&[]);
    assert!(!untouched.dirty);
}

#[test]
fn lod_solid_at_reads_a_smaller_neighbor_as_air_past_its_edge() {
    let chunk = Chunk::new(test_coord(), 4);
    let mut small = Chunk::new(ChunkCoord::new(1, 0, 0), 2);
    for x in 0..2 {
        for y in 0..2 {
            for z in 0..2 {
                small.set_voxel(x, y, z, Voxel::new(VoxelType::Stone));
            }
        }
    }
    let nb = [Some(&small), Some(&small), None, None, None, None];
    // +X side samples the neighbour's block (0, 0, 0): inside the small chunk.
    assert!(chunk.lod_block_solid_at(2, 0, 0, 2, &nb));
    // -X side samples block (1, 0, 0): voxels 2..4 lie past its edge, so air.
    assert!(!chunk.lod_block_solid_at(-1, 0, 0, 2, &nb));
}
