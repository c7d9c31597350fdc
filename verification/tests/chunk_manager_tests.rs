use ring_world::chunk::{chunk_key, Chunk, ChunkManager};
use ring_world::ring_world::{ChunkCoord, ChunkGrid};
use ring_world::voxel::{Voxel, VoxelType};

fn default_grid() -> ChunkGrid {
    ChunkGrid { chunks_circumference: 256, chunks_width: 16, chunks_height: 4, chunk_size: 16 }
}

#[test]
fn chunk_manager_set_voxel_dirties_boundary_neighbor() {
    let grid = default_grid();
    let size = grid.chunk_size;
    let mut mgr = ChunkManager::new(grid, 8);

    let center = ChunkCoord::new(0, 1, 1);
    let plus_x = center.neighbor(1, 0, 0, &grid).expect("+X neighbor exists");

    let mut c0 = Chunk::new(center, size);
    c0.generated = true;
    c0.dirty = false;
    let mut n0 = Chunk::new(plus_x, size);
    n0.generated = true;
    n0.dirty = false;
    mgr.chunks.insert(chunk_key(&center), c0);
    mgr.chunks.insert(chunk_key(&plus_x), n0);

    let edited = mgr.set_voxel(&center, size - 1, 8, 8, Voxel::new(VoxelType::Stone));
    assert!(edited, "edit on a present chunk must succeed");
    assert!(mgr.get_chunk(&center).unwrap().dirty, "edited chunk must be dirty");
    assert!(
        mgr.get_chunk(&plus_x).unwrap().dirty,
        "+X boundary neighbor must be marked dirty so its seam face re-meshes"
    );

    mgr.chunks.get_mut(&chunk_key(&center)).unwrap().dirty = false;
    mgr.chunks.get_mut(&chunk_key(&plus_x)).unwrap().dirty = false;
    mgr.set_voxel(&center, 8, 8, 8, Voxel::new(VoxelType::Stone));
    assert!(mgr.get_chunk(&center).unwrap().dirty, "interior edit dirties its own chunk");
    assert!(!mgr.get_chunk(&plus_x).unwrap().dirty, "interior edit must NOT dirty neighbors");
}

#[test]
fn set_voxel_on_missing_chunk_changes_nothing() {
    let mut mgr = ChunkManager::new(default_grid(), 1);
    assert!(!mgr.set_voxel(&ChunkCoord::new(3, 3, 3), 0, 0, 0, Voxel::new(VoxelType::Stone)));
    assert!(mgr.chunks.is_empty());
}

#[test]
fn set_voxel_outside_the_chunk_is_refused_and_changes_nothing() {
    let grid = default_grid();
    let size = grid.chunk_size;
    let mut mgr = ChunkManager::new(grid, 8);
    let center = ChunkCoord::new(0, 1, 1);
    let mut c0 = Chunk::new(center, size);
    c0.dirty = false;
    mgr.chunks.insert(chunk_key(&center), c0);
    assert!(!mgr.set_voxel(&center, size, 0, 0, Voxel::new(VoxelType::Stone)));
    assert!(!mgr.set_voxel(&center, 0, size, 0, Voxel::new(VoxelType::Stone)));
    assert!(!mgr.set_voxel(&center, 0, 0, size + 5, Voxel::new(VoxelType::Stone)));
    let chunk = mgr.get_chunk(&center).unwrap();
    assert!(!chunk.dirty, "a refused edit must not flag the chunk");
    for x in 0..size {
        for y in 0..size {
            for z in 0..size {
                assert_eq!(chunk.get_voxel(x, y, z).voxel_type, VoxelType::Air);
            }
        }
    }
    assert_eq!(mgr.chunks.len(), 1);
}

#[test]
fn corner_edit_dirties_all_three_neighbors() {
    let grid = ChunkGrid { chunks_circumference: 4, chunks_width: 3, chunks_height: 3, chunk_size: 4 };
    let mut mgr = ChunkManager::new(grid, 1);
    let center = ChunkCoord::new(0, 1, 1);
    mgr.update_loaded_chunks(&center);
    for c in mgr.chunks.values_mut() {
        c.dirty = false;
    }
    assert!(mgr.set_voxel(&center, 0, 0, 0, Voxel::new(VoxelType::Dirt)));
    let ring_back = ChunkCoord::new(3, 1, 1);
    let width_back = ChunkCoord::new(0, 0, 1);
    let below = ChunkCoord::new(0, 1, 0);
    let other = ChunkCoord::new(1, 1, 1);
    assert!(mgr.get_chunk(&ring_back).unwrap().dirty);
    assert!(mgr.get_chunk(&width_back).unwrap().dirty);
    assert!(mgr.get_chunk(&below).unwrap().dirty);
    assert!(!mgr.get_chunk(&other).unwrap().dirty);
}

#[test]
fn update_loaded_chunks_keeps_radius_and_unloads_the_rest() {
    let grid = ChunkGrid { chunks_circumference: 10, chunks_width: 3, chunks_height: 2, chunk_size: 4 };
    let mut mgr = ChunkManager::new(grid, 1);
    let center = ChunkCoord::new(0, 0, 0);
    mgr.update_loaded_chunks(&center);
    // Ring indices 9, 0, 1; widths 0, 1; heights 0, 1.
    assert_eq!(mgr.chunks.len(), 12);
    assert!(mgr.get_chunk(&ChunkCoord::new(9, 1, 1)).is_some());
    assert!(mgr.get_chunk(&ChunkCoord::new(2, 0, 0)).is_none());
    mgr.set_voxel(&center, 1, 1, 1, Voxel::new(VoxelType::Stone));
    mgr.update_loaded_chunks(&ChunkCoord::new(1, 0, 0));
    assert_eq!(mgr.chunks.len(), 12);
    assert!(mgr.get_chunk(&ChunkCoord::new(9, 0, 0)).is_none());
    assert!(mgr.get_chunk(&ChunkCoord::new(2, 1, 0)).is_some());
    // A chunk that stays loaded keeps its edits.
    assert_eq!(mgr.get_chunk(&center).unwrap().get_voxel(1, 1, 1).voxel_type, VoxelType::Stone);
    assert!(mgr.get_chunk(&ChunkCoord::new(2, 1, 0)).unwrap().is_empty());
}

#[test]
fn voxel_type_at_cell_reads_loaded_cells_only() {
    let grid = default_grid();
    let mut mgr = ChunkManager::new(grid, 1);
    let coord = ChunkCoord::new(2, 2, 2);
    assert_eq!(mgr.voxel_type_at_cell(&coord, 0, 0, 0), None);
    mgr.chunks.insert(chunk_key(&coord), Chunk::new(coord, 16));
    mgr.set_voxel(&coord, 3, 4, 5, Voxel::new(VoxelType::Water));
    assert_eq!(mgr.voxel_type_at_cell(&coord, 3, 4, 5), Some(VoxelType::Water));
    assert_eq!(mgr.voxel_type_at_cell(&coord, 3, 4, 6), Some(VoxelType::Air));
    assert_eq!(mgr.voxel_type_at_cell(&coord, -1, 4, 5), None);
    assert_eq!(mgr.voxel_type_at_cell(&coord, 3, 16, 5), None);
}

#[test]
fn remesh_queue_lists_dirty_generated_chunks_once() {
    let grid = default_grid();
    let mut mgr = ChunkManager::new(grid, 1);
    let a = ChunkCoord::new(0, 1, 1);
    let b = ChunkCoord::new(1, 1, 1);
    let c = ChunkCoord::new(2, 1, 1);
    let mut ca = Chunk::new(a, 16);
    ca.generated = true;
    let mut cb = Chunk::new(b, 16);
    cb.generated = true;
    cb.dirty = false;
    let cc = Chunk::new(c, 16);
    mgr.chunks.insert(chunk_key(&a), ca);
    mgr.chunks.insert(chunk_key(&b), cb);
    mgr.chunks.insert(chunk_key(&c), cc);
    assert_eq!(mgr.remesh_queue(), vec![a]);
}

#[test]
fn finish_remesh_clears_dirty_and_bumps_version() {
    let grid = default_grid();
    let mut mgr = ChunkManager::new(grid, 1);
    let a = ChunkCoord::new(0, 1, 1);
    let mut ca = Chunk::new(a, 16);
    ca.generated = true;
    mgr.chunks.insert(chunk_key(&a), ca);
    assert_eq!(mgr.finish_remesh(&a), Some(1));
    assert_eq!(mgr.finish_remesh(&a), Some(2));
    let chunk = mgr.get_chunk(&a).unwrap();
    assert!(!chunk.dirty);
    assert_eq!(chunk.mesh_version, 2);
    assert_eq!(mgr.finish_remesh(&ChunkCoord::new(5, 1, 1)), None);
    assert!(mgr.remesh_queue().is_empty());
}

#[test]
fn lod_mismatches_are_flagged_for_remeshing() {
    let grid = default_grid();
    let mut mgr = ChunkManager::new(grid, 1);
    let center = ChunkCoord::new(0, 1, 1);
    let near = ChunkCoord::new(3, 1, 1);
    let far = ChunkCoord::new(250, 1, 1);
    let far2 = ChunkCoord::new(20, 1, 1);
    for coord in [near, far, far2] {
        let mut c = Chunk::new(coord, 16);
        c.dirty = false;
        c.generated = true;
        mgr.chunks.insert(chunk_key(&coord), c);
    }
    // All three were meshed at low detail: wrong for near (3 chunks away)
    // and far (6 away the short way round), right for far2 (20 away).
    mgr.mark_lod_mismatches(&[(near, true), (far, true), (far2, true)], &center);
    assert!(mgr.get_chunk(&near).unwrap().dirty);
    assert!(mgr.get_chunk(&far).unwrap().dirty);
    assert!(!mgr.get_chunk(&far2).unwrap().dirty);
    let mut mgr2 = ChunkManager::new(grid, 1);
    let mut c = Chunk::new(far2, 16);
    c.dirty = false;
    mgr2.chunks.insert(chunk_key(&far2), c);
    mgr2.mark_lod_mismatches(&[(far2, false), (ChunkCoord::new(9, 1, 1), false)], &center);
    assert!(mgr2.get_chunk(&far2).unwrap().dirty);
    assert_eq!(mgr2.chunks.len(), 1);
}
