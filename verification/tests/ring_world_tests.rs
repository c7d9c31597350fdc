use ring_world::ring_world::{chunk_distance_between, ChunkCoord, ChunkGrid};

fn default_grid() -> ChunkGrid {
    ChunkGrid { chunks_circumference: 256, chunks_width: 16, chunks_height: 4, chunk_size: 16 }
}

#[test]
fn neighbor_wraps_ring_index_around() {
    let config = default_grid();
    let coord = ChunkCoord::new(0, 5, 1);
    let n = coord.neighbor(-1, 0, 0, &config).expect("ring wraps, should be Some");
    assert_eq!(n.ring_index, config.chunks_circumference - 1);
    assert_eq!(n.width_index, 5);
    assert_eq!(n.height_index, 1);
}

#[test]
fn neighbor_wraps_ring_index_at_top() {
    let config = default_grid();
    let coord = ChunkCoord::new(config.chunks_circumference - 1, 0, 0);
    let n = coord.neighbor(1, 0, 0, &config).expect("ring wraps, should be Some");
    assert_eq!(n.ring_index, 0);
}

#[test]
fn neighbor_returns_none_off_width_edge() {
    let config = default_grid();
    let coord = ChunkCoord::new(0, 0, 0);
    assert!(coord.neighbor(0, -1, 0, &config).is_none());
    let coord_top = ChunkCoord::new(0, config.chunks_width - 1, 0);
    assert!(coord_top.neighbor(0, 1, 0, &config).is_none());
}

#[test]
fn neighbor_returns_none_off_height_edge() {
    let config = default_grid();
    let coord = ChunkCoord::new(0, 0, 0);
    assert!(coord.neighbor(0, 0, -1, &config).is_none());
    let coord_top = ChunkCoord::new(0, 0, config.chunks_height - 1);
    assert!(coord_top.neighbor(0, 0, 1, &config).is_none());
}

#[test]
fn grid_indices_wrap_ring_and_clamp_edges() {
    let config = default_grid();
    let c = ChunkCoord::from_grid_indices(258, 40, 9, &config);
    assert_eq!(c, ChunkCoord::new(2, 15, 3));
    let c = ChunkCoord::from_grid_indices(5, 3, 1, &config);
    assert_eq!(c, ChunkCoord::new(5, 3, 1));
}

#[test]
fn chunk_distance_takes_shorter_way_round() {
    let config = default_grid();
    let a = ChunkCoord::new(1, 3, 0);
    let b = ChunkCoord::new(254, 4, 2);
    assert_eq!(chunk_distance_between(&a, &b, &config), 3);
    assert_eq!(chunk_distance_between(&a, &a, &config), 0);
    assert_eq!(chunk_distance_between(&ChunkCoord::new(0, 0, 0), &ChunkCoord::new(128, 0, 0), &config), 128);
}

#[test]
fn neighbor_reads_indices_past_i32_max_as_negative() {
    let grid = default_grid();
    let coord = ChunkCoord::new(u32::MAX, 2, 1);
    let n = coord.neighbor(0, 0, 0, &grid).expect("in width and height");
    assert_eq!(n.ring_index, 255);
    let n = coord.neighbor(2, 1, 1, &grid).expect("in width and height");
    assert_eq!((n.ring_index, n.width_index, n.height_index), (1, 3, 2));
    assert!(ChunkCoord::new(0, u32::MAX, 0).neighbor(0, 0, 0, &grid).is_none());
    assert_eq!(ChunkCoord::new(0, u32::MAX, 0).neighbor(0, 1, 0, &grid), Some(ChunkCoord::new(0, 0, 0)));
}
