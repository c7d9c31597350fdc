use ring_world::sky::{sun_fan_indices, SUN_SEGMENTS};

#[test]
fn sun_fan_indices_reference_valid_vertices() {
    let vertex_count = 1 + SUN_SEGMENTS * 2;
    let indices: Vec<u32> = sun_fan_indices(SUN_SEGMENTS);
    assert!(indices.iter().all(|&i| i < vertex_count));
    assert_eq!(indices.len() as u32, SUN_SEGMENTS * 9);
}

#[test]
fn sun_fan_indices_wrap_last_segment_to_first() {
    let indices = sun_fan_indices(4);
    assert_eq!(&indices[0..9], &[0, 1, 2, 1, 5, 6, 1, 6, 2]);
    assert_eq!(&indices[27..36], &[0, 4, 1, 4, 8, 5, 4, 5, 1]);
    assert!(sun_fan_indices(0).is_empty());
}
