use ring_world::block_gallery::{block_name, is_renderable_block};
use ring_world::shadow_squares::shadow_panel_indices;
use ring_world::voxel::VoxelType;

#[test]
fn block_names_are_lowercase_variant_names() {
    assert_eq!(block_name(VoxelType::Air), "air");
    assert_eq!(block_name(VoxelType::IronOre), "ironore");
    assert_eq!(block_name(VoxelType::CraftingTable), "craftingtable");
    assert_eq!(block_name(VoxelType::StoneSword), "stonesword");
    assert_eq!(block_name(VoxelType::IronOre), format!("{:?}", VoxelType::IronOre).to_lowercase());
}

#[test]
fn gallery_skips_air_and_tools() {
    assert!(!is_renderable_block(VoxelType::Air));
    assert!(!is_renderable_block(VoxelType::WoodPickaxe));
    assert!(!is_renderable_block(VoxelType::IronSword));
    assert!(is_renderable_block(VoxelType::Stone));
    assert!(is_renderable_block(VoxelType::Torch));
}

#[test]
fn shadow_panel_indices_form_strips() {
    let idx = shadow_panel_indices(2);
    assert_eq!(idx.len(), 2 * 8 * 6);
    assert_eq!(&idx[0..6], &[0, 1, 2, 2, 1, 3]);
    assert_eq!(&idx[6..12], &[2, 3, 4, 4, 3, 5]);
    assert_eq!(&idx[48..54], &[18, 19, 20, 20, 19, 21]);
    assert!(idx.iter().all(|&i| i < 2 * 18));
}
