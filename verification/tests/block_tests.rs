use ring_world::block::{block_properties_table, BlockProperties, ToolType};
use ring_world::voxel::{VoxelType, VOXEL_TYPE_COUNT};

#[test]
fn properties_lookup_air() {
    let props = BlockProperties::get(VoxelType::Air);
    assert!(!props.is_solid);
    assert!(props.is_transparent);
    assert_eq!(props.tool_type, ToolType::NoTool);
}

#[test]
fn stone_is_solid_and_pickaxe() {
    let props = BlockProperties::get(VoxelType::Stone);
    assert!(props.is_solid);
    assert!(!props.is_transparent);
    assert_eq!(props.tool_type, ToolType::Pickaxe);
    assert_eq!(props.drop, Some(VoxelType::Cobblestone));
}

#[test]
fn bedrock_and_water_unbreakable() {
    let bedrock = BlockProperties::get(VoxelType::Bedrock);
    let water = BlockProperties::get(VoxelType::Water);
    assert!(bedrock.hardness_tenths < 0);
    assert!(water.hardness_tenths < 0);
}

#[test]
fn water_is_not_solid_but_liquid() {
    let props = BlockProperties::get(VoxelType::Water);
    assert!(!props.is_solid);
    assert!(props.is_liquid);
    assert!(props.is_transparent);
}

#[test]
fn torch_emits_light() {
    let props = BlockProperties::get(VoxelType::Torch);
    assert!(props.light_level > 0);
}

#[test]
fn sand_and_gravel_gravity_affected() {
    assert!(BlockProperties::get(VoxelType::Sand).gravity_affected);
    assert!(BlockProperties::get(VoxelType::Gravel).gravity_affected);
    assert!(!BlockProperties::get(VoxelType::Stone).gravity_affected);
}

#[test]
fn properties_for_every_voxel_type_no_panic() {
    for raw in 0u8..(VOXEL_TYPE_COUNT as u8) {
        let vt = VoxelType::from_u8(raw);
        let _props = BlockProperties::get(vt);
    }
}

#[test]
fn block_properties_array_has_full_length() {
    assert_eq!(block_properties_table().len(), VOXEL_TYPE_COUNT);
}

#[test]
fn table_entries_match_lookup_in_code_order() {
    let table = block_properties_table();
    for raw in 0u8..(VOXEL_TYPE_COUNT as u8) {
        let vt = VoxelType::from_u8(raw);
        assert_eq!(vt.to_u8(), raw);
        assert_eq!(table[raw as usize], BlockProperties::get(vt));
    }
    assert_eq!(VoxelType::from_u8(200), VoxelType::Air);
}

#[test]
fn stone_hardness_and_tools() {
    assert_eq!(BlockProperties::get(VoxelType::Stone).hardness_tenths, 15);
    assert_eq!(BlockProperties::get(VoxelType::Wood).tool_type, ToolType::Axe);
    assert_eq!(BlockProperties::get(VoxelType::Torch).light_level, 14);
}
