use ring_world::block::ToolType;
use ring_world::crafting::CraftingManager;
use ring_world::inventory::Inventory;
use ring_world::voxel::VoxelType;


/// Find the index of the recipe producing the given result (first match).
fn recipe_index_for(mgr: &CraftingManager, result: VoxelType) -> usize {
    mgr.recipes.iter().position(|r| r.result == result).expect("recipe exists")
}

#[test]
fn new_creates_recipes() {
    let mgr = CraftingManager::new();
    assert!(!mgr.recipes.is_empty());
    // Should contain the basic Wood -> Plank recipe
    assert!(mgr.recipes.iter().any(|r| r.result == VoxelType::Plank));
}

#[test]
fn can_craft_true_when_ingredients_present() {
    let mgr = CraftingManager::new();
    let mut inv = Inventory::new();
    inv.add_item(VoxelType::Wood, 1);
    let idx = recipe_index_for(&mgr, VoxelType::Plank);
    assert!(mgr.can_craft(&mgr.recipes[idx], &inv));
}

#[test]
fn can_craft_false_when_ingredients_absent() {
    let mgr = CraftingManager::new();
    let inv = Inventory::new();
    let idx = recipe_index_for(&mgr, VoxelType::Plank);
    assert!(!mgr.can_craft(&mgr.recipes[idx], &inv));
}

#[test]
fn craft_wood_to_planks_end_to_end() {
    let mgr = CraftingManager::new();
    let mut inv = Inventory::new();
    inv.add_item(VoxelType::Wood, 1);
    let idx = recipe_index_for(&mgr, VoxelType::Plank);

    assert!(mgr.craft(idx, &mut inv));
    // Wood consumed
    assert_eq!(inv.count_item(VoxelType::Wood), 0);
    // 4 planks produced
    assert_eq!(inv.count_item(VoxelType::Plank), 4);
}

#[test]
fn craft_fails_without_ingredients() {
    let mgr = CraftingManager::new();
    let mut inv = Inventory::new();
    let idx = recipe_index_for(&mgr, VoxelType::Plank);
    assert!(!mgr.craft(idx, &mut inv));
}

#[test]
fn craft_out_of_range_index_fails() {
    let mgr = CraftingManager::new();
    let mut inv = Inventory::new();
    assert!(!mgr.craft(usize::MAX, &mut inv));
}

#[test]
fn craft_multi_ingredient_recipe() {
    let mgr = CraftingManager::new();
    let mut inv = Inventory::new();
    inv.add_item(VoxelType::Wood, 1);
    inv.add_item(VoxelType::Stone, 1);
    let idx = recipe_index_for(&mgr, VoxelType::Torch);
    assert!(mgr.craft(idx, &mut inv));
    assert_eq!(inv.count_item(VoxelType::Torch), 4);
    assert_eq!(inv.count_item(VoxelType::Wood), 0);
    assert_eq!(inv.count_item(VoxelType::Stone), 0);
}

#[test]
fn smelt_iron_ore_to_ingot() {
    let mgr = CraftingManager::new();
    let mut inv = Inventory::new();
    inv.add_item(VoxelType::IronOre, 1);
    inv.add_item(VoxelType::Wood, 1); // fuel
    assert!(mgr.smelt(VoxelType::IronOre, &mut inv));
    assert_eq!(inv.count_item(VoxelType::IronIngot), 1);
    assert_eq!(inv.count_item(VoxelType::IronOre), 0);
    assert_eq!(inv.count_item(VoxelType::Wood), 0);
}

#[test]
fn smelt_fails_without_fuel() {
    let mgr = CraftingManager::new();
    let mut inv = Inventory::new();
    inv.add_item(VoxelType::IronOre, 1);
    assert!(!mgr.smelt(VoxelType::IronOre, &mut inv));
}

#[test]
fn get_available_recipes_respects_crafting_table() {
    let mgr = CraftingManager::new();
    let mut inv = Inventory::new();
    // 8 planks can make a chest (requires table) and other basic recipes
    inv.add_item(VoxelType::Plank, 8);

    let without_table = mgr.get_available_recipes(&inv, false);
    let with_table = mgr.get_available_recipes(&inv, true);
    // Table recipes are only available when a crafting table is present
    assert!(with_table.len() >= without_table.len());
    // Chest is a table recipe and should not appear without a table
    let chest_idx = recipe_index_for(&mgr, VoxelType::Chest);
    assert!(!without_table.contains(&chest_idx));
    assert!(with_table.contains(&chest_idx));
}

#[test]
fn get_tool_type_correct() {
    assert_eq!(CraftingManager::get_tool_type(VoxelType::WoodPickaxe), Some(ToolType::Pickaxe));
    assert_eq!(CraftingManager::get_tool_type(VoxelType::StoneAxe), Some(ToolType::Axe));
    assert_eq!(CraftingManager::get_tool_type(VoxelType::IronShovel), Some(ToolType::Shovel));
    assert_eq!(CraftingManager::get_tool_type(VoxelType::WoodSword), Some(ToolType::Sword));
    assert_eq!(CraftingManager::get_tool_type(VoxelType::Stone), None);
}

#[test]
fn get_tool_multiplier_correct() {
    assert_eq!(CraftingManager::tool_multiplier(VoxelType::WoodPickaxe), 2);
    assert_eq!(CraftingManager::tool_multiplier(VoxelType::StonePickaxe), 4);
    assert_eq!(CraftingManager::tool_multiplier(VoxelType::IronPickaxe), 6);
    assert_eq!(CraftingManager::tool_multiplier(VoxelType::Stone), 1);
}
