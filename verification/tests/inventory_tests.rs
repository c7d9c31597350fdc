use ring_world::inventory::{Inventory, ItemStack, HOTBAR_SIZE, INVENTORY_SIZE, MAX_STACK_SIZE};
use ring_world::voxel::VoxelType;

#[test]
fn new_inventory_is_empty() {
    let inv = Inventory::new();
    assert!(inv.slots.iter().all(|s| s.is_none()));
    assert_eq!(inv.count_item(VoxelType::Stone), 0);
}

#[test]
fn add_item_adds_into_empty_slot() {
    let mut inv = Inventory::new();
    let leftover = inv.add_item(VoxelType::Stone, 10);
    assert_eq!(leftover, 0);
    assert_eq!(inv.count_item(VoxelType::Stone), 10);
}

#[test]
fn add_item_stacks_existing() {
    let mut inv = Inventory::new();
    inv.add_item(VoxelType::Stone, 30);
    inv.add_item(VoxelType::Stone, 20);
    // Both should stack into a single slot of 50 (max 64)
    assert_eq!(inv.count_item(VoxelType::Stone), 50);
    let used_slots = inv.slots.iter().filter(|s| s.is_some()).count();
    assert_eq!(used_slots, 1);
}

#[test]
fn add_item_spills_into_multiple_slots() {
    let mut inv = Inventory::new();
    // 100 stone -> a full stack of 64 plus 36 in another slot
    let leftover = inv.add_item(VoxelType::Stone, 100);
    assert_eq!(leftover, 0);
    assert_eq!(inv.count_item(VoxelType::Stone), 100);
    let used_slots = inv.slots.iter().filter(|s| s.is_some()).count();
    assert_eq!(used_slots, 2);
}

#[test]
fn add_item_returns_leftover_when_full() {
    let mut inv = Inventory::new();
    // Fill the entire inventory with Stone: 36 slots * 64 = 2304
    let total_capacity = (INVENTORY_SIZE as u32) * MAX_STACK_SIZE;
    let leftover = inv.add_item(VoxelType::Stone, total_capacity + 50);
    assert_eq!(leftover, 50);
    assert_eq!(inv.count_item(VoxelType::Stone), total_capacity);
}

#[test]
fn add_item_tools_use_separate_slots() {
    let mut inv = Inventory::new();
    // Tools are not stackable (max 1), so adding 3 picks uses 3 slots
    inv.add_item(VoxelType::WoodPickaxe, 3);
    assert_eq!(inv.count_item(VoxelType::WoodPickaxe), 3);
    let used_slots = inv.slots.iter().filter(|s| {
        s.as_ref().map(|st| st.item_type == VoxelType::WoodPickaxe).unwrap_or(false)
    }).count();
    assert_eq!(used_slots, 3);
}

#[test]
fn remove_item_removes_partial() {
    let mut inv = Inventory::new();
    inv.add_item(VoxelType::Dirt, 20);
    let removed = inv.remove_item(0, 5).expect("should remove");
    assert_eq!(removed.count, 5);
    assert_eq!(inv.count_item(VoxelType::Dirt), 15);
}

#[test]
fn remove_item_removes_full_stack() {
    let mut inv = Inventory::new();
    inv.add_item(VoxelType::Dirt, 20);
    let removed = inv.remove_item(0, 100).expect("should remove entire stack");
    assert_eq!(removed.count, 20);
    assert!(inv.get_slot(0).is_none());
}

#[test]
fn remove_item_out_of_bounds_returns_none() {
    let mut inv = Inventory::new();
    assert!(inv.remove_item(INVENTORY_SIZE, 1).is_none());
}

#[test]
fn count_item_across_slots() {
    let mut inv = Inventory::new();
    inv.add_item(VoxelType::Stone, 64);
    inv.add_item(VoxelType::Stone, 64);
    inv.add_item(VoxelType::Stone, 10);
    assert_eq!(inv.count_item(VoxelType::Stone), 138);
}

#[test]
fn has_item_works() {
    let mut inv = Inventory::new();
    assert!(!inv.has_item(VoxelType::Wood));
    inv.add_item(VoxelType::Wood, 1);
    assert!(inv.has_item(VoxelType::Wood));
}

#[test]
fn remove_items_removes_across_slots() {
    let mut inv = Inventory::new();
    inv.add_item(VoxelType::Stone, 128);
    assert!(inv.remove_items(VoxelType::Stone, 100));
    assert_eq!(inv.count_item(VoxelType::Stone), 28);
}

#[test]
fn remove_items_fails_when_insufficient() {
    let mut inv = Inventory::new();
    inv.add_item(VoxelType::Stone, 5);
    assert!(!inv.remove_items(VoxelType::Stone, 10));
    // Inventory unchanged on failure
    assert_eq!(inv.count_item(VoxelType::Stone), 5);
}

#[test]
fn consume_from_hotbar_decrements() {
    let mut inv = Inventory::new();
    inv.add_item(VoxelType::Dirt, 3);
    assert!(inv.consume_from_hotbar(0));
    assert_eq!(inv.count_item(VoxelType::Dirt), 2);
}

#[test]
fn consume_from_hotbar_clears_empty_slot() {
    let mut inv = Inventory::new();
    inv.add_item(VoxelType::Dirt, 1);
    assert!(inv.consume_from_hotbar(0));
    assert!(inv.get_slot(0).is_none());
    // Consuming an empty slot fails
    assert!(!inv.consume_from_hotbar(0));
}

#[test]
fn consume_from_hotbar_out_of_range_fails() {
    let mut inv = Inventory::new();
    assert!(!inv.consume_from_hotbar(HOTBAR_SIZE));
}

#[test]
fn item_stack_clamps_to_max() {
    let stack = ItemStack::new(VoxelType::Stone, 1000);
    assert_eq!(stack.count, 64);
    let tool = ItemStack::new(VoxelType::WoodPickaxe, 10);
    assert_eq!(tool.count, 1);
}
