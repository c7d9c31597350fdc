//! Per-type block properties: hardness, solidity, tool, drops, light.
use vstd::prelude::*;
use crate::voxel::{VoxelType, VOXEL_TYPE_COUNT};

verus! {

/// What tool type is most effective for breaking a block.
#[derive(Clone, Copy, Debug, PartialEq, Eq, Structural)]
pub enum ToolType {
    NoTool,
    Pickaxe,
    Axe,
    Shovel,
    Sword,
}

/// Comprehensive properties for a block type.
///
/// Hardness is kept in tenths of a second of base break time:
/// `0` breaks instantly and a negative value means unbreakable.
#[derive(Clone, Copy, Debug, PartialEq, Eq, Structural)]
pub struct BlockProperties {
    /// Base time to break, in tenths of a second (0 = instant, negative = unbreakable).
    pub hardness_tenths: i32,
    /// Whether this block blocks movement.
    pub is_solid: bool,
    /// Whether light/rendering passes through.
    pub is_transparent: bool,
    /// Whether this block has liquid behavior.
    pub is_liquid: bool,
    /// What tool is most effective.
    pub tool_type: ToolType,
    /// What this block drops when broken (None = drops itself).
    pub drop: Option<VoxelType>,
    /// Light emission level (0-15).
    pub light_level: u8,
    /// Whether this block falls like sand.
    pub gravity_affected: bool,
    /// Whether this block can catch fire.
    pub flammable: bool,
}

/// Base break time of each type, in tenths of a second.
pub open spec fn spec_hardness_tenths(vt: VoxelType) -> i32 {
    match vt {
        VoxelType::Water | VoxelType::Bedrock => -10i32,
        VoxelType::Stone => 15i32,
        VoxelType::Dirt | VoxelType::Sand => 5i32,
        VoxelType::Grass | VoxelType::Gravel => 6i32,
        VoxelType::Wood | VoxelType::Plank | VoxelType::Cobblestone => 20i32,
        VoxelType::Leaves | VoxelType::Vine => 2i32,
        VoxelType::Snow => 1i32,
        VoxelType::IronOre | VoxelType::GoldOre | VoxelType::Door | VoxelType::GoldIngot => 30i32,
        VoxelType::DiamondOre | VoxelType::IronIngot => 50i32,
        VoxelType::Cactus | VoxelType::Ladder => 4i32,
        VoxelType::CraftingTable | VoxelType::Chest => 25i32,
        VoxelType::Furnace => 35i32,
        _ => 0i32,
    }
}

/// The tool that mines each type fastest.
pub open spec fn spec_tool_type(vt: VoxelType) -> ToolType {
    match vt {
        VoxelType::Stone | VoxelType::IronOre | VoxelType::GoldOre | VoxelType::DiamondOre
        | VoxelType::Furnace | VoxelType::Cobblestone | VoxelType::IronIngot
        | VoxelType::GoldIngot => ToolType::Pickaxe,
        VoxelType::Dirt | VoxelType::Grass | VoxelType::Sand | VoxelType::Snow
        | VoxelType::Gravel => ToolType::Shovel,
        VoxelType::Wood | VoxelType::CraftingTable | VoxelType::Chest | VoxelType::Ladder
        | VoxelType::Door | VoxelType::Plank => ToolType::Axe,
        _ => ToolType::NoTool,
    }
}

/// What breaking each type yields when it is not the type itself.
pub open spec fn spec_drop(vt: VoxelType) -> Option<VoxelType> {
    match vt {
        VoxelType::Stone => Some(VoxelType::Cobblestone),
        VoxelType::Grass => Some(VoxelType::Dirt),
        _ => None,
    }
}

/// Types that fall when unsupported.
pub open spec fn spec_gravity_affected(vt: VoxelType) -> bool {
    vt == VoxelType::Sand || vt == VoxelType::Gravel
}

/// Types that can burn.
pub open spec fn spec_flammable(vt: VoxelType) -> bool {
    matches!(
        vt,
        VoxelType::Wood | VoxelType::Leaves | VoxelType::TallGrass | VoxelType::Flower
            | VoxelType::Vine | VoxelType::CraftingTable | VoxelType::Chest | VoxelType::Ladder
            | VoxelType::Door | VoxelType::Plank | VoxelType::WoodPickaxe | VoxelType::WoodAxe
            | VoxelType::WoodShovel | VoxelType::WoodSword
    )
}

/// What breaking a block yields: Stone gives Cobblestone, Grass gives Dirt,
/// and every other type names no drop (it yields itself).
pub proof fn lemma_block_drops(vt: VoxelType)
    ensures
        vt == VoxelType::Stone ==> block_properties(vt).drop == Some(VoxelType::Cobblestone),
        vt == VoxelType::Grass ==> block_properties(vt).drop == Some(VoxelType::Dirt),
        vt != VoxelType::Stone && vt != VoxelType::Grass ==> block_properties(vt).drop is None,
{
}

/// The full property record of a type.
pub open spec fn block_properties(vt: VoxelType) -> BlockProperties {
    BlockProperties {
        hardness_tenths: spec_hardness_tenths(vt),
        is_solid: vt.spec_is_solid(),
        is_transparent: vt.spec_is_transparent(),
        is_liquid: vt.spec_is_liquid(),
        tool_type: spec_tool_type(vt),
        drop: spec_drop(vt),
        light_level: vt.spec_light_emission(),
        gravity_affected: spec_gravity_affected(vt),
        flammable: spec_flammable(vt),
    }
}

fn hardness_tenths(vt: VoxelType) -> (r: i32)
    ensures
        r == spec_hardness_tenths(vt),
{
    match vt {
        VoxelType::Water | VoxelType::Bedrock => -10,
        VoxelType::Stone => 15,
        VoxelType::Dirt | VoxelType::Sand => 5,
        VoxelType::Grass | VoxelType::Gravel => 6,
        VoxelType::Wood | VoxelType::Plank | VoxelType::Cobblestone => 20,
        VoxelType::Leaves | VoxelType::Vine => 2,
        VoxelType::Snow => 1,
        VoxelType::IronOre | VoxelType::GoldOre | VoxelType::Door | VoxelType::GoldIngot => 30,
        VoxelType::DiamondOre | VoxelType::IronIngot => 50,
        VoxelType::Cactus | VoxelType::Ladder => 4,
        VoxelType::CraftingTable | VoxelType::Chest => 25,
        VoxelType::Furnace => 35,
        _ => 0,
    }
}

fn tool_type(vt: VoxelType) -> (r: ToolType)
    ensures
        r == spec_tool_type(vt),
{
    match vt {
        VoxelType::Stone | VoxelType::IronOre | VoxelType::GoldOre | VoxelType::DiamondOre
        | VoxelType::Furnace | VoxelType::Cobblestone | VoxelType::IronIngot
        | VoxelType::GoldIngot => ToolType::Pickaxe,
        VoxelType::Dirt | VoxelType::Grass | VoxelType::Sand | VoxelType::Snow
        | VoxelType::Gravel => ToolType::Shovel,
        VoxelType::Wood | VoxelType::CraftingTable | VoxelType::Chest | VoxelType::Ladder
        | VoxelType::Door | VoxelType::Plank => ToolType::Axe,
        _ => ToolType::NoTool,
    }
}

fn drop_of(vt: VoxelType) -> (r: Option<VoxelType>)
    ensures
        r == spec_drop(vt),
{
    match vt {
        VoxelType::Stone => Some(VoxelType::Cobblestone),
        VoxelType::Grass => Some(VoxelType::Dirt),
        _ => None,
    }
}

fn flammable(vt: VoxelType) -> (r: bool)
    ensures
        r == spec_flammable(vt),
{
    matches!(
        vt,
        VoxelType::Wood | VoxelType::Leaves | VoxelType::TallGrass | VoxelType::Flower
            | VoxelType::Vine | VoxelType::CraftingTable | VoxelType::Chest | VoxelType::Ladder
            | VoxelType::Door | VoxelType::Plank | VoxelType::WoodPickaxe | VoxelType::WoodAxe
            | VoxelType::WoodShovel | VoxelType::WoodSword
    )
}

impl BlockProperties {
    /// The properties of a voxel type.
    pub fn get(voxel_type: VoxelType) -> (r: BlockProperties)
        ensures
            r == block_properties(voxel_type),
    {
        BlockProperties {
            hardness_tenths: hardness_tenths(voxel_type),
            is_solid: voxel_type.is_solid(),
            is_transparent: voxel_type.is_transparent(),
            is_liquid: voxel_type.is_liquid(),
            tool_type: tool_type(voxel_type),
            drop: drop_of(voxel_type),
            light_level: voxel_type.light_emission(),
            gravity_affected: matches!(voxel_type, VoxelType::Sand | VoxelType::Gravel),
            flammable: flammable(voxel_type),
        }
    }
}

/// The property table, indexed by voxel type code.
pub fn block_properties_table() -> (r: Vec<BlockProperties>)
    ensures
        r.len() == VOXEL_TYPE_COUNT,
        forall|i: int|
            0 <= i < VOXEL_TYPE_COUNT ==> #[trigger] r@[i] == block_properties(
                VoxelType::spec_from_u8(i as u8),
            ),
{
    let mut table: Vec<BlockProperties> = Vec::new();
    let mut code: u8 = 0;
    while code < 41
        invariant
            code <= 41,
            table.len() == code,
            forall|i: int|
                0 <= i < code ==> #[trigger] table@[i] == block_properties(
                    VoxelType::spec_from_u8(i as u8),
                ),
        decreases 41 - code,
    {
        table.push(BlockProperties::get(VoxelType::from_u8(code)));
        code = code + 1;
    }
    table
}

} // verus!
