//! Naming and selection of the blocks shown in the block gallery.
use vstd::prelude::*;
use crate::voxel::VoxelType;

verus! {

/// The lowercase name of a voxel type, as used for gallery file names.
pub open spec fn spec_block_name(vt: VoxelType) -> Seq<char> {
    match vt {
        VoxelType::Air => "air"@,
        VoxelType::Stone => "stone"@,
        VoxelType::Dirt => "dirt"@,
        VoxelType::Grass => "grass"@,
        VoxelType::Sand => "sand"@,
        VoxelType::Water => "water"@,
        VoxelType::Wood => "wood"@,
        VoxelType::Leaves => "leaves"@,
        VoxelType::Bedrock => "bedrock"@,
        VoxelType::Snow => "snow"@,
        VoxelType::IronOre => "ironore"@,
        VoxelType::GoldOre => "goldore"@,
        VoxelType::DiamondOre => "diamondore"@,
        VoxelType::Gravel => "gravel"@,
        VoxelType::Cactus => "cactus"@,
        VoxelType::TallGrass => "tallgrass"@,
        VoxelType::Flower => "flower"@,
        VoxelType::Mushroom => "mushroom"@,
        VoxelType::Vine => "vine"@,
        VoxelType::CraftingTable => "craftingtable"@,
        VoxelType::Furnace => "furnace"@,
        VoxelType::Chest => "chest"@,
        VoxelType::Torch => "torch"@,
        VoxelType::Ladder => "ladder"@,
        VoxelType::Door => "door"@,
        VoxelType::Plank => "plank"@,
        VoxelType::Cobblestone => "cobblestone"@,
        VoxelType::IronIngot => "ironingot"@,
        VoxelType::GoldIngot => "goldingot"@,
        VoxelType::WoodPickaxe => "woodpickaxe"@,
        VoxelType::WoodAxe => "woodaxe"@,
        VoxelType::WoodShovel => "woodshovel"@,
        VoxelType::WoodSword => "woodsword"@,
        VoxelType::StonePickaxe => "stonepickaxe"@,
        VoxelType::StoneAxe => "stoneaxe"@,
        VoxelType::StoneShovel => "stoneshovel"@,
        VoxelType::StoneSword => "stonesword"@,
        VoxelType::IronPickaxe => "ironpickaxe"@,
        VoxelType::IronAxe => "ironaxe"@,
        VoxelType::IronShovel => "ironshovel"@,
        VoxelType::IronSword => "ironsword"@,
    }
}

/// Human-readable, filesystem-safe name for a voxel type: its variant name
/// in lowercase.
pub fn block_name(vt: VoxelType) -> (r: String)
    ensures
        r@ == spec_block_name(vt),
{
    let s: &str = match vt {
            VoxelType::Air => "air",
            VoxelType::Stone => "stone",
            VoxelType::Dirt => "dirt",
            VoxelType::Grass => "grass",
            VoxelType::Sand => "sand",
            VoxelType::Water => "water",
            VoxelType::Wood => "wood",
            VoxelType::Leaves => "leaves",
            VoxelType::Bedrock => "bedrock",
            VoxelType::Snow => "snow",
            VoxelType::IronOre => "ironore",
            VoxelType::GoldOre => "goldore",
            VoxelType::DiamondOre => "diamondore",
            VoxelType::Gravel => "gravel",
            VoxelType::Cactus => "cactus",
            VoxelType::TallGrass => "tallgrass",
            VoxelType::Flower => "flower",
            VoxelType::Mushroom => "mushroom",
            VoxelType::Vine => "vine",
            VoxelType::CraftingTable => "craftingtable",
            VoxelType::Furnace => "furnace",
            VoxelType::Chest => "chest",
            VoxelType::Torch => "torch",
            VoxelType::Ladder => "ladder",
            VoxelType::Door => "door",
            VoxelType::Plank => "plank",
            VoxelType::Cobblestone => "cobblestone",
            VoxelType::IronIngot => "ironingot",
            VoxelType::GoldIngot => "goldingot",
            VoxelType::WoodPickaxe => "woodpickaxe",
            VoxelType::WoodAxe => "woodaxe",
            VoxelType::WoodShovel => "woodshovel",
            VoxelType::WoodSword => "woodsword",
            VoxelType::StonePickaxe => "stonepickaxe",
            VoxelType::StoneAxe => "stoneaxe",
            VoxelType::StoneShovel => "stoneshovel",
            VoxelType::StoneSword => "stonesword",
            VoxelType::IronPickaxe => "ironpickaxe",
            VoxelType::IronAxe => "ironaxe",
            VoxelType::IronShovel => "ironshovel",
            VoxelType::IronSword => "ironsword",
    };
    s.to_owned()
}

/// Whether the gallery renders this voxel type as a block: everything but
/// air and the tool items.
pub fn is_renderable_block(vt: VoxelType) -> (r: bool)
    ensures
        r == (vt != VoxelType::Air && !vt.spec_is_tool()),
{
    vt != VoxelType::Air && !vt.is_tool()
}

} // verus!
