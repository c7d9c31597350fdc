//! Voxel types: the kinds of block (and held item) that make up the ring.
use vstd::prelude::*;

verus! {

/// Number of distinct voxel types (the discriminants run `0..VOXEL_TYPE_COUNT`).
pub const VOXEL_TYPE_COUNT: usize = 41;

/// Every block and item kind in the world. The discriminant order is the
/// on-disk encoding used by saves and the index into block property tables.
#[derive(Clone, Copy, Debug, PartialEq, Eq, Structural, Hash)]
pub enum VoxelType {
    Air,
    Stone,
    Dirt,
    Grass,
    Sand,
    Water,
    Wood,
    Leaves,
    Bedrock,
    Snow,
    IronOre,
    GoldOre,
    DiamondOre,
    Gravel,
    Cactus,
    TallGrass,
    Flower,
    Mushroom,
    Vine,
    CraftingTable,
    Furnace,
    Chest,
    Torch,
    Ladder,
    Door,
    Plank,
    Cobblestone,
    IronIngot,
    GoldIngot,
    WoodPickaxe,
    WoodAxe,
    WoodShovel,
    WoodSword,
    StonePickaxe,
    StoneAxe,
    StoneShovel,
    StoneSword,
    IronPickaxe,
    IronAxe,
    IronShovel,
    IronSword,
}

impl VoxelType {
    /// The numeric code of a voxel type (its position in the declaration).
    pub open spec fn code(self) -> u8 {
        match self {
            VoxelType::Air => 0,
            VoxelType::Stone => 1,
            VoxelType::Dirt => 2,
            VoxelType::Grass => 3,
            VoxelType::Sand => 4,
            VoxelType::Water => 5,
            VoxelType::Wood => 6,
            VoxelType::Leaves => 7,
            VoxelType::Bedrock => 8,
            VoxelType::Snow => 9,
            VoxelType::IronOre => 10,
            VoxelType::GoldOre => 11,
            VoxelType::DiamondOre => 12,
            VoxelType::Gravel => 13,
            VoxelType::Cactus => 14,
            VoxelType::TallGrass => 15,
            VoxelType::Flower => 16,
            VoxelType::Mushroom => 17,
            VoxelType::Vine => 18,
            VoxelType::CraftingTable => 19,
            VoxelType::Furnace => 20,
            VoxelType::Chest => 21,
            VoxelType::Torch => 22,
            VoxelType::Ladder => 23,
            VoxelType::Door => 24,
            VoxelType::Plank => 25,
            VoxelType::Cobblestone => 26,
            VoxelType::IronIngot => 27,
            VoxelType::GoldIngot => 28,
            VoxelType::WoodPickaxe => 29,
            VoxelType::WoodAxe => 30,
            VoxelType::WoodShovel => 31,
            VoxelType::WoodSword => 32,
            VoxelType::StonePickaxe => 33,
            VoxelType::StoneAxe => 34,
            VoxelType::StoneShovel => 35,
            VoxelType::StoneSword => 36,
            VoxelType::IronPickaxe => 37,
            VoxelType::IronAxe => 38,
            VoxelType::IronShovel => 39,
            VoxelType::IronSword => 40,
        }
    }

    /// The numeric code of this voxel type.
    pub fn to_u8(self) -> (r: u8)
        ensures
            r == self.code(),
            r < VOXEL_TYPE_COUNT,
    {
        match self {
            VoxelType::Air => 0,
            VoxelType::Stone => 1,
            VoxelType::Dirt => 2,
            VoxelType::Grass => 3,
            VoxelType::Sand => 4,
            VoxelType::Water => 5,
            VoxelType::Wood => 6,
            VoxelType::Leaves => 7,
            VoxelType::Bedrock => 8,
            VoxelType::Snow => 9,
            VoxelType::IronOre => 10,
            VoxelType::GoldOre => 11,
            VoxelType::DiamondOre => 12,
            VoxelType::Gravel => 13,
            VoxelType::Cactus => 14,
            VoxelType::TallGrass => 15,
            VoxelType::Flower => 16,
            VoxelType::Mushroom => 17,
            VoxelType::Vine => 18,
            VoxelType::CraftingTable => 19,
            VoxelType::Furnace => 20,
            VoxelType::Chest => 21,
            VoxelType::Torch => 22,
            VoxelType::Ladder => 23,
            VoxelType::Door => 24,
            VoxelType::Plank => 25,
            VoxelType::Cobblestone => 26,
            VoxelType::IronIngot => 27,
            VoxelType::GoldIngot => 28,
            VoxelType::WoodPickaxe => 29,
            VoxelType::WoodAxe => 30,
            VoxelType::WoodShovel => 31,
            VoxelType::WoodSword => 32,
            VoxelType::StonePickaxe => 33,
            VoxelType::StoneAxe => 34,
            VoxelType::StoneShovel => 35,
            VoxelType::StoneSword => 36,
            VoxelType::IronPickaxe => 37,
            VoxelType::IronAxe => 38,
            VoxelType::IronShovel => 39,
            VoxelType::IronSword => 40,
        }
    }

    /// The voxel type with the given code; codes past the last type read as Air.
    pub open spec fn spec_from_u8(raw: u8) -> VoxelType {
        match raw {
            0 => VoxelType::Air,
            1 => VoxelType::Stone,
            2 => VoxelType::Dirt,
            3 => VoxelType::Grass,
            4 => VoxelType::Sand,
            5 => VoxelType::Water,
            6 => VoxelType::Wood,
            7 => VoxelType::Leaves,
            8 => VoxelType::Bedrock,
            9 => VoxelType::Snow,
            10 => VoxelType::IronOre,
            11 => VoxelType::GoldOre,
            12 => VoxelType::DiamondOre,
            13 => VoxelType::Gravel,
            14 => VoxelType::Cactus,
            15 => VoxelType::TallGrass,
            16 => VoxelType::Flower,
            17 => VoxelType::Mushroom,
            18 => VoxelType::Vine,
            19 => VoxelType::CraftingTable,
            20 => VoxelType::Furnace,
            21 => VoxelType::Chest,
            22 => VoxelType::Torch,
            23 => VoxelType::Ladder,
            24 => VoxelType::Door,
            25 => VoxelType::Plank,
            26 => VoxelType::Cobblestone,
            27 => VoxelType::IronIngot,
            28 => VoxelType::GoldIngot,
            29 => VoxelType::WoodPickaxe,
            30 => VoxelType::WoodAxe,
            31 => VoxelType::WoodShovel,
            32 => VoxelType::WoodSword,
            33 => VoxelType::StonePickaxe,
            34 => VoxelType::StoneAxe,
            35 => VoxelType::StoneShovel,
            36 => VoxelType::StoneSword,
            37 => VoxelType::IronPickaxe,
            38 => VoxelType::IronAxe,
            39 => VoxelType::IronShovel,
            40 => VoxelType::IronSword,
            _ => VoxelType::Air,
        }
    }

    /// Decode a voxel type from its numeric code. Unknown codes decode as Air.
    pub fn from_u8(raw: u8) -> (r: VoxelType)
        ensures
            r == VoxelType::spec_from_u8(raw),
            raw < VOXEL_TYPE_COUNT ==> r.code() == raw,
            raw >= VOXEL_TYPE_COUNT ==> r == VoxelType::Air,
    {
        match raw {
            0 => VoxelType::Air,
            1 => VoxelType::Stone,
            2 => VoxelType::Dirt,
            3 => VoxelType::Grass,
            4 => VoxelType::Sand,
            5 => VoxelType::Water,
            6 => VoxelType::Wood,
            7 => VoxelType::Leaves,
            8 => VoxelType::Bedrock,
            9 => VoxelType::Snow,
            10 => VoxelType::IronOre,
            11 => VoxelType::GoldOre,
            12 => VoxelType::DiamondOre,
            13 => VoxelType::Gravel,
            14 => VoxelType::Cactus,
            15 => VoxelType::TallGrass,
            16 => VoxelType::Flower,
            17 => VoxelType::Mushroom,
            18 => VoxelType::Vine,
            19 => VoxelType::CraftingTable,
            20 => VoxelType::Furnace,
            21 => VoxelType::Chest,
            22 => VoxelType::Torch,
            23 => VoxelType::Ladder,
            24 => VoxelType::Door,
            25 => VoxelType::Plank,
            26 => VoxelType::Cobblestone,
            27 => VoxelType::IronIngot,
            28 => VoxelType::GoldIngot,
            29 => VoxelType::WoodPickaxe,
            30 => VoxelType::WoodAxe,
            31 => VoxelType::WoodShovel,
            32 => VoxelType::WoodSword,
            33 => VoxelType::StonePickaxe,
            34 => VoxelType::StoneAxe,
            35 => VoxelType::StoneShovel,
            36 => VoxelType::StoneSword,
            37 => VoxelType::IronPickaxe,
            38 => VoxelType::IronAxe,
            39 => VoxelType::IronShovel,
            40 => VoxelType::IronSword,
            _ => VoxelType::Air,
        }
    }

    /// Tool items: held for faster mining, never placed as blocks.
    pub open spec fn spec_is_tool(self) -> bool {
        matches!(
            self,
            VoxelType::WoodPickaxe | VoxelType::WoodAxe | VoxelType::WoodShovel | VoxelType::WoodSword
                | VoxelType::StonePickaxe | VoxelType::StoneAxe | VoxelType::StoneShovel
                | VoxelType::StoneSword | VoxelType::IronPickaxe | VoxelType::IronAxe
                | VoxelType::IronShovel | VoxelType::IronSword
        )
    }

    /// Whether this type is a tool item.
    pub fn is_tool(self) -> (r: bool)
        ensures
            r == self.spec_is_tool(),
    {
        matches!(
            self,
            VoxelType::WoodPickaxe | VoxelType::WoodAxe | VoxelType::WoodShovel | VoxelType::WoodSword
                | VoxelType::StonePickaxe | VoxelType::StoneAxe | VoxelType::StoneShovel
                | VoxelType::StoneSword | VoxelType::IronPickaxe | VoxelType::IronAxe
                | VoxelType::IronShovel | VoxelType::IronSword
        )
    }

    /// Largest stack of this type a single inventory slot holds:
    /// tools do not stack, everything else stacks to 64.
    pub open spec fn spec_max_stack_size(self) -> u32 {
        if self.spec_is_tool() {
            1
        } else {
            64
        }
    }

    /// Largest stack of this type a single inventory slot holds.
    pub fn max_stack_size(self) -> (r: u32)
        ensures
            r == self.spec_max_stack_size(),
            1 <= r <= 64,
    {
        if self.is_tool() {
            1
        } else {
            64
        }
    }

    /// Non-solid decorations and the light-passing cutout blocks.
    pub open spec fn spec_is_transparent(self) -> bool {
        self.spec_is_tool() || matches!(
            self,
            VoxelType::Air | VoxelType::Water | VoxelType::Leaves | VoxelType::TallGrass
                | VoxelType::Flower | VoxelType::Mushroom | VoxelType::Vine | VoxelType::Torch
                | VoxelType::Ladder
        )
    }

    /// Whether light and sight pass through this type.
    pub fn is_transparent(self) -> (r: bool)
        ensures
            r == self.spec_is_transparent(),
    {
        self.is_tool() || matches!(
            self,
            VoxelType::Air | VoxelType::Water | VoxelType::Leaves | VoxelType::TallGrass
                | VoxelType::Flower | VoxelType::Mushroom | VoxelType::Vine | VoxelType::Torch
                | VoxelType::Ladder
        )
    }

    /// Blocks that stop movement: every transparent type except leaves is
    /// passable; every opaque type is solid.
    pub open spec fn spec_is_solid(self) -> bool {
        self == VoxelType::Leaves || !self.spec_is_transparent()
    }

    /// Whether this type blocks movement.
    pub fn is_solid(self) -> (r: bool)
        ensures
            r == self.spec_is_solid(),
    {
        matches!(self, VoxelType::Leaves) || !self.is_transparent()
    }

    /// Only water flows.
    pub open spec fn spec_is_liquid(self) -> bool {
        self == VoxelType::Water
    }

    /// Whether this type behaves as a liquid.
    pub fn is_liquid(self) -> (r: bool)
        ensures
            r == self.spec_is_liquid(),
    {
        matches!(self, VoxelType::Water)
    }

    /// Light emitted by this type (0-15): only torches glow.
    pub open spec fn spec_light_emission(self) -> u8 {
        if self == VoxelType::Torch {
            14
        } else {
            0
        }
    }

    /// Light emitted by this type (0-15).
    pub fn light_emission(self) -> (r: u8)
        ensures
            r == self.spec_light_emission(),
            r <= 15,
    {
        if matches!(self, VoxelType::Torch) {
            14
        } else {
            0
        }
    }
}

/// A single cell of the voxel grid.
#[derive(Clone, Copy, Debug, PartialEq, Eq, Structural)]
pub struct Voxel {
    pub voxel_type: VoxelType,
}

impl Voxel {
    /// The empty (air) voxel.
    pub open spec fn air_spec() -> Voxel {
        Voxel { voxel_type: VoxelType::Air }
    }

    /// A voxel of the given type.
    pub fn new(voxel_type: VoxelType) -> (r: Voxel)
        ensures
            r.voxel_type == voxel_type,
    {
        Voxel { voxel_type }
    }

    /// An empty (air) voxel.
    pub fn air() -> (r: Voxel)
        ensures
            r.voxel_type == VoxelType::Air,
    {
        Voxel { voxel_type: VoxelType::Air }
    }

    /// Whether this voxel is empty.
    pub fn is_air(&self) -> (r: bool)
        ensures
            r == (self.voxel_type == VoxelType::Air),
    {
        matches!(self.voxel_type, VoxelType::Air)
    }
}

/// Decoding a type's code gives the type back.
pub proof fn lemma_code_round_trip(vt: VoxelType)
    ensures
        VoxelType::spec_from_u8(vt.code()) == vt,
        vt.code() < VOXEL_TYPE_COUNT,
{
}

} // verus!
