//! Recipes, crafting-table crafting, and furnace smelting.
use vstd::prelude::*;
use crate::block::ToolType;
use crate::inventory::{Inventory, ItemStack, count_of, INVENTORY_SIZE, items_added, removed_from_back};
use crate::voxel::VoxelType;

verus! {

/// Type of recipe.
#[derive(Clone, Copy, Debug, PartialEq, Eq, Structural)]
pub enum RecipeType {
    /// Basic crafting (no table needed, 2x2 grid equivalent).
    Basic,
    /// Requires a crafting table nearby (3x3 grid equivalent).
    CraftingTable,
    /// Furnace smelting (1 input + fuel -> 1 output).
    Smelting,
}

/// A crafting recipe.
#[derive(Clone, Debug)]
pub struct Recipe {
    pub recipe_type: RecipeType,
    pub ingredients: Vec<(VoxelType, u32)>,
    pub result: VoxelType,
    pub result_count: u32,
}

/// Break-speed factor of a held item by material tier.
pub open spec fn spec_tool_multiplier(item: VoxelType) -> u32 {
    match item {
        VoxelType::WoodPickaxe | VoxelType::WoodAxe | VoxelType::WoodShovel | VoxelType::WoodSword => 2,
        VoxelType::StonePickaxe | VoxelType::StoneAxe | VoxelType::StoneShovel | VoxelType::StoneSword => 4,
        VoxelType::IronPickaxe | VoxelType::IronAxe | VoxelType::IronShovel | VoxelType::IronSword => 6,
        _ => 1,
    }
}

/// Manages all recipes and crafting operations.
pub struct CraftingManager {
    pub recipes: Vec<Recipe>,
}

/// The built-in recipe book, as (type, ingredients, result, result count).
pub open spec fn standard_recipes() -> Seq<(RecipeType, Seq<(VoxelType, u32)>, VoxelType, u32)> {
    seq![
        (RecipeType::Basic, seq![(VoxelType::Wood, 1u32)], VoxelType::Plank, 4u32),
        (RecipeType::Basic, seq![(VoxelType::Plank, 4u32)], VoxelType::CraftingTable, 1u32),
        (RecipeType::Basic, seq![(VoxelType::Wood, 1u32), (VoxelType::Stone, 1u32)], VoxelType::Torch, 4u32),
        (RecipeType::CraftingTable, seq![(VoxelType::Cobblestone, 8u32)], VoxelType::Furnace, 1u32),
        (RecipeType::CraftingTable, seq![(VoxelType::Plank, 8u32)], VoxelType::Chest, 1u32),
        (RecipeType::CraftingTable, seq![(VoxelType::Plank, 7u32)], VoxelType::Ladder, 3u32),
        (RecipeType::CraftingTable, seq![(VoxelType::Plank, 6u32)], VoxelType::Door, 1u32),
        (RecipeType::CraftingTable, seq![(VoxelType::Plank, 3u32), (VoxelType::Wood, 2u32)], VoxelType::WoodPickaxe, 1u32),
        (RecipeType::CraftingTable, seq![(VoxelType::Plank, 3u32), (VoxelType::Wood, 2u32)], VoxelType::WoodAxe, 1u32),
        (RecipeType::CraftingTable, seq![(VoxelType::Plank, 1u32), (VoxelType::Wood, 2u32)], VoxelType::WoodShovel, 1u32),
        (RecipeType::CraftingTable, seq![(VoxelType::Plank, 2u32), (VoxelType::Wood, 1u32)], VoxelType::WoodSword, 1u32),
        (RecipeType::CraftingTable, seq![(VoxelType::Cobblestone, 3u32), (VoxelType::Wood, 2u32)], VoxelType::StonePickaxe, 1u32),
        (RecipeType::CraftingTable, seq![(VoxelType::Cobblestone, 3u32), (VoxelType::Wood, 2u32)], VoxelType::StoneAxe, 1u32),
        (RecipeType::CraftingTable, seq![(VoxelType::Cobblestone, 1u32), (VoxelType::Wood, 2u32)], VoxelType::StoneShovel, 1u32),
        (RecipeType::CraftingTable, seq![(VoxelType::Cobblestone, 2u32), (VoxelType::Wood, 1u32)], VoxelType::StoneSword, 1u32),
        (RecipeType::CraftingTable, seq![(VoxelType::IronIngot, 3u32), (VoxelType::Wood, 2u32)], VoxelType::IronPickaxe, 1u32),
        (RecipeType::CraftingTable, seq![(VoxelType::IronIngot, 3u32), (VoxelType::Wood, 2u32)], VoxelType::IronAxe, 1u32),
        (RecipeType::CraftingTable, seq![(VoxelType::IronIngot, 1u32), (VoxelType::Wood, 2u32)], VoxelType::IronShovel, 1u32),
        (RecipeType::CraftingTable, seq![(VoxelType::IronIngot, 2u32), (VoxelType::Wood, 1u32)], VoxelType::IronSword, 1u32),
        (RecipeType::Smelting, seq![(VoxelType::IronOre, 1u32)], VoxelType::IronIngot, 1u32),
        (RecipeType::Smelting, seq![(VoxelType::GoldOre, 1u32)], VoxelType::GoldIngot, 1u32),
        (RecipeType::Smelting, seq![(VoxelType::Stone, 1u32)], VoxelType::Cobblestone, 1u32),
    ]
}

/// Whether a recipe is the given (type, ingredients, result, count) entry.
pub open spec fn recipe_is(r: Recipe, e: (RecipeType, Seq<(VoxelType, u32)>, VoxelType, u32)) -> bool {
    r.recipe_type == e.0 && r.ingredients@ == e.1 && r.result == e.2 && r.result_count == e.3
}

/// Total amount of type `t` a list of ingredients asks for.
pub open spec fn need(ings: Seq<(VoxelType, u32)>, t: VoxelType) -> nat
    decreases ings.len(),
{
    if ings.len() == 0 {
        0
    } else {
        need(ings.drop_last(), t) + if ings.last().0 == t { ings.last().1 as nat } else { 0nat }
    }
}

/// Whether the slots hold every ingredient in the listed amount.
pub open spec fn has_ingredients(ings: Seq<(VoxelType, u32)>, slots: Seq<Option<crate::inventory::ItemStack>>) -> bool {
    forall|i: int| 0 <= i < ings.len() ==> count_of(slots, #[trigger] ings[i].0) >= ings[i].1
}

/// Whether every ingredient type's total in the slots fits in a `u32`.
pub open spec fn ingredient_counts_fit(ings: Seq<(VoxelType, u32)>, slots: Seq<Option<crate::inventory::ItemStack>>) -> bool {
    forall|i: int| 0 <= i < ings.len() ==> count_of(slots, #[trigger] ings[i].0) <= u32::MAX
}

/// No ingredient type is listed twice.
pub open spec fn ingredients_distinct(ings: Seq<(VoxelType, u32)>) -> bool {
    forall|i: int, j: int| 0 <= i < j < ings.len() ==> #[trigger] ings[i].0 != #[trigger] ings[j].0
}

/// Whether removing the ingredients one entry after another never asks for
/// more of a type than the slots held to begin with (this differs from
/// `has_ingredients` only when a type is listed more than once).
pub open spec fn removals_fit(ings: Seq<(VoxelType, u32)>, slots: Seq<Option<crate::inventory::ItemStack>>) -> bool {
    forall|k: int| 0 <= k < ings.len() ==> need(ings.take(k + 1), #[trigger] ings[k].0) <= count_of(slots, ings[k].0)
}

/// Step `j` of taking the ingredients: `steps[j + 1]` is `steps[j]` after
/// `remove_items` took the `j`-th entry's amount of its type.
pub open spec fn removal_step(steps: Seq<Seq<Option<ItemStack>>>, ings: Seq<(VoxelType, u32)>, j: int) -> bool {
    &&& removed_from_back(steps[j], steps[j + 1], ings[j].0)
    &&& count_of(steps[j + 1], ings[j].0) + ings[j].1 == count_of(steps[j], ings[j].0)
}

/// `steps` starts at `before` and takes the ingredients one entry after
/// another, as `remove_items` does.
pub open spec fn removal_chain(steps: Seq<Seq<Option<ItemStack>>>, ings: Seq<(VoxelType, u32)>, before: Seq<Option<ItemStack>>) -> bool {
    &&& steps.len() == ings.len() + 1
    &&& steps[0] == before
    &&& forall|j: int| 0 <= j < ings.len() ==> #[trigger] removal_step(steps, ings, j)
}

/// The tool family an item provides when held.
pub open spec fn spec_tool_type_of(item: VoxelType) -> Option<ToolType> {
    match item {
        VoxelType::WoodPickaxe | VoxelType::StonePickaxe | VoxelType::IronPickaxe => Some(
            ToolType::Pickaxe,
        ),
        VoxelType::WoodAxe | VoxelType::StoneAxe | VoxelType::IronAxe => Some(ToolType::Axe),
        VoxelType::WoodShovel | VoxelType::StoneShovel | VoxelType::IronShovel => Some(
            ToolType::Shovel,
        ),
        VoxelType::WoodSword | VoxelType::StoneSword | VoxelType::IronSword => Some(ToolType::Sword),
        _ => None,
    }
}

/// Extending a prefix of the ingredient list by one entry adds that entry's amount.
pub proof fn lemma_need_take(ings: Seq<(VoxelType, u32)>, k: int, t: VoxelType)
    requires
        0 <= k < ings.len(),
    ensures
        need(ings.take(k + 1), t) == need(ings.take(k), t) + if ings[k].0 == t {
            ings[k].1 as nat
        } else {
            0nat
        },
{
    assert(ings.take(k + 1).drop_last() =~= ings.take(k));
}

/// A type that no entry lists is needed zero times.
pub proof fn lemma_need_absent(ings: Seq<(VoxelType, u32)>, t: VoxelType)
    requires
        forall|i: int| 0 <= i < ings.len() ==> (#[trigger] ings[i]).0 != t,
    ensures
        need(ings, t) == 0,
    decreases ings.len(),
{
    if ings.len() > 0 {
        assert forall|i: int| 0 <= i < ings.drop_last().len() implies (
        #[trigger] ings.drop_last()[i]).0 != t by {
            assert(ings.drop_last()[i] == ings[i]);
        }
        lemma_need_absent(ings.drop_last(), t);
    }
}

/// Whether a recipe of this type may be crafted by hand, given table access.
pub open spec fn type_available(rt: RecipeType, has_crafting_table: bool) -> bool {
    match rt {
        RecipeType::Basic => true,
        RecipeType::CraftingTable => has_crafting_table,
        RecipeType::Smelting => false,
    }
}

/// Whether a recipe smelts exactly the given input.
pub open spec fn smelts(r: Recipe, input: VoxelType) -> bool {
    r.recipe_type == RecipeType::Smelting && r.ingredients@.len() == 1 && r.ingredients@[0].0 == input
}

/// Index of the first recipe that smelts `input`, if any.
pub open spec fn smelting_index(rs: Seq<Recipe>, input: VoxelType) -> Option<int>
    decreases rs.len(),
{
    if rs.len() == 0 {
        None
    } else {
        match smelting_index(rs.drop_last(), input) {
            Some(p) => Some(p),
            None => if smelts(rs.last(), input) {
                Some(rs.len() - 1)
            } else {
                None
            },
        }
    }
}

/// The first smelting match lies in range and matches; nothing before it does.
pub proof fn lemma_smelting_index(rs: Seq<Recipe>, input: VoxelType)
    ensures
        smelting_index(rs, input) matches Some(p) ==> 0 <= p < rs.len() && smelts(rs[p], input),
        forall|q: int|
            0 <= q < rs.len() && smelts(#[trigger] rs[q], input) ==> (smelting_index(rs, input)
                matches Some(p) && p <= q),
    decreases rs.len(),
{
    if rs.len() > 0 {
        lemma_smelting_index(rs.drop_last(), input);
        assert forall|q: int| 0 <= q < rs.len() && smelts(#[trigger] rs[q], input) implies (smelting_index(
            rs,
            input,
        ) matches Some(p) && p <= q) by {
            if q < rs.len() - 1 {
                assert(rs.drop_last()[q] == rs[q]);
            }
        }
    }
}

/// The recipe book: each item it makes has exactly one recipe, and these are
/// the recipes (kind, ingredients with amounts, item made, amount made).
pub proof fn lemma_recipe_book(rs: Seq<Recipe>)
    requires
        rs.len() == standard_recipes().len(),
        forall|i: int| 0 <= i < rs.len() ==> recipe_is(#[trigger] rs[i], standard_recipes()[i]),
    ensures
        rs.len() == 22,
        forall|i: int, j: int| 0 <= i < j < rs.len() ==> (#[trigger] rs[i]).result != (#[trigger] rs[j]).result,
        exists|i: int| 0 <= i < rs.len() && recipe_is(#[trigger] rs[i], (RecipeType::Basic, seq![(VoxelType::Wood, 1u32)], VoxelType::Plank, 4u32)),
        exists|i: int| 0 <= i < rs.len() && recipe_is(#[trigger] rs[i], (RecipeType::Basic, seq![(VoxelType::Plank, 4u32)], VoxelType::CraftingTable, 1u32)),
        exists|i: int| 0 <= i < rs.len() && recipe_is(#[trigger] rs[i], (RecipeType::Basic, seq![(VoxelType::Wood, 1u32), (VoxelType::Stone, 1u32)], VoxelType::Torch, 4u32)),
        exists|i: int| 0 <= i < rs.len() && recipe_is(#[trigger] rs[i], (RecipeType::CraftingTable, seq![(VoxelType::Cobblestone, 8u32)], VoxelType::Furnace, 1u32)),
        exists|i: int| 0 <= i < rs.len() && recipe_is(#[trigger] rs[i], (RecipeType::CraftingTable, seq![(VoxelType::Plank, 8u32)], VoxelType::Chest, 1u32)),
        exists|i: int| 0 <= i < rs.len() && recipe_is(#[trigger] rs[i], (RecipeType::CraftingTable, seq![(VoxelType::Plank, 7u32)], VoxelType::Ladder, 3u32)),
        exists|i: int| 0 <= i < rs.len() && recipe_is(#[trigger] rs[i], (RecipeType::CraftingTable, seq![(VoxelType::Plank, 6u32)], VoxelType::Door, 1u32)),
        exists|i: int| 0 <= i < rs.len() && recipe_is(#[trigger] rs[i], (RecipeType::CraftingTable, seq![(VoxelType::Plank, 3u32), (VoxelType::Wood, 2u32)], VoxelType::WoodPickaxe, 1u32)),
        exists|i: int| 0 <= i < rs.len() && recipe_is(#[trigger] rs[i], (RecipeType::CraftingTable, seq![(VoxelType::Plank, 3u32), (VoxelType::Wood, 2u32)], VoxelType::WoodAxe, 1u32)),
        exists|i: int| 0 <= i < rs.len() && recipe_is(#[trigger] rs[i], (RecipeType::CraftingTable, seq![(VoxelType::Plank, 1u32), (VoxelType::Wood, 2u32)], VoxelType::WoodShovel, 1u32)),
        exists|i: int| 0 <= i < rs.len() && recipe_is(#[trigger] rs[i], (RecipeType::CraftingTable, seq![(VoxelType::Plank, 2u32), (VoxelType::Wood, 1u32)], VoxelType::WoodSword, 1u32)),
        exists|i: int| 0 <= i < rs.len() && recipe_is(#[trigger] rs[i], (RecipeType::CraftingTable, seq![(VoxelType::Cobblestone, 3u32), (VoxelType::Wood, 2u32)], VoxelType::StonePickaxe, 1u32)),
        exists|i: int| 0 <= i < rs.len() && recipe_is(#[trigger] rs[i], (RecipeType::CraftingTable, seq![(VoxelType::Cobblestone, 3u32), (VoxelType::Wood, 2u32)], VoxelType::StoneAxe, 1u32)),
        exists|i: int| 0 <= i < rs.len() && recipe_is(#[trigger] rs[i], (RecipeType::CraftingTable, seq![(VoxelType::Cobblestone, 1u32), (VoxelType::Wood, 2u32)], VoxelType::StoneShovel, 1u32)),
        exists|i: int| 0 <= i < rs.len() && recipe_is(#[trigger] rs[i], (RecipeType::CraftingTable, seq![(VoxelType::Cobblestone, 2u32), (VoxelType::Wood, 1u32)], VoxelType::StoneSword, 1u32)),
        exists|i: int| 0 <= i < rs.len() && recipe_is(#[trigger] rs[i], (RecipeType::CraftingTable, seq![(VoxelType::IronIngot, 3u32), (VoxelType::Wood, 2u32)], VoxelType::IronPickaxe, 1u32)),
        exists|i: int| 0 <= i < rs.len() && recipe_is(#[trigger] rs[i], (RecipeType::CraftingTable, seq![(VoxelType::IronIngot, 3u32), (VoxelType::Wood, 2u32)], VoxelType::IronAxe, 1u32)),
        exists|i: int| 0 <= i < rs.len() && recipe_is(#[trigger] rs[i], (RecipeType::CraftingTable, seq![(VoxelType::IronIngot, 1u32), (VoxelType::Wood, 2u32)], VoxelType::IronShovel, 1u32)),
        exists|i: int| 0 <= i < rs.len() && recipe_is(#[trigger] rs[i], (RecipeType::CraftingTable, seq![(VoxelType::IronIngot, 2u32), (VoxelType::Wood, 1u32)], VoxelType::IronSword, 1u32)),
        exists|i: int| 0 <= i < rs.len() && recipe_is(#[trigger] rs[i], (RecipeType::Smelting, seq![(VoxelType::IronOre, 1u32)], VoxelType::IronIngot, 1u32)),
        exists|i: int| 0 <= i < rs.len() && recipe_is(#[trigger] rs[i], (RecipeType::Smelting, seq![(VoxelType::GoldOre, 1u32)], VoxelType::GoldIngot, 1u32)),
        exists|i: int| 0 <= i < rs.len() && recipe_is(#[trigger] rs[i], (RecipeType::Smelting, seq![(VoxelType::Stone, 1u32)], VoxelType::Cobblestone, 1u32)),
{
    assert(rs.len() == 22);
    assert(recipe_is(rs[0], standard_recipes()[0]));
    assert(recipe_is(rs[0], (RecipeType::Basic, seq![(VoxelType::Wood, 1u32)], VoxelType::Plank, 4u32)));
    assert(recipe_is(rs[1], standard_recipes()[1]));
    assert(recipe_is(rs[1], (RecipeType::Basic, seq![(VoxelType::Plank, 4u32)], VoxelType::CraftingTable, 1u32)));
    assert(recipe_is(rs[2], standard_recipes()[2]));
    assert(recipe_is(rs[2], (RecipeType::Basic, seq![(VoxelType::Wood, 1u32), (VoxelType::Stone, 1u32)], VoxelType::Torch, 4u32)));
    assert(recipe_is(rs[3], standard_recipes()[3]));
    assert(recipe_is(rs[3], (RecipeType::CraftingTable, seq![(VoxelType::Cobblestone, 8u32)], VoxelType::Furnace, 1u32)));
    assert(recipe_is(rs[4], standard_recipes()[4]));
    assert(recipe_is(rs[4], (RecipeType::CraftingTable, seq![(VoxelType::Plank, 8u32)], VoxelType::Chest, 1u32)));
    assert(recipe_is(rs[5], standard_recipes()[5]));
    assert(recipe_is(rs[5], (RecipeType::CraftingTable, seq![(VoxelType::Plank, 7u32)], VoxelType::Ladder, 3u32)));
    assert(recipe_is(rs[6], standard_recipes()[6]));
    assert(recipe_is(rs[6], (RecipeType::CraftingTable, seq![(VoxelType::Plank, 6u32)], VoxelType::Door, 1u32)));
    assert(recipe_is(rs[7], standard_recipes()[7]));
    assert(recipe_is(rs[7], (RecipeType::CraftingTable, seq![(VoxelType::Plank, 3u32), (VoxelType::Wood, 2u32)], VoxelType::WoodPickaxe, 1u32)));
    assert(recipe_is(rs[8], standard_recipes()[8]));
    assert(recipe_is(rs[8], (RecipeType::CraftingTable, seq![(VoxelType::Plank, 3u32), (VoxelType::Wood, 2u32)], VoxelType::WoodAxe, 1u32)));
    assert(recipe_is(rs[9], standard_recipes()[9]));
    assert(recipe_is(rs[9], (RecipeType::CraftingTable, seq![(VoxelType::Plank, 1u32), (VoxelType::Wood, 2u32)], VoxelType::WoodShovel, 1u32)));
    assert(recipe_is(rs[10], standard_recipes()[10]));
    assert(recipe_is(rs[10], (RecipeType::CraftingTable, seq![(VoxelType::Plank, 2u32), (VoxelType::Wood, 1u32)], VoxelType::WoodSword, 1u32)));
    assert(recipe_is(rs[11], standard_recipes()[11]));
    assert(recipe_is(rs[11], (RecipeType::CraftingTable, seq![(VoxelType::Cobblestone, 3u32), (VoxelType::Wood, 2u32)], VoxelType::StonePickaxe, 1u32)));
    assert(recipe_is(rs[12], standard_recipes()[12]));
    assert(recipe_is(rs[12], (RecipeType::CraftingTable, seq![(VoxelType::Cobblestone, 3u32), (VoxelType::Wood, 2u32)], VoxelType::StoneAxe, 1u32)));
    assert(recipe_is(rs[13], standard_recipes()[13]));
    assert(recipe_is(rs[13], (RecipeType::CraftingTable, seq![(VoxelType::Cobblestone, 1u32), (VoxelType::Wood, 2u32)], VoxelType::StoneShovel, 1u32)));
    assert(recipe_is(rs[14], standard_recipes()[14]));
    assert(recipe_is(rs[14], (RecipeType::CraftingTable, seq![(VoxelType::Cobblestone, 2u32), (VoxelType::Wood, 1u32)], VoxelType::StoneSword, 1u32)));
    assert(recipe_is(rs[15], standard_recipes()[15]));
    assert(recipe_is(rs[15], (RecipeType::CraftingTable, seq![(VoxelType::IronIngot, 3u32), (VoxelType::Wood, 2u32)], VoxelType::IronPickaxe, 1u32)));
    assert(recipe_is(rs[16], standard_recipes()[16]));
    assert(recipe_is(rs[16], (RecipeType::CraftingTable, seq![(VoxelType::IronIngot, 3u32), (VoxelType::Wood, 2u32)], VoxelType::IronAxe, 1u32)));
    assert(recipe_is(rs[17], standard_recipes()[17]));
    assert(recipe_is(rs[17], (RecipeType::CraftingTable, seq![(VoxelType::IronIngot, 1u32), (VoxelType::Wood, 2u32)], VoxelType::IronShovel, 1u32)));
    assert(recipe_is(rs[18], standard_recipes()[18]));
    assert(recipe_is(rs[18], (RecipeType::CraftingTable, seq![(VoxelType::IronIngot, 2u32), (VoxelType::Wood, 1u32)], VoxelType::IronSword, 1u32)));
    assert(recipe_is(rs[19], standard_recipes()[19]));
    assert(recipe_is(rs[19], (RecipeType::Smelting, seq![(VoxelType::IronOre, 1u32)], VoxelType::IronIngot, 1u32)));
    assert(recipe_is(rs[20], standard_recipes()[20]));
    assert(recipe_is(rs[20], (RecipeType::Smelting, seq![(VoxelType::GoldOre, 1u32)], VoxelType::GoldIngot, 1u32)));
    assert(recipe_is(rs[21], standard_recipes()[21]));
    assert(recipe_is(rs[21], (RecipeType::Smelting, seq![(VoxelType::Stone, 1u32)], VoxelType::Cobblestone, 1u32)));
}

impl CraftingManager {
    /// A manager holding the built-in recipe book.
    pub fn new() -> (r: CraftingManager)
        ensures
            r.recipes.len() == standard_recipes().len(),
            forall|i: int|
                0 <= i < r.recipes.len() ==> recipe_is(#[trigger] r.recipes@[i], standard_recipes()[i]),
    {
        let mut recipes: Vec<Recipe> = Vec::new();
        let r0 = Recipe {
            recipe_type: RecipeType::Basic,
            ingredients: vec![(VoxelType::Wood, 1)],
            result: VoxelType::Plank,
            result_count: 4,
        };
        assert(r0.ingredients@ == standard_recipes()[0].1);
        recipes.push(r0);
        let r1 = Recipe {
            recipe_type: RecipeType::Basic,
            ingredients: vec![(VoxelType::Plank, 4)],
            result: VoxelType::CraftingTable,
            result_count: 1,
        };
        assert(r1.ingredients@ == standard_recipes()[1].1);
        recipes.push(r1);
        let r2 = Recipe {
            recipe_type: RecipeType::Basic,
            ingredients: vec![(VoxelType::Wood, 1), (VoxelType::Stone, 1)],
            result: VoxelType::Torch,
            result_count: 4,
        };
        assert(r2.ingredients@ == standard_recipes()[2].1);
        recipes.push(r2);
        let r3 = Recipe {
            recipe_type: RecipeType::CraftingTable,
            ingredients: vec![(VoxelType::Cobblestone, 8)],
            result: VoxelType::Furnace,
            result_count: 1,
        };
        assert(r3.ingredients@ == standard_recipes()[3].1);
        recipes.push(r3);
        let r4 = Recipe {
            recipe_type: RecipeType::CraftingTable,
            ingredients: vec![(VoxelType::Plank, 8)],
            result: VoxelType::Chest,
            result_count: 1,
        };
        assert(r4.ingredients@ == standard_recipes()[4].1);
        recipes.push(r4);
        let r5 = Recipe {
            recipe_type: RecipeType::CraftingTable,
            ingredients: vec![(VoxelType::Plank, 7)],
            result: VoxelType::Ladder,
            result_count: 3,
        };
        assert(r5.ingredients@ == standard_recipes()[5].1);
        recipes.push(r5);
        let r6 = Recipe {
            recipe_type: RecipeType::CraftingTable,
            ingredients: vec![(VoxelType::Plank, 6)],
            result: VoxelType::Door,
            result_count: 1,
        };
        assert(r6.ingredients@ == standard_recipes()[6].1);
        recipes.push(r6);
        let r7 = Recipe {
            recipe_type: RecipeType::CraftingTable,
            ingredients: vec![(VoxelType::Plank, 3), (VoxelType::Wood, 2)],
            result: VoxelType::WoodPickaxe,
            result_count: 1,
        };
        assert(r7.ingredients@ == standard_recipes()[7].1);
        recipes.push(r7);
        let r8 = Recipe {
            recipe_type: RecipeType::CraftingTable,
            ingredients: vec![(VoxelType::Plank, 3), (VoxelType::Wood, 2)],
            result: VoxelType::WoodAxe,
            result_count: 1,
        };
        assert(r8.ingredients@ == standard_recipes()[8].1);
        recipes.push(r8);
        let r9 = Recipe {
            recipe_type: RecipeType::CraftingTable,
            ingredients: vec![(VoxelType::Plank, 1), (VoxelType::Wood, 2)],
            result: VoxelType::WoodShovel,
            result_count: 1,
        };
        assert(r9.ingredients@ == standard_recipes()[9].1);
        recipes.push(r9);
        let r10 = Recipe {
            recipe_type: RecipeType::CraftingTable,
            ingredients: vec![(VoxelType::Plank, 2), (VoxelType::Wood, 1)],
            result: VoxelType::WoodSword,
            result_count: 1,
        };
        assert(r10.ingredients@ == standard_recipes()[10].1);
        recipes.push(r10);
        let r11 = Recipe {
            recipe_type: RecipeType::CraftingTable,
            ingredients: vec![(VoxelType::Cobblestone, 3), (VoxelType::Wood, 2)],
            result: VoxelType::StonePickaxe,
            result_count: 1,
        };
        assert(r11.ingredients@ == standard_recipes()[11].1);
        recipes.push(r11);
        let r12 = Recipe {
            recipe_type: RecipeType::CraftingTable,
            ingredients: vec![(VoxelType::Cobblestone, 3), (VoxelType::Wood, 2)],
            result: VoxelType::StoneAxe,
            result_count: 1,
        };
        assert(r12.ingredients@ == standard_recipes()[12].1);
        recipes.push(r12);
        let r13 = Recipe {
            recipe_type: RecipeType::CraftingTable,
            ingredients: vec![(VoxelType::Cobblestone, 1), (VoxelType::Wood, 2)],
            result: VoxelType::StoneShovel,
            result_count: 1,
        };
        assert(r13.ingredients@ == standard_recipes()[13].1);
        recipes.push(r13);
        let r14 = Recipe {
            recipe_type: RecipeType::CraftingTable,
            ingredients: vec![(VoxelType::Cobblestone, 2), (VoxelType::Wood, 1)],
            result: VoxelType::StoneSword,
            result_count: 1,
        };
        assert(r14.ingredients@ == standard_recipes()[14].1);
        recipes.push(r14);
        let r15 = Recipe {
            recipe_type: RecipeType::CraftingTable,
            ingredients: vec![(VoxelType::IronIngot, 3), (VoxelType::Wood, 2)],
            result: VoxelType::IronPickaxe,
            result_count: 1,
        };
        assert(r15.ingredients@ == standard_recipes()[15].1);
        recipes.push(r15);
        let r16 = Recipe {
            recipe_type: RecipeType::CraftingTable,
            ingredients: vec![(VoxelType::IronIngot, 3), (VoxelType::Wood, 2)],
            result: VoxelType::IronAxe,
            result_count: 1,
        };
        assert(r16.ingredients@ == standard_recipes()[16].1);
        recipes.push(r16);
        let r17 = Recipe {
            recipe_type: RecipeType::CraftingTable,
            ingredients: vec![(VoxelType::IronIngot, 1), (VoxelType::Wood, 2)],
            result: VoxelType::IronShovel,
            result_count: 1,
        };
        assert(r17.ingredients@ == standard_recipes()[17].1);
        recipes.push(r17);
        let r18 = Recipe {
            recipe_type: RecipeType::CraftingTable,
            ingredients: vec![(VoxelType::IronIngot, 2), (VoxelType::Wood, 1)],
            result: VoxelType::IronSword,
            result_count: 1,
        };
        assert(r18.ingredients@ == standard_recipes()[18].1);
        recipes.push(r18);
        let r19 = Recipe {
            recipe_type: RecipeType::Smelting,
            ingredients: vec![(VoxelType::IronOre, 1)],
            result: VoxelType::IronIngot,
            result_count: 1,
        };
        assert(r19.ingredients@ == standard_recipes()[19].1);
        recipes.push(r19);
        let r20 = Recipe {
            recipe_type: RecipeType::Smelting,
            ingredients: vec![(VoxelType::GoldOre, 1)],
            result: VoxelType::GoldIngot,
            result_count: 1,
        };
        assert(r20.ingredients@ == standard_recipes()[20].1);
        recipes.push(r20);
        let r21 = Recipe {
            recipe_type: RecipeType::Smelting,
            ingredients: vec![(VoxelType::Stone, 1)],
            result: VoxelType::Cobblestone,
            result_count: 1,
        };
        assert(r21.ingredients@ == standard_recipes()[21].1);
        recipes.push(r21);
        assert(recipes@.len() == standard_recipes().len());
        CraftingManager { recipes }
    }

    /// Whether the inventory holds every ingredient of a recipe.
    pub fn can_craft(&self, recipe: &Recipe, inventory: &Inventory) -> (r: bool)
        requires
            ingredient_counts_fit(recipe.ingredients@, inventory.slots@),
        ensures
            r == has_ingredients(recipe.ingredients@, inventory.slots@),
    {
        let mut i: usize = 0;
        while i < recipe.ingredients.len()
            invariant
                i <= recipe.ingredients.len(),
                ingredient_counts_fit(recipe.ingredients@, inventory.slots@),
                forall|k: int|
                    0 <= k < i ==> count_of(inventory.slots@, #[trigger] recipe.ingredients@[k].0)
                        >= recipe.ingredients@[k].1,
            decreases recipe.ingredients.len() - i,
        {
            let (item_type, count) = recipe.ingredients[i];
            assert(count_of(inventory.slots@, recipe.ingredients@[i as int].0) <= u32::MAX);
            if inventory.count_item(item_type) < count {
                return false;
            }
            i = i + 1;
        }
        true
    }

    /// Indices (in increasing order) of every recipe craftable right now:
    /// basic recipes always, table recipes only next to a crafting table,
    /// smelting never (that goes through `smelt`).
    pub fn get_available_recipes(&self, inventory: &Inventory, has_crafting_table: bool) -> (r: Vec<usize>)
        requires
            forall|i: int|
                0 <= i < self.recipes.len() && type_available(
                    (#[trigger] self.recipes@[i]).recipe_type,
                    has_crafting_table,
                ) ==> ingredient_counts_fit(self.recipes@[i].ingredients@, inventory.slots@),
        ensures
            forall|a: int, b: int| 0 <= a < b < r.len() ==> #[trigger] r@[a] < #[trigger] r@[b],
            forall|k: int|
                0 <= k < r.len() ==> #[trigger] r@[k] < self.recipes.len() && type_available(
                    self.recipes@[r@[k] as int].recipe_type,
                    has_crafting_table,
                ) && has_ingredients(self.recipes@[r@[k] as int].ingredients@, inventory.slots@),
            forall|i: int|
                0 <= i < self.recipes.len() && type_available(
                    (#[trigger] self.recipes@[i]).recipe_type,
                    has_crafting_table,
                ) && has_ingredients(self.recipes@[i].ingredients@, inventory.slots@)
                    ==> r@.contains(i as usize),
    {
        let mut out: Vec<usize> = Vec::new();
        let mut idx: usize = 0;
        while idx < self.recipes.len()
            invariant
                idx <= self.recipes.len(),
                forall|i: int|
                    0 <= i < self.recipes.len() && type_available(
                        (#[trigger] self.recipes@[i]).recipe_type,
                        has_crafting_table,
                    ) ==> ingredient_counts_fit(self.recipes@[i].ingredients@, inventory.slots@),
                forall|a: int, b: int|
                    0 <= a < b < out.len() ==> #[trigger] out@[a] < #[trigger] out@[b],
                forall|k: int| 0 <= k < out.len() ==> #[trigger] out@[k] < idx,
                forall|k: int|
                    0 <= k < out.len() ==> #[trigger] out@[k] < self.recipes.len() && type_available(
                        self.recipes@[out@[k] as int].recipe_type,
                        has_crafting_table,
                    ) && has_ingredients(self.recipes@[out@[k] as int].ingredients@, inventory.slots@),
                forall|i: int|
                    0 <= i < idx && type_available(
                        (#[trigger] self.recipes@[i]).recipe_type,
                        has_crafting_table,
                    ) && has_ingredients(self.recipes@[i].ingredients@, inventory.slots@)
                        ==> out@.contains(i as usize),
            decreases self.recipes.len() - idx,
        {
            let recipe = &self.recipes[idx];
            let allowed = match recipe.recipe_type {
                RecipeType::Basic => true,
                RecipeType::CraftingTable => has_crafting_table,
                RecipeType::Smelting => false,
            };
            if allowed && self.can_craft(recipe, inventory) {
                let ghost before = out@;
                out.push(idx);
                proof {
                    assert forall|i: int|
                        0 <= i < idx + 1 && type_available(
                            (#[trigger] self.recipes@[i]).recipe_type,
                            has_crafting_table,
                        ) && has_ingredients(self.recipes@[i].ingredients@, inventory.slots@)
                            implies out@.contains(i as usize) by {
                        if i < idx {
                            let w = choose|w: int| 0 <= w < before.len() && before[w] == i as usize;
                            assert(out@[w] == i as usize);
                        } else {
                            assert(out@[out@.len() - 1] == i as usize);
                        }
                    }
                }
            }
            idx = idx + 1;
        }
        out
    }

    /// Craft the recipe at `recipe_index`: consume its ingredients, then add
    /// its result (items that do not fit are lost). Fails on an out-of-range
    /// index or missing ingredients, leaving the inventory untouched.
    #[verifier::spinoff_prover]
    #[verifier::rlimit(40)]
    pub fn craft(&self, recipe_index: usize, inventory: &mut Inventory) -> (r: bool)
        requires
            recipe_index < self.recipes.len() ==> ingredient_counts_fit(
                self.recipes@[recipe_index as int].ingredients@,
                old(inventory).slots@,
            ),
        ensures
            r ==> recipe_index < self.recipes.len() && has_ingredients(
                self.recipes@[recipe_index as int].ingredients@,
                old(inventory).slots@,
            ),
            (recipe_index >= self.recipes.len() || !has_ingredients(
                self.recipes@[recipe_index as int].ingredients@,
                old(inventory).slots@,
            )) ==> !r && final(inventory).slots@ == old(inventory).slots@,
            r == (recipe_index < self.recipes.len() && has_ingredients(
                self.recipes@[recipe_index as int].ingredients@,
                old(inventory).slots@,
            ) && removals_fit(self.recipes@[recipe_index as int].ingredients@, old(inventory).slots@)),
            !r && recipe_index < self.recipes.len() && has_ingredients(
                self.recipes@[recipe_index as int].ingredients@,
                old(inventory).slots@,
            ) ==> ({
                let ings = self.recipes@[recipe_index as int].ingredients@;
                exists|k: int|
                    0 <= k < ings.len() && need(ings.take(k + 1), #[trigger] ings[k].0) > count_of(
                        old(inventory).slots@,
                        ings[k].0,
                    ) && forall|u: VoxelType|
                        #[trigger] count_of(final(inventory).slots@, u) == count_of(old(inventory).slots@, u)
                            - need(ings.take(k), u)
            }),
            r ==> ({
                let recipe = self.recipes@[recipe_index as int];
                let before = old(inventory).slots@;
                let after = final(inventory).slots@;
                &&& forall|u: VoxelType|
                    u != recipe.result ==> #[trigger] count_of(after, u) == count_of(before, u) - need(
                        recipe.ingredients@,
                        u,
                    )
                &&& exists|steps: Seq<Seq<Option<ItemStack>>>, leftover: u32|
                    #![trigger items_added(steps.last(), after, recipe.result, recipe.result_count, leftover)]
                    {
                        &&& removal_chain(steps, recipe.ingredients@, before)
                        &&& forall|u: VoxelType|
                            #[trigger] count_of(steps.last(), u) == count_of(before, u) - need(
                                recipe.ingredients@,
                                u,
                            )
                        &&& items_added(steps.last(), after, recipe.result, recipe.result_count, leftover)
                    }
            }),
    {
        if recipe_index >= self.recipes.len() {
            return false;
        }
        let recipe = &self.recipes[recipe_index];
        if !self.can_craft(recipe, inventory) {
            return false;
        }
        let ghost before = inventory.slots@;
        let ghost ings = recipe.ingredients@;
        let ghost mut steps: Seq<Seq<Option<ItemStack>>> = seq![before];
        let mut k: usize = 0;
        while k < recipe.ingredients.len()
            invariant
                k <= recipe.ingredients.len(),
                ings == recipe.ingredients@,
                recipe_index < self.recipes.len(),
                *recipe == self.recipes@[recipe_index as int],
                before == old(inventory).slots@,
                has_ingredients(ings, before),
                ingredient_counts_fit(ings, before),
                forall|u: VoxelType|
                    #[trigger] count_of(inventory.slots@, u) + need(ings.take(k as int), u)
                        == count_of(before, u),
                ingredients_distinct(ings) ==> forall|i: int|
                    k <= i < ings.len() ==> need(ings.take(k as int), (#[trigger] ings[i]).0) == 0,
                forall|j: int| 0 <= j < k ==> need(ings.take(j + 1), #[trigger] ings[j].0) <= count_of(before, ings[j].0),
                inventory.slots@.len() == INVENTORY_SIZE,
                steps.len() == k + 1,
                steps[0] == before,
                steps[k as int] == inventory.slots@,
                forall|j: int| 0 <= j < k ==> #[trigger] removal_step(steps, ings, j),
            decreases recipe.ingredients.len() - k,
        {
            let (item_type, count) = recipe.ingredients[k];
            let ghost cur = inventory.slots@;
            assert(count_of(cur, item_type) <= count_of(before, ings[k as int].0));
            proof {
                lemma_need_take(ings, k as int, item_type);
            }
            if !inventory.remove_items(item_type, count) {
                assert(need(ings.take(k as int + 1), ings[k as int].0) > count_of(before, ings[k as int].0));
                return false;
            }
            proof {
                let old_steps = steps;
                steps = steps.push(inventory.slots@);
                assert forall|j: int| 0 <= j < k + 1 implies #[trigger] removal_step(steps, ings, j) by {
                    if j < k {
                        assert(removal_step(old_steps, ings, j));
                        assert(steps[j] == old_steps[j] && steps[j + 1] == old_steps[j + 1]);
                    } else {
                        assert(steps[j] == cur && steps[j + 1] == inventory.slots@);
                    }
                }
                assert forall|u: VoxelType|
                    #[trigger] count_of(inventory.slots@, u) + need(ings.take(k as int + 1), u)
                        == count_of(before, u) by {
                    lemma_need_take(ings, k as int, u);
                    if u != item_type {
                        crate::inventory::lemma_remove_keeps_other_counts(
                            cur,
                            inventory.slots@,
                            item_type,
                            u,
                        );
                    }
                }
                if ingredients_distinct(ings) {
                    assert forall|i: int| k + 1 <= i < ings.len() implies need(
                        ings.take(k as int + 1),
                        (#[trigger] ings[i]).0,
                    ) == 0 by {
                        lemma_need_take(ings, k as int, ings[i].0);
                        assert(ings[k as int].0 != ings[i].0);
                    }
                }
            }
            k = k + 1;
        }
        proof {
            assert(ings.take(ings.len() as int) =~= ings);
        }
        let ghost mid = inventory.slots@;
        let leftover = inventory.add_item(recipe.result, recipe.result_count);
        proof {
            assert forall|u: VoxelType| u != recipe.result implies #[trigger] count_of(
                inventory.slots@,
                u,
            ) == count_of(mid, u) by {
                crate::inventory::lemma_add_keeps_other_counts(mid, inventory.slots@, recipe.result, u);
            }
            assert(steps.last() == mid);
            assert(items_added(steps.last(), inventory.slots@, recipe.result, recipe.result_count, leftover));
        }
        true
    }

    /// Smelt one `input_type` in the furnace: consumes the input and one fuel
    /// (a plank if there is one, else a wood log) and adds the first matching
    /// smelting recipe's result. Fails, changing nothing, without a recipe,
    /// without the input, or without fuel.
    pub fn smelt(&self, input_type: VoxelType, inventory: &mut Inventory) -> (r: bool)
        requires
            count_of(old(inventory).slots@, input_type) <= u32::MAX,
            count_of(old(inventory).slots@, VoxelType::Wood) <= u32::MAX,
            count_of(old(inventory).slots@, VoxelType::Plank) <= u32::MAX,
        ensures
            r == (smelting_index(self.recipes@, input_type) is Some && count_of(
                old(inventory).slots@,
                input_type,
            ) >= 1 && (count_of(old(inventory).slots@, VoxelType::Wood) >= 1 || count_of(
                old(inventory).slots@,
                VoxelType::Plank,
            ) >= 1)),
            !r ==> final(inventory).slots@ == old(inventory).slots@,
            r ==> ({
                let recipe = self.recipes@[smelting_index(self.recipes@, input_type)->0];
                let before = old(inventory).slots@;
                let after = final(inventory).slots@;
                let fuel = if count_of(before, VoxelType::Plank) >= 1 {
                    VoxelType::Plank
                } else {
                    VoxelType::Wood
                };
                let fuel_taken = fuel != input_type || count_of(before, input_type) >= 2;
                let spent = |u: VoxelType|
                    (if u == input_type { 1int } else { 0int }) + (if u == fuel && fuel_taken {
                        1int
                    } else {
                        0int
                    });
                &&& forall|u: VoxelType|
                    u != recipe.result ==> #[trigger] count_of(after, u) == count_of(before, u)
                        - spent(u)
                &&& exists|took_input: Seq<Option<ItemStack>>, taken: Seq<Option<ItemStack>>, leftover: u32|
                    #![trigger removed_from_back(before, took_input, input_type), items_added(taken, after, recipe.result, recipe.result_count, leftover)]
                    {
                        &&& removed_from_back(before, took_input, input_type)
                        &&& count_of(took_input, input_type) + 1 == count_of(before, input_type)
                        &&& removed_from_back(took_input, taken, fuel)
                        &&& count_of(taken, fuel) + (if fuel_taken { 1int } else { 0int }) == count_of(
                            took_input,
                            fuel,
                        )
                        &&& forall|u: VoxelType|
                            #[trigger] count_of(taken, u) == count_of(before, u) - spent(u)
                        &&& items_added(taken, after, recipe.result, recipe.result_count, leftover)
                    }
            }),
    {
        proof {
            lemma_smelting_index(self.recipes@, input_type);
        }
        let mut idx: usize = 0;
        while idx < self.recipes.len()
            invariant
                idx <= self.recipes.len(),
                forall|q: int| 0 <= q < idx ==> !smelts(#[trigger] self.recipes@[q], input_type),
                smelting_index(self.recipes@, input_type) matches Some(p) ==> 0 <= p < self.recipes.len()
                    && smelts(self.recipes@[p], input_type),
                forall|q: int|
                    0 <= q < self.recipes.len() && smelts(#[trigger] self.recipes@[q], input_type)
                        ==> (smelting_index(self.recipes@, input_type) matches Some(p) && p <= q),
            ensures
                idx <= self.recipes.len(),
                idx < self.recipes.len() ==> smelts(self.recipes@[idx as int], input_type),
                forall|q: int| 0 <= q < idx ==> !smelts(#[trigger] self.recipes@[q], input_type),
            decreases self.recipes.len() - idx,
        {
            let rec = &self.recipes[idx];
            if rec.recipe_type == RecipeType::Smelting && rec.ingredients.len() == 1
                && rec.ingredients[0].0 == input_type {
                break;
            }
            idx = idx + 1;
        }
        if idx >= self.recipes.len() {
            return false;
        }
        assert(smelting_index(self.recipes@, input_type) == Some(idx as int));
        let recipe = &self.recipes[idx];
        if inventory.count_item(input_type) < 1 {
            return false;
        }
        let has_wood_fuel = inventory.count_item(VoxelType::Wood) >= 1;
        let has_plank_fuel = inventory.count_item(VoxelType::Plank) >= 1;
        if !has_wood_fuel && !has_plank_fuel {
            return false;
        }
        let ghost before = inventory.slots@;
        if !inventory.remove_items(input_type, 1) {
            return false;
        }
        let ghost after_input = inventory.slots@;
        proof {
            assert forall|u: VoxelType| u != input_type implies #[trigger] count_of(after_input, u)
                == count_of(before, u) by {
                crate::inventory::lemma_remove_keeps_other_counts(before, after_input, input_type, u);
            }
        }
        let fuel = if has_plank_fuel {
            VoxelType::Plank
        } else {
            VoxelType::Wood
        };
        let fuel_taken = inventory.remove_items(fuel, 1);
        let ghost after_fuel = inventory.slots@;
        proof {
            assert forall|u: VoxelType| u != fuel implies #[trigger] count_of(after_fuel, u)
                == count_of(after_input, u) by {
                crate::inventory::lemma_remove_keeps_other_counts(after_input, after_fuel, fuel, u);
            }
        }
        let leftover = inventory.add_item(recipe.result, recipe.result_count);
        proof {
            assert(removed_from_back(before, after_input, input_type));
            assert(items_added(after_fuel, inventory.slots@, recipe.result, recipe.result_count, leftover));
            assert forall|u: VoxelType| u != recipe.result implies #[trigger] count_of(
                inventory.slots@,
                u,
            ) == count_of(after_fuel, u) by {
                crate::inventory::lemma_add_keeps_other_counts(
                    after_fuel,
                    inventory.slots@,
                    recipe.result,
                    u,
                );
            }
        }
        true
    }

    /// The tool type that an item provides when held.
    pub fn get_tool_type(item: VoxelType) -> (r: Option<ToolType>)
        ensures
            r == spec_tool_type_of(item),
    {
        match item {
            VoxelType::WoodPickaxe | VoxelType::StonePickaxe | VoxelType::IronPickaxe => Some(
                ToolType::Pickaxe,
            ),
            VoxelType::WoodAxe | VoxelType::StoneAxe | VoxelType::IronAxe => Some(ToolType::Axe),
            VoxelType::WoodShovel | VoxelType::StoneShovel | VoxelType::IronShovel => Some(
                ToolType::Shovel,
            ),
            VoxelType::WoodSword | VoxelType::StoneSword | VoxelType::IronSword => Some(
                ToolType::Sword,
            ),
            _ => None,
        }
    }

    /// Break-speed factor of a held item: 2 for wooden tools, 4 for stone,
    /// 6 for iron, 1 for anything else.
    pub fn tool_multiplier(item: VoxelType) -> (r: u32)
        ensures
            r == spec_tool_multiplier(item),
    {
        match item {
            VoxelType::WoodPickaxe | VoxelType::WoodAxe | VoxelType::WoodShovel | VoxelType::WoodSword => 2,
            VoxelType::StonePickaxe | VoxelType::StoneAxe | VoxelType::StoneShovel | VoxelType::StoneSword => 4,
            VoxelType::IronPickaxe | VoxelType::IronAxe | VoxelType::IronShovel | VoxelType::IronSword => 6,
            _ => 1,
        }
    }
}

} // verus!
