//! The player's block interaction: the voxel a ray hit, the block being
//! broken, where a placed block would go, and what breaking or placing a
//! block does to the loaded chunks and the inventory.
use vstd::prelude::*;
use crate::block::{block_properties, BlockProperties, ToolType};
use crate::crafting::{spec_tool_multiplier, spec_tool_type_of, CraftingManager};
use crate::chunk::{coord_key, in_chunk_grid, map_edited, ChunkManager};
use crate::inventory::{items_added, Inventory, ItemStack, HOTBAR_SIZE};
use crate::ring_world::{grid_fits, ChunkCoord, ChunkGrid};
use crate::voxel::{Voxel, VoxelType};

verus! {

/// Result of a raycast hit.
#[derive(Clone, Copy, Debug, PartialEq, Eq)]
pub struct RaycastHit {
    /// The chunk coordinate containing the hit voxel.
    pub chunk_coord: ChunkCoord,
    /// Local voxel position within the chunk.
    pub local_x: u32,
    pub local_y: u32,
    pub local_z: u32,
    /// The face normal of the hit (which face was hit).
    pub normal: [i32; 3],
}

/// Break-speed factor of what the selected hotbar slot holds against a block
/// that needs `block_tool_type`: the tool's factor when the held item is a
/// tool of that kind, 1 for anything else (an empty slot, an index past the
/// hotbar, a non-tool or the wrong kind of tool).
pub open spec fn spec_break_speed_multiplier(
    slots: Seq<Option<ItemStack>>,
    hotbar_index: usize,
    block_tool_type: ToolType,
) -> u32 {
    if hotbar_index < HOTBAR_SIZE && (slots[hotbar_index as int] matches Some(s) && spec_tool_type_of(
        s.item_type,
    ) == Some(block_tool_type)) {
        spec_tool_multiplier(slots[hotbar_index as int]->0.item_type)
    } else {
        1
    }
}

/// Break-speed factor of the item in the selected hotbar slot against a
/// block that needs `block_tool_type`: the held tool's factor when it is the
/// right kind of tool, 1 otherwise.
pub fn break_speed_multiplier(inventory: &Inventory, hotbar_index: usize, block_tool_type: ToolType) -> (r: u32)
    ensures
        r == spec_break_speed_multiplier(inventory.slots@, hotbar_index, block_tool_type),
{
    match inventory.get_hotbar_slot(hotbar_index) {
        Some(stack) => match CraftingManager::get_tool_type(stack.item_type) {
            Some(tool_type) => {
                if tool_type == block_tool_type {
                    CraftingManager::tool_multiplier(stack.item_type)
                } else {
                    1
                }
            },
            None => 1,
        },
        None => 1,
    }
}

/// Block breaking target: which block is currently being broken.
#[derive(Clone, Copy, Debug, PartialEq, Eq, Structural)]
pub struct BreakingTarget {
    pub chunk_coord: ChunkCoord,
    pub local_x: u32,
    pub local_y: u32,
    pub local_z: u32,
}

impl BreakingTarget {
    /// The block under a raycast hit.
    pub fn from_raycast_hit(hit: &RaycastHit) -> (r: BreakingTarget)
        ensures
            r == (BreakingTarget {
                chunk_coord: hit.chunk_coord,
                local_x: hit.local_x,
                local_y: hit.local_y,
                local_z: hit.local_z,
            }),
    {
        BreakingTarget {
            chunk_coord: hit.chunk_coord,
            local_x: hit.local_x,
            local_y: hit.local_y,
            local_z: hit.local_z,
        }
    }
}

/// Where a block would be placed (ghost block position).
#[derive(Clone, Copy, Debug, PartialEq, Eq, Structural)]
pub struct PlacementPreview {
    pub chunk_coord: ChunkCoord,
    pub local_x: u32,
    pub local_y: u32,
    pub local_z: u32,
}

/// Which way a coordinate leaves `[0, cs)`: -1 below, 1 above, 0 inside.
pub open spec fn step_out(p: int, cs: int) -> int {
    if p < 0 {
        -1
    } else if p >= cs {
        1
    } else {
        0
    }
}

/// A coordinate that left `[0, cs)` by one step, moved into the chunk it entered.
pub open spec fn wrap_in(p: int, cs: int) -> int {
    if p < 0 {
        cs - 1
    } else if p >= cs {
        0
    } else {
        p
    }
}

/// The placement cell for a hit: the voxel across the hit face, which may lie
/// in the neighbouring chunk (local x runs around the ring, y up, z across);
/// `None` when that neighbour is off the edge of the world.
pub open spec fn spec_placement_target(hit: RaycastHit, grid: ChunkGrid) -> Option<PlacementPreview> {
    let cs = grid.chunk_size as int;
    let px = hit.local_x + hit.normal@[0];
    let py = hit.local_y + hit.normal@[1];
    let pz = hit.local_z + hit.normal@[2];
    if 0 <= px < cs && 0 <= py < cs && 0 <= pz < cs {
        Some(PlacementPreview { chunk_coord: hit.chunk_coord, local_x: px as u32, local_y: py as u32, local_z: pz as u32 })
    } else {
        let c = hit.chunk_coord;
        let w = c.width_index + step_out(pz, cs);
        let h = c.height_index + step_out(py, cs);
        if 0 <= w < grid.chunks_width && 0 <= h < grid.chunks_height {
            Some(
                PlacementPreview {
                    chunk_coord: ChunkCoord {
                        ring_index: crate::ring_world::wrap(
                            c.ring_index + step_out(px, cs),
                            grid.chunks_circumference as int,
                        ) as u32,
                        width_index: w as u32,
                        height_index: h as u32,
                    },
                    local_x: wrap_in(px, cs) as u32,
                    local_y: wrap_in(py, cs) as u32,
                    local_z: wrap_in(pz, cs) as u32,
                },
            )
        } else {
            None
        }
    }
}

/// Position along one axis in whole-world cells: chunk index times the
/// chunk size plus the local coordinate.
pub open spec fn world_cell(index: int, local: int, cs: int) -> int {
    index * cs + local
}

/// One step of at most one cell from a cell inside a chunk lands at the
/// world position one step away, in the chunk the step enters.
proof fn lemma_axis_step(i: int, l: int, n: int, cs: int, count: int)
    requires
        0 <= l < cs,
        -1 <= n <= 1,
    ensures
        world_cell(i + step_out(l + n, cs), wrap_in(l + n, cs), cs) == world_cell(i, l, cs) + n,
        0 <= wrap_in(l + n, cs) < cs,
        (0 <= i + step_out(l + n, cs) < count) <==> (0 <= world_cell(i, l, cs) + n < count * cs),
{
    let so = step_out(l + n, cs);
    let wi = wrap_in(l + n, cs);
    assert((i + so) * cs == i * cs + so * cs) by (nonlinear_arith);
    if so == -1 {
        assert(so * cs == -cs) by (nonlinear_arith)
            requires
                so == -1,
        ;
    } else if so == 1 {
        assert(so * cs == cs) by (nonlinear_arith)
            requires
                so == 1,
        ;
    } else {
        assert(so * cs == 0) by (nonlinear_arith)
            requires
                so == 0,
        ;
    }
    let v = (i + so) * cs + wi;
    assert((0 <= i + so < count) <==> (0 <= v < count * cs)) by (nonlinear_arith)
        requires
            0 <= wi < cs,
            v == (i + so) * cs + wi,
    {
        if i + so < 0 {
            assert((i + so) * cs <= -cs);
        }
        if i + so >= count {
            assert((i + so) * cs >= count * cs);
        }
        if 0 <= i + so < count {
            assert((i + so) * cs <= (count - 1) * cs);
        }
    }
}

/// The same step around the ring: the chunk index wraps around the
/// circumference, so the world position wraps around the ring's length in
/// cells.
proof fn lemma_ring_step(r: int, l: int, n: int, cs: int, circ: int)
    requires
        0 <= r < circ,
        0 <= l < cs,
        -1 <= n <= 1,
    ensures
        0 <= crate::ring_world::wrap(r + step_out(l + n, cs), circ) < circ,
        world_cell(crate::ring_world::wrap(r + step_out(l + n, cs), circ), wrap_in(l + n, cs), cs) == (
        world_cell(r, l, cs) + n) % (circ * cs),
{
    let so = step_out(l + n, cs);
    let wi = wrap_in(l + n, cs);
    let m = circ * cs;
    lemma_axis_step(r, l, n, cs, circ);
    let v = world_cell(r, l, cs) + n;
    assert(v == (r + so) * cs + wi);
    assert(m >= cs) by (nonlinear_arith)
        requires
            m == circ * cs,
            circ >= 1,
            cs > 0,
    ;
    if 0 <= r + so < circ {
        vstd::arithmetic::div_mod::lemma_small_mod((r + so) as nat, circ as nat);
        assert(0 <= v < m);
        vstd::arithmetic::div_mod::lemma_small_mod(v as nat, m as nat);
    } else if r + so < 0 {
        assert(r + so == -1);
        assert((r + so) * cs == -cs) by (nonlinear_arith)
            requires
                r + so == -1,
        ;
        vstd::arithmetic::div_mod::lemma_mod_add_multiples_vanish(-1, circ);
        vstd::arithmetic::div_mod::lemma_small_mod((circ - 1) as nat, circ as nat);
        assert(v == -1);
        vstd::arithmetic::div_mod::lemma_mod_add_multiples_vanish(-1, m);
        vstd::arithmetic::div_mod::lemma_small_mod((m - 1) as nat, m as nat);
        assert((circ - 1) * cs + (cs - 1) == m - 1) by (nonlinear_arith)
            requires
                m == circ * cs,
        ;
    } else {
        assert(r + so == circ);
        assert((r + so) * cs == m) by (nonlinear_arith)
            requires
                r + so == circ,
                m == circ * cs,
        ;
        vstd::arithmetic::div_mod::lemma_mod_self_0(circ);
        vstd::arithmetic::div_mod::lemma_mod_self_0(m);
        assert(v == m);
    }
}

/// Placing against a face lands in the world-space neighbour of the hit cell
/// along the face normal: for a hit inside a chunk of the grid and a normal
/// of at most one step per axis, the placement cell's world position
/// (chunk index times chunk size plus local coordinate, wrapped around the
/// ring) is the hit cell's plus the normal, and there is a placement cell
/// exactly when that position lies within the world's width and height.
pub proof fn lemma_placement_is_world_neighbor(hit: RaycastHit, grid: ChunkGrid)
    requires
        placement_in_range(hit, grid),
        grid.chunk_size > 0,
        hit.local_x < grid.chunk_size,
        hit.local_y < grid.chunk_size,
        hit.local_z < grid.chunk_size,
        hit.chunk_coord.ring_index < grid.chunks_circumference,
        hit.chunk_coord.width_index < grid.chunks_width,
        hit.chunk_coord.height_index < grid.chunks_height,
        -1 <= hit.normal@[0] <= 1,
        -1 <= hit.normal@[1] <= 1,
        -1 <= hit.normal@[2] <= 1,
    ensures
        ({
            let cs = grid.chunk_size as int;
            let c = hit.chunk_coord;
            let ring_cells = grid.chunks_circumference * cs;
            let gx = world_cell(c.ring_index as int, hit.local_x as int, cs) + hit.normal@[0];
            let gy = world_cell(c.height_index as int, hit.local_y as int, cs) + hit.normal@[1];
            let gz = world_cell(c.width_index as int, hit.local_z as int, cs) + hit.normal@[2];
            &&& spec_placement_target(hit, grid) is Some <==> (0 <= gy < grid.chunks_height * cs && 0 <= gz
                < grid.chunks_width * cs)
            &&& spec_placement_target(hit, grid) matches Some(p) ==> {
                &&& p.local_x < cs && p.local_y < cs && p.local_z < cs
                &&& p.chunk_coord.ring_index < grid.chunks_circumference
                &&& world_cell(p.chunk_coord.ring_index as int, p.local_x as int, cs) == gx % ring_cells
                &&& world_cell(p.chunk_coord.height_index as int, p.local_y as int, cs) == gy
                &&& world_cell(p.chunk_coord.width_index as int, p.local_z as int, cs) == gz
            }
        }),
{
    let cs = grid.chunk_size as int;
    let c = hit.chunk_coord;
    let (nx, ny, nz) = (hit.normal@[0] as int, hit.normal@[1] as int, hit.normal@[2] as int);
    lemma_axis_step(c.height_index as int, hit.local_y as int, ny, cs, grid.chunks_height as int);
    lemma_axis_step(c.width_index as int, hit.local_z as int, nz, cs, grid.chunks_width as int);
    lemma_ring_step(c.ring_index as int, hit.local_x as int, nx, cs, grid.chunks_circumference as int);
    let px = hit.local_x + nx;
    let py = hit.local_y + ny;
    let pz = hit.local_z + nz;
    if 0 <= px < cs && 0 <= py < cs && 0 <= pz < cs {
        vstd::arithmetic::div_mod::lemma_small_mod(c.ring_index as nat, grid.chunks_circumference as nat);
    }
}

/// Bounds under which the placement arithmetic stays within `i32`.
pub open spec fn placement_in_range(hit: RaycastHit, grid: ChunkGrid) -> bool {
    &&& 0 < grid.chunks_circumference <= i32::MAX
    &&& grid.chunks_width <= i32::MAX
    &&& grid.chunks_height <= i32::MAX
    &&& grid.chunk_size <= i32::MAX
    &&& hit.chunk_coord.ring_index < i32::MAX
    &&& hit.chunk_coord.width_index < i32::MAX
    &&& hit.chunk_coord.height_index < i32::MAX
    &&& i32::MIN <= hit.local_x + hit.normal@[0] <= i32::MAX
    &&& i32::MIN <= hit.local_y + hit.normal@[1] <= i32::MAX
    &&& i32::MIN <= hit.local_z + hit.normal@[2] <= i32::MAX
    &&& hit.local_x <= i32::MAX
    &&& hit.local_y <= i32::MAX
    &&& hit.local_z <= i32::MAX
}

/// The cell a block would be placed in against the face a ray hit: the cell
/// across that face, carried into the neighbouring chunk when it leaves the
/// hit chunk; `None` past the world's width or height edge.
pub fn placement_target(hit: &RaycastHit, grid: &ChunkGrid) -> (r: Option<PlacementPreview>)
    requires
        placement_in_range(*hit, *grid),
    ensures
        r == spec_placement_target(*hit, *grid),
{
    let place_x = hit.local_x as i32 + hit.normal[0];
    let place_y = hit.local_y as i32 + hit.normal[1];
    let place_z = hit.local_z as i32 + hit.normal[2];
    let cs = grid.chunk_size as i32;
    if place_x >= 0 && place_x < cs && place_y >= 0 && place_y < cs && place_z >= 0 && place_z < cs {
        return Some(
            PlacementPreview {
                chunk_coord: hit.chunk_coord,
                local_x: place_x as u32,
                local_y: place_y as u32,
                local_z: place_z as u32,
            },
        );
    }
    let d_ring: i32 = if place_x < 0 {
        -1
    } else if place_x >= cs {
        1
    } else {
        0
    };
    let d_height: i32 = if place_y < 0 {
        -1
    } else if place_y >= cs {
        1
    } else {
        0
    };
    let d_width: i32 = if place_z < 0 {
        -1
    } else if place_z >= cs {
        1
    } else {
        0
    };
    match hit.chunk_coord.neighbor(d_ring, d_width, d_height, grid) {
        Some(neighbor) => {
            let fx = if place_x < 0 {
                cs - 1
            } else if place_x >= cs {
                0
            } else {
                place_x
            };
            let fy = if place_y < 0 {
                cs - 1
            } else if place_y >= cs {
                0
            } else {
                place_y
            };
            let fz = if place_z < 0 {
                cs - 1
            } else if place_z >= cs {
                0
            } else {
                place_z
            };
            Some(PlacementPreview { chunk_coord: neighbor, local_x: fx as u32, local_y: fy as u32, local_z: fz as u32 })
        },
        None => None,
    }
}

/// Whether an edit at local (x, y, z) of the chunk at `c` stays within the
/// arithmetic the chunk manager's edit uses.
pub open spec fn edit_in_range(m: ChunkManager, c: ChunkCoord, x: u32, y: u32, z: u32) -> bool {
    &&& grid_fits(m.grid_of())
    &&& c.ring_index < i32::MAX
    &&& c.width_index < i32::MAX
    &&& c.height_index < i32::MAX
}

/// The item a broken block yields: its drop, or the block itself when it
/// names none.
pub open spec fn spec_drop_of(vt: VoxelType) -> VoxelType {
    match block_properties(vt).drop {
        Some(d) => d,
        None => vt,
    }
}

/// What a broken block puts into the inventory: Cobblestone for Stone, Dirt
/// for Grass, and the block itself for every other type.
pub proof fn lemma_broken_block_yield(vt: VoxelType)
    ensures
        spec_drop_of(vt) == if vt == VoxelType::Stone {
            VoxelType::Cobblestone
        } else if vt == VoxelType::Grass {
            VoxelType::Dirt
        } else {
            vt
        },
{
}

/// The type of the loaded voxel at local (x, y, z) of the chunk at `c`.
pub open spec fn loaded_voxel_type(m: ChunkManager, c: ChunkCoord, x: u32, y: u32, z: u32) -> VoxelType {
    m.loaded()[coord_key(c)].voxel_at(x as int, y as int, z as int).voxel_type
}

/// Whether the selected hotbar slot holds at least one `block_type`.
pub open spec fn hotbar_holds(inv: Inventory, index: usize, block_type: VoxelType) -> bool {
    index < HOTBAR_SIZE && match inv.slots@[index as int] {
        Some(s) => s.item_type == block_type && s.count > 0,
        None => false,
    }
}

/// Break the block a ray hit: unless it is unbreakable (or its chunk is not
/// loaded) it becomes air, neighbour meshes at a chunk seam are refreshed,
/// and outside creative mode its drop (the block itself when it names none)
/// goes into the inventory unless that is air. Returns whether a block was
/// broken.
pub fn destroy_block_at(hit: &RaycastHit, chunk_manager: &mut ChunkManager, inventory: &mut Inventory, creative_mode: bool) -> (r: bool)
    requires
        old(chunk_manager).wf(),
        edit_in_range(*old(chunk_manager), hit.chunk_coord, hit.local_x, hit.local_y, hit.local_z),
    ensures
        final(chunk_manager).wf(),
        final(chunk_manager).grid_of() == old(chunk_manager).grid_of(),
        final(chunk_manager).render_distance_of() == old(chunk_manager).render_distance_of(),
        ({
            let c = hit.chunk_coord;
            let vt = loaded_voxel_type(*old(chunk_manager), c, hit.local_x, hit.local_y, hit.local_z);
            &&& r == (old(chunk_manager).loaded().contains_key(coord_key(c)) && block_properties(vt).hardness_tenths >= 0)
            &&& !r ==> final(chunk_manager).loaded() == old(chunk_manager).loaded() && *final(inventory) == *old(inventory)
            &&& r && !in_chunk_grid(old(chunk_manager).grid_of(), hit.local_x, hit.local_y, hit.local_z)
                ==> final(chunk_manager).loaded() == old(chunk_manager).loaded()
            &&& r && in_chunk_grid(old(chunk_manager).grid_of(), hit.local_x, hit.local_y, hit.local_z) ==> map_edited(
                old(chunk_manager).loaded(),
                final(chunk_manager).loaded(),
                c,
                hit.local_x,
                hit.local_y,
                hit.local_z,
                Voxel { voxel_type: VoxelType::Air },
                old(chunk_manager).grid_of(),
            )
            &&& r && (creative_mode || spec_drop_of(vt) == VoxelType::Air) ==> *final(inventory) == *old(inventory)
            &&& r && !creative_mode && spec_drop_of(vt) != VoxelType::Air ==> exists|leftover: u32|
                items_added(old(inventory).slots@, final(inventory).slots@, spec_drop_of(vt), 1, leftover)
        }),
{
    let voxel_type = match chunk_manager.get_chunk(&hit.chunk_coord) {
        Some(chunk) => chunk.get_voxel(hit.local_x, hit.local_y, hit.local_z).voxel_type,
        None => return false,
    };
    let props = BlockProperties::get(voxel_type);
    if props.hardness_tenths < 0 {
        return false;
    }
    chunk_manager.set_voxel(&hit.chunk_coord, hit.local_x, hit.local_y, hit.local_z, Voxel::air());
    if !creative_mode {
        let drop_type = match props.drop {
            Some(d) => d,
            None => voxel_type,
        };
        if drop_type != VoxelType::Air {
            let _leftover = inventory.add_item(drop_type, 1);
        }
    }
    true
}

/// Place `block_type` in the cell a placement aims at: outside creative
/// mode the selected hotbar slot must hold at least one of it, and the
/// target cell must be loaded and hold air. On success the block is set
/// (refreshing neighbour meshes at a chunk seam) and, outside creative
/// mode, one item is taken from that hotbar slot. Returns whether a block
/// was placed.
pub fn place_block_at(
    target: &PlacementPreview,
    block_type: VoxelType,
    chunk_manager: &mut ChunkManager,
    inventory: &mut Inventory,
    hotbar_index: usize,
    creative_mode: bool,
) -> (r: bool)
    requires
        old(chunk_manager).wf(),
        edit_in_range(*old(chunk_manager), target.chunk_coord, target.local_x, target.local_y, target.local_z),
    ensures
        final(chunk_manager).wf(),
        final(chunk_manager).grid_of() == old(chunk_manager).grid_of(),
        final(chunk_manager).render_distance_of() == old(chunk_manager).render_distance_of(),
        ({
            let c = target.chunk_coord;
            &&& r == ((creative_mode || hotbar_holds(*old(inventory), hotbar_index, block_type))
                && old(chunk_manager).loaded().contains_key(coord_key(c)) && loaded_voxel_type(
                *old(chunk_manager),
                c,
                target.local_x,
                target.local_y,
                target.local_z,
            ) == VoxelType::Air)
            &&& !r ==> final(chunk_manager).loaded() == old(chunk_manager).loaded() && *final(inventory) == *old(inventory)
            &&& r && !in_chunk_grid(old(chunk_manager).grid_of(), target.local_x, target.local_y, target.local_z)
                ==> final(chunk_manager).loaded() == old(chunk_manager).loaded()
            &&& r && in_chunk_grid(old(chunk_manager).grid_of(), target.local_x, target.local_y, target.local_z)
                ==> map_edited(
                old(chunk_manager).loaded(),
                final(chunk_manager).loaded(),
                c,
                target.local_x,
                target.local_y,
                target.local_z,
                Voxel { voxel_type: block_type },
                old(chunk_manager).grid_of(),
            )
            &&& r && creative_mode ==> *final(inventory) == *old(inventory)
            &&& r && !creative_mode ==> match old(inventory).slots@[hotbar_index as int] {
                Some(s) => final(inventory).slots@ == old(inventory).slots@.update(
                    hotbar_index as int,
                    if s.count == 1 {
                        None
                    } else {
                        Some(crate::inventory::ItemStack { item_type: s.item_type, count: (s.count - 1) as u32 })
                    },
                ),
                None => false,
            }
        }),
{
    if !creative_mode {
        match inventory.get_hotbar_slot(hotbar_index) {
            Some(stack) => {
                if !(stack.item_type == block_type && stack.count > 0) {
                    return false;
                }
            },
            None => {
                return false;
            },
        }
    }
    let is_air = match chunk_manager.get_chunk(&target.chunk_coord) {
        Some(chunk) => chunk.get_voxel(target.local_x, target.local_y, target.local_z).voxel_type == VoxelType::Air,
        None => false,
    };
    if !is_air {
        return false;
    }
    chunk_manager.set_voxel(&target.chunk_coord, target.local_x, target.local_y, target.local_z, Voxel::new(block_type));
    if !creative_mode {
        let _consumed = inventory.consume_from_hotbar(hotbar_index);
    }
    true
}

} // verus!
