//! Cubic chunks of voxels with per-voxel packed light, the face-culling and
//! light-sampling rules used when meshing them, and the set of chunks loaded
//! around the player.
use vstd::prelude::*;
use crate::voxel::{Voxel, VoxelType};
use crate::ring_world::{chunk_distance_between, spec_chunk_distance, ChunkCoord, ChunkGrid, spec_neighbor, grid_fits};
use std::collections::HashMap;

verus! {

broadcast use vstd::std_specs::hash::group_hash_axioms;

/// Light level (full sunlight, 0-15) used for a light sample that falls in a
/// not-yet-loaded neighbour chunk, the same in all six directions.
pub const UNLOADED_NEIGHBOR_LIGHT: u8 = 15;

/// A chunk of voxels in the ring world.
pub struct Chunk {
    pub coord: ChunkCoord,
    voxels: Vec<Voxel>,
    light_levels: Vec<u8>,
    size: u32,
    pub dirty: bool,
    pub generated: bool,
    pub mesh_version: u64,
}

/// Number of cells in a cube of side `s`.
pub open spec fn cube(s: int) -> int {
    s * s * s
}

/// Position of cell (x, y, z) in the flat storage of a chunk of side `s`.
pub open spec fn cell_index(s: int, x: int, y: int, z: int) -> int {
    x + y * s + z * (s * s)
}

/// Whether (x, y, z) lies inside a chunk of side `s`.
pub open spec fn in_bounds(s: int, x: int, y: int, z: int) -> bool {
    0 <= x < s && 0 <= y < s && 0 <= z < s
}

/// The voxel at (x, y, z) of flat storage for side `s`; air outside.
pub open spec fn vox_at(vox: Seq<Voxel>, s: int, x: int, y: int, z: int) -> Voxel {
    if in_bounds(s, x, y, z) {
        vox[cell_index(s, x, y, z)]
    } else {
        Voxel { voxel_type: VoxelType::Air }
    }
}

/// The packed light byte: sunlight in the high nibble, block light in the low.
pub open spec fn pack_light(sun: u8, block: u8) -> u8 {
    ((sun % 16) * 16 + block % 16) as u8
}

/// Sunlight stored in a packed light byte.
pub open spec fn unpack_sun(packed: u8) -> u8 {
    (packed / 16) as u8
}

/// Block light stored in a packed light byte.
pub open spec fn unpack_block(packed: u8) -> u8 {
    (packed % 16) as u8
}

/// A cell inside the chunk lands inside the flat storage.
pub proof fn lemma_cell_index_bounds(s: int, x: int, y: int, z: int)
    requires
        in_bounds(s, x, y, z),
    ensures
        0 <= cell_index(s, x, y, z) < cube(s),
        0 <= y * s <= cube(s),
        0 <= z * s <= s * s,
        0 <= z * (s * s) <= cube(s),
        s * s <= cube(s),
        0 <= x + y * s < s * s,
        (z * s) * s == z * (s * s),
{
    assert((z * s) * s == z * (s * s)) by (nonlinear_arith);
    assert(0 <= y * s <= (s - 1) * s) by (nonlinear_arith)
        requires
            0 <= y < s,
    ;
    assert(0 <= z * s <= (s - 1) * s) by (nonlinear_arith)
        requires
            0 <= z < s,
    ;
    assert(0 <= z * (s * s) <= (s - 1) * (s * s)) by (nonlinear_arith)
        requires
            0 <= z < s,
    ;
    assert(cube(s) == (s - 1) * (s * s) + s * s) by (nonlinear_arith);
    assert(s * s == (s - 1) * s + s) by (nonlinear_arith);
    assert(s * s <= cube(s)) by (nonlinear_arith)
        requires
            s >= 1,
    ;
}

/// Distinct cells occupy distinct storage positions.
pub proof fn lemma_cell_index_injective(s: int, x1: int, y1: int, z1: int, x2: int, y2: int, z2: int)
    requires
        in_bounds(s, x1, y1, z1),
        in_bounds(s, x2, y2, z2),
        cell_index(s, x1, y1, z1) == cell_index(s, x2, y2, z2),
    ensures
        x1 == x2 && y1 == y2 && z1 == z2,
{
    assert(z1 == z2) by (nonlinear_arith)
        requires
            in_bounds(s, x1, y1, z1),
            in_bounds(s, x2, y2, z2),
            x1 + y1 * s + z1 * (s * s) == x2 + y2 * s + z2 * (s * s),
    {
        assert(x1 + y1 * s <= (s - 1) + (s - 1) * s);
        assert(x2 + y2 * s <= (s - 1) + (s - 1) * s);
        assert((s - 1) + (s - 1) * s == s * s - 1);
        if z1 < z2 {
            assert(z1 * (s * s) + s * s <= z2 * (s * s));
        }
        if z2 < z1 {
            assert(z2 * (s * s) + s * s <= z1 * (s * s));
        }
    }
    assert(y1 == y2) by (nonlinear_arith)
        requires
            0 <= x1 < s,
            0 <= x2 < s,
            x1 + y1 * s == x2 + y2 * s,
    {
        if y1 < y2 {
            assert(y1 * s + s <= y2 * s);
        }
        if y2 < y1 {
            assert(y2 * s + s <= y1 * s);
        }
    }
}

/// Every storage position belongs to some cell.
pub proof fn lemma_cell_of_index(s: int, i: int)
    requires
        0 <= i < cube(s),
    ensures
        in_bounds(s, i % s, (i / s) % s, i / (s * s)),
        cell_index(s, i % s, (i / s) % s, i / (s * s)) == i,
{
    assert(s > 0) by (nonlinear_arith)
        requires
            0 <= i < s * s * s,
    ;
    let x = i % s;
    let q = i / s;
    let y = q % s;
    let z = q / s;
    assert(i == q * s + x) by (nonlinear_arith)
        requires
            s > 0,
            x == i % s,
            q == i / s,
    ;
    assert(q == z * s + y) by (nonlinear_arith)
        requires
            s > 0,
            y == q % s,
            z == q / s,
    ;
    assert(z == i / (s * s)) by (nonlinear_arith)
        requires
            s > 0,
            0 <= i,
            q == i / s,
            z == q / s,
    {
        vstd::arithmetic::div_mod::lemma_div_denominator(i, s, s);
    }
    assert(0 <= x < s && 0 <= y < s) by (nonlinear_arith)
        requires
            s > 0,
            x == i % s,
            y == q % s,
    ;
    assert(0 <= z < s) by (nonlinear_arith)
        requires
            s > 0,
            0 <= i < s * s * s,
            z == i / (s * s),
    {
        vstd::arithmetic::div_mod::lemma_div_pos_is_pos(i, s * s);
        vstd::arithmetic::div_mod::lemma_div_by_multiple_is_strongly_ordered(i, s * s * s, s, s * s);
        assert(s * s * s == s * (s * s));
        vstd::arithmetic::div_mod::lemma_div_multiples_vanish(s, s * s);
    }
    assert(i == x + y * s + z * (s * s)) by (nonlinear_arith)
        requires
            i == q * s + x,
            q == z * s + y,
    ;
}

/// Unpacking a packed light byte gives back both (nibble-masked) levels.
pub proof fn lemma_pack_unpack(sun: u8, block: u8)
    ensures
        unpack_sun(pack_light(sun, block)) == sun % 16,
        unpack_block(pack_light(sun, block)) == block % 16,
{
}

/// Whether a voxel type is alpha-blended (drawn in the water pass): only water.
pub open spec fn spec_is_translucent(vt: VoxelType) -> bool {
    vt == VoxelType::Water
}

/// Whether a voxel type is genuinely translucent (alpha-blended), as opposed
/// to opaque or alpha-cutout. Currently this is just water.
pub fn is_translucent(voxel_type: VoxelType) -> (r: bool)
    ensures
        r == spec_is_translucent(voxel_type),
{
    matches!(voxel_type, VoxelType::Water)
}

/// Decorations drawn as two crossed billboards instead of a cube.
pub open spec fn spec_is_cross_render(vt: VoxelType) -> bool {
    matches!(vt, VoxelType::TallGrass | VoxelType::Flower | VoxelType::Mushroom | VoxelType::Vine)
}

/// Whether a voxel type is rendered as a cross-shaped billboard: tall grass,
/// flowers, mushrooms and vines.
pub fn is_cross_render(voxel_type: VoxelType) -> (r: bool)
    ensures
        r == spec_is_cross_render(voxel_type),
{
    matches!(voxel_type, VoxelType::TallGrass | VoxelType::Flower | VoxelType::Mushroom | VoxelType::Vine)
}

/// Types whose faces use alpha-cutout: leaves and the cross-rendered plants.
pub open spec fn spec_is_alpha_tested(vt: VoxelType) -> bool {
    spec_is_cross_render(vt) || vt == VoxelType::Leaves
}

/// Whether a voxel type's faces use alpha-cutout rendering (the shader may
/// discard their transparent texels): leaves and the cross-rendered plants.
pub fn is_alpha_tested(voxel_type: VoxelType) -> (r: bool)
    ensures
        r == spec_is_alpha_tested(voxel_type),
{
    is_cross_render(voxel_type) || matches!(voxel_type, VoxelType::Leaves)
}

/// Whether `neighbor` fully hides the face of `current` toward it: air and
/// cross-rendered plants never do, fully opaque blocks always do, and a
/// transparent block hides only the shared face of the same type.
pub open spec fn spec_occludes(current: VoxelType, neighbor: VoxelType) -> bool {
    if neighbor == VoxelType::Air || spec_is_cross_render(neighbor) {
        false
    } else if neighbor.spec_is_solid() && !neighbor.spec_is_transparent() {
        true
    } else if neighbor.spec_is_transparent() {
        neighbor == current
    } else {
        false
    }
}

/// Face-culling rule: true when `neighbor` hides the `current` voxel's face
/// toward it (the face is culled), false when the face must be drawn.
pub fn occludes(current: VoxelType, neighbor: VoxelType) -> (r: bool)
    ensures
        r == spec_occludes(current, neighbor),
{
    if neighbor == VoxelType::Air {
        return false;
    }
    if is_cross_render(neighbor) {
        return false;
    }
    if neighbor.is_solid() && !neighbor.is_transparent() {
        return true;
    }
    if neighbor.is_transparent() {
        return neighbor == current;
    }
    false
}

/// Face directions.
#[derive(Clone, Copy, Debug, PartialEq, Eq, Structural)]
pub enum Face {
    PosX,
    NegX,
    PosY,
    NegY,
    PosZ,
    NegZ,
}

/// The face with index `i` (0=+X, 1=-X, 2=+Y, 3=-Y, 4=+Z, anything else -Z).
pub open spec fn spec_face_from_index(i: u8) -> Face {
    match i {
        0 => Face::PosX,
        1 => Face::NegX,
        2 => Face::PosY,
        3 => Face::NegY,
        4 => Face::PosZ,
        _ => Face::NegZ,
    }
}

impl Face {
    /// The face with index `i` (0=+X, 1=-X, 2=+Y, 3=-Y, 4=+Z, otherwise -Z).
    pub fn from_index(i: u8) -> (r: Face)
        ensures
            r == spec_face_from_index(i),
    {
        match i {
            0 => Face::PosX,
            1 => Face::NegX,
            2 => Face::PosY,
            3 => Face::NegY,
            4 => Face::PosZ,
            _ => Face::NegZ,
        }
    }

    /// Chunk-local (x, y, z) of the cell at depth `d` along this face's axis
    /// and at (u, v) within the slice.
    pub open spec fn spec_map_coords(self, d: u32, u: u32, v: u32) -> (u32, u32, u32) {
        match self {
            Face::PosX | Face::NegX => (d, v, u),
            Face::PosY | Face::NegY => (u, d, v),
            Face::PosZ | Face::NegZ => (u, v, d),
        }
    }

    /// Chunk-local (x, y, z) of the cell at depth `d` along this face's axis
    /// and at (u, v) within the slice.
    pub fn map_coords(&self, d: u32, u: u32, v: u32) -> (r: (u32, u32, u32))
        ensures
            r == self.spec_map_coords(d, u, v),
    {
        match self {
            Face::PosX | Face::NegX => (d, v, u),
            Face::PosY | Face::NegY => (u, d, v),
            Face::PosZ | Face::NegZ => (u, v, d),
        }
    }

    /// The unit step from a cell to its neighbour across this face.
    pub open spec fn step(self) -> (int, int, int) {
        match self {
            Face::PosX => (1, 0, 0),
            Face::NegX => (-1, 0, 0),
            Face::PosY => (0, 1, 0),
            Face::NegY => (0, -1, 0),
            Face::PosZ => (0, 0, 1),
            Face::NegZ => (0, 0, -1),
        }
    }
}

/// The cell of face `face_index` (0=+X, 1=-X, 2=+Y, 3=-Y, 4=+Z, 5=-Z) of a
/// chunk of side `s` at in-face position (a, b).
pub open spec fn face_cell(face_index: int, s: int, a: int, b: int) -> (int, int, int) {
    if face_index == 0 {
        (s - 1, a, b)
    } else if face_index == 1 {
        (0, a, b)
    } else if face_index == 2 {
        (a, s - 1, b)
    } else if face_index == 3 {
        (a, 0, b)
    } else if face_index == 4 {
        (a, b, s - 1)
    } else {
        (a, b, 0)
    }
}

/// `v` clamped into `[lo, hi]`.
pub open spec fn clamp_int(v: int, lo: int, hi: int) -> int {
    if v < lo {
        lo
    } else if v > hi {
        hi
    } else {
        v
    }
}

/// The brighter of the two light channels at a cell.
pub open spec fn max_light(c: Chunk, x: int, y: int, z: int) -> u8 {
    if c.sun_at(x, y, z) >= c.block_light_at(x, y, z) {
        c.sun_at(x, y, z)
    } else {
        c.block_light_at(x, y, z)
    }
}

/// The brighter channel at a cell of an optional neighbour chunk; the
/// unloaded-neighbour default when there is none.
pub open spec fn neighbor_light(n: Option<&Chunk>, x: int, y: int, z: int) -> u8 {
    match n {
        Some(c) => max_light(*c, x, y, z),
        None => UNLOADED_NEIGHBOR_LIGHT,
    }
}

/// Light sampled at (x, y, z) relative to chunk `c`: the brighter channel
/// inside the chunk; outside it, the nearest edge cell of the neighbour on
/// the first side crossed (checked +X, -X, +Y, -Y, +Z, -Z), other coordinates
/// clamped into range; 15 for a side with no loaded neighbour.
pub open spec fn spec_sample_light(c: Chunk, x: int, y: int, z: int, nb: Seq<Option<&Chunk>>) -> u8 {
    let s = c.side();
    if in_bounds(s, x, y, z) {
        max_light(c, x, y, z)
    } else if x >= s {
        neighbor_light(nb[0], 0, clamp_int(y, 0, s - 1), clamp_int(z, 0, s - 1))
    } else if x < 0 {
        neighbor_light(nb[1], s - 1, clamp_int(y, 0, s - 1), clamp_int(z, 0, s - 1))
    } else if y >= s {
        neighbor_light(nb[2], clamp_int(x, 0, s - 1), 0, clamp_int(z, 0, s - 1))
    } else if y < 0 {
        neighbor_light(nb[3], clamp_int(x, 0, s - 1), s - 1, clamp_int(z, 0, s - 1))
    } else if z >= s {
        neighbor_light(nb[4], clamp_int(x, 0, s - 1), clamp_int(y, 0, s - 1), 0)
    } else {
        neighbor_light(nb[5], clamp_int(x, 0, s - 1), clamp_int(y, 0, s - 1), s - 1)
    }
}

/// Every loaded neighbour chunk is well formed.
pub open spec fn neighbors_wf(nb: Seq<Option<&Chunk>>) -> bool {
    forall|i: int| 0 <= i < nb.len() ==> (#[trigger] nb[i] matches Some(n) ==> n.wf())
}

/// Corner `i` (0..4) of a face's light sampling pattern, as
/// (dx0, dx1, dy0, dy1, dz0, dz1): the two edge samples sit at the adjacent
/// cell plus (dx0, dy0, dz0) and plus (dx1, dy1, dz1); the corner sample adds both.
pub open spec fn corner_offset(face: Face, i: int) -> (int, int, int, int, int, int) {
    match face {
        Face::PosX | Face::NegX => if i == 0 {
            (0, -1, 0, 0, 0, -1)
        } else if i == 1 {
            (0, 1, 0, 0, 0, -1)
        } else if i == 2 {
            (0, 1, 0, 0, 0, 1)
        } else {
            (0, -1, 0, 0, 0, 1)
        },
        Face::PosY | Face::NegY => if i == 0 {
            (-1, 0, 0, 0, 0, -1)
        } else if i == 1 {
            (-1, 0, 0, 0, 0, 1)
        } else if i == 2 {
            (1, 0, 0, 0, 0, 1)
        } else {
            (1, 0, 0, 0, 0, -1)
        },
        Face::PosZ | Face::NegZ => if i == 0 {
            (1, 0, 0, -1, 0, 0)
        } else if i == 1 {
            (1, 0, 0, 1, 0, 0)
        } else if i == 2 {
            (-1, 0, 0, 1, 0, 0)
        } else {
            (-1, 0, 0, -1, 0, 0)
        },
    }
}

/// Whether an offset triple of pairs spells out `corner_offset` entry `o`.
pub open spec fn offsets_agree(t: ([i32; 2], [i32; 2], [i32; 2]), o: (int, int, int, int, int, int)) -> bool {
    &&& t.0@[0] == o.0
    &&& t.0@[1] == o.1
    &&& t.1@[0] == o.2
    &&& t.1@[1] == o.3
    &&& t.2@[0] == o.4
    &&& t.2@[1] == o.5
}

/// The cell adjacent to (x, y, z) across `face`.
pub open spec fn adjacent_cell(x: int, y: int, z: int, face: Face) -> (int, int, int) {
    (x + face.step().0, y + face.step().1, z + face.step().2)
}

/// Sum of the four light samples (adjacent cell, two edges, corner) for
/// corner `i` of `face` of the voxel at (x, y, z).
pub open spec fn corner_light_total(c: Chunk, x: int, y: int, z: int, face: Face, nb: Seq<Option<&Chunk>>, i: int) -> int {
    let (ax, ay, az) = adjacent_cell(x, y, z, face);
    let o = corner_offset(face, i);
    spec_sample_light(c, ax, ay, az, nb) + spec_sample_light(c, ax + o.0, ay + o.2, az + o.4, nb)
        + spec_sample_light(c, ax + o.1, ay + o.3, az + o.5, nb) + spec_sample_light(
        c,
        ax + o.0 + o.1,
        ay + o.2 + o.3,
        az + o.4 + o.5,
        nb,
    )
}

/// The type of the voxel across `face` from (x, y, z): from this chunk, or
/// at a chunk boundary from the loaded neighbour on that side (`None` when
/// that neighbour is not loaded).
pub open spec fn face_neighbor_type(c: Chunk, x: u32, y: u32, z: u32, face: Face, size: u32, nb: Seq<Option<&Chunk>>) -> Option<VoxelType> {
    match face {
        Face::PosX => if x == size - 1 {
            match nb[0] { Some(n) => Some(n.voxel_at(0, y as int, z as int).voxel_type), None => None }
        } else {
            Some(c.voxel_at(x + 1, y as int, z as int).voxel_type)
        },
        Face::NegX => if x == 0 {
            match nb[1] { Some(n) => Some(n.voxel_at(size - 1, y as int, z as int).voxel_type), None => None }
        } else {
            Some(c.voxel_at(x - 1, y as int, z as int).voxel_type)
        },
        Face::PosY => if y == size - 1 {
            match nb[2] { Some(n) => Some(n.voxel_at(x as int, 0, z as int).voxel_type), None => None }
        } else {
            Some(c.voxel_at(x as int, y + 1, z as int).voxel_type)
        },
        Face::NegY => if y == 0 {
            match nb[3] { Some(n) => Some(n.voxel_at(x as int, size - 1, z as int).voxel_type), None => None }
        } else {
            Some(c.voxel_at(x as int, y - 1, z as int).voxel_type)
        },
        Face::PosZ => if z == size - 1 {
            match nb[4] { Some(n) => Some(n.voxel_at(x as int, y as int, 0).voxel_type), None => None }
        } else {
            Some(c.voxel_at(x as int, y as int, z + 1).voxel_type)
        },
        Face::NegZ => if z == 0 {
            match nb[5] { Some(n) => Some(n.voxel_at(x as int, y as int, size - 1).voxel_type), None => None }
        } else {
            Some(c.voxel_at(x as int, y as int, z - 1).voxel_type)
        },
    }
}

/// Whether the face of the voxel at (x, y, z) toward `face` is drawn: unless
/// the voxel across it occludes it, and always at a side whose neighbour
/// chunk is not loaded.
pub open spec fn spec_face_visible(c: Chunk, x: u32, y: u32, z: u32, face: Face, size: u32, nb: Seq<Option<&Chunk>>) -> bool {
    match face_neighbor_type(c, x, y, z, face, size, nb) {
        None => true,
        Some(nt) => !spec_occludes(c.voxel_at(x as int, y as int, z as int).voxel_type, nt),
    }
}

/// The entry of the face mask of slice `d` toward `face` at (u, v): the
/// voxel's type when it is a cube (neither air nor a cross-rendered plant)
/// whose face toward `face` is drawn, otherwise nothing.
pub open spec fn mask_cell(c: Chunk, face: Face, d: u32, u: u32, v: u32, nb: Seq<Option<&Chunk>>) -> Option<VoxelType> {
    let (x, y, z) = face.spec_map_coords(d, u, v);
    let vt = c.voxel_at(x as int, y as int, z as int).voxel_type;
    if vt == VoxelType::Air || spec_is_cross_render(vt) {
        None
    } else if spec_face_visible(c, x, y, z, face, c.side() as u32, nb) {
        Some(vt)
    } else {
        None
    }
}

/// The type of the voxel at offset (dx, dy, dz) inside LOD super-voxel
/// (bx, by, bz) of edge `step`.
pub open spec fn lod_cell(c: Chunk, bx: int, by: int, bz: int, step: int, dx: int, dy: int, dz: int) -> VoxelType {
    c.voxel_at(bx * step + dx, by * step + dy, bz * step + dz).voxel_type
}

/// Whether offset (dx, dy, dz) lies inside a super-voxel of edge `step`.
pub open spec fn in_cell(step: int, dx: int, dy: int, dz: int) -> bool {
    0 <= dx < step && 0 <= dy < step && 0 <= dz < step
}

/// Whether (a, b, c) is visited before (x, y, z) when scanning z, then y, then x.
pub open spec fn scan_before(a: int, b: int, c: int, x: int, y: int, z: int) -> bool {
    c < z || (c == z && (b < y || (b == y && a < x)))
}

/// Whether every voxel of LOD super-voxel (bx, by, bz) is opaque.
pub open spec fn spec_lod_full_solid(c: Chunk, bx: int, by: int, bz: int, step: int) -> bool {
    forall|dx: int, dy: int, dz: int|
        in_cell(step, dx, dy, dz) ==> !(#[trigger] lod_cell(c, bx, by, bz, step, dx, dy, dz)).spec_is_transparent()
}

/// Whether a super-voxel lookup stays within `u32` coordinates.
pub open spec fn lod_coords_fit(bx: int, by: int, bz: int, step: int) -> bool {
    step > 0 ==> (bx * step + step - 1 <= u32::MAX && by * step + step - 1 <= u32::MAX && bz * step
        + step - 1 <= u32::MAX)
}

/// `new` is `old` after storing `v` at (x, y, z): inside the chunk the voxel
/// is replaced and the chunk marked dirty, everything else kept; outside it
/// nothing changes.
pub open spec fn voxel_set(old: Chunk, new: Chunk, x: int, y: int, z: int, v: Voxel) -> bool {
    if in_bounds(old.side(), x, y, z) {
        &&& new.voxel_seq() == old.voxel_seq().update(cell_index(old.side(), x, y, z), v)
        &&& new.light_seq() == old.light_seq()
        &&& new.side() == old.side()
        &&& new.coord_of() == old.coord_of()
        &&& new.dirty_flag()
        &&& new.generated_flag() == old.generated_flag()
        &&& new.mesh_version_of() == old.mesh_version_of()
    } else {
        new == old
    }
}

/// The cells after writing each edit (local storage index, voxel type code)
/// in turn; an index past the last cell is skipped, and a later edit of the
/// same cell wins.
pub open spec fn edits_applied(cells: Seq<Voxel>, edits: Seq<(u16, u8)>) -> Seq<Voxel>
    decreases edits.len(),
{
    if edits.len() == 0 {
        cells
    } else {
        let prev = edits_applied(cells, edits.drop_last());
        let e = edits.last();
        if (e.0 as int) < prev.len() {
            prev.update(e.0 as int, Voxel { voxel_type: VoxelType::spec_from_u8(e.1) })
        } else {
            prev
        }
    }
}

/// Writing edits never changes the number of cells.
proof fn lemma_edits_applied_len(cells: Seq<Voxel>, edits: Seq<(u16, u8)>)
    ensures
        edits_applied(cells, edits).len() == cells.len(),
    decreases edits.len(),
{
    if edits.len() > 0 {
        lemma_edits_applied_len(cells, edits.drop_last());
    }
}

impl Chunk {
    /// Side length in voxels.
    pub closed spec fn side(&self) -> int {
        self.size as int
    }

    /// The chunk's grid coordinate.
    pub closed spec fn coord_of(&self) -> ChunkCoord {
        self.coord
    }

    /// Whether the chunk needs re-meshing.
    pub closed spec fn dirty_flag(&self) -> bool {
        self.dirty
    }

    /// Whether terrain generation has run.
    pub closed spec fn generated_flag(&self) -> bool {
        self.generated
    }

    /// Mesh version counter.
    pub closed spec fn mesh_version_of(&self) -> u64 {
        self.mesh_version
    }

    /// Voxel storage, in `cell_index` order.
    pub closed spec fn voxel_seq(&self) -> Seq<Voxel> {
        self.voxels@
    }

    /// Packed light storage, in `cell_index` order.
    pub closed spec fn light_seq(&self) -> Seq<u8> {
        self.light_levels@
    }

    /// Storage holds exactly one entry per cell, and cell positions fit a `u32`.
    pub open spec fn wf(&self) -> bool {
        &&& self.voxel_seq().len() == cube(self.side())
        &&& self.light_seq().len() == cube(self.side())
        &&& cube(self.side()) <= u32::MAX
        &&& 0 <= self.side()
    }

    /// The voxel at (x, y, z); air outside the chunk.
    pub open spec fn voxel_at(&self, x: int, y: int, z: int) -> Voxel {
        vox_at(self.voxel_seq(), self.side(), x, y, z)
    }

    /// Sunlight at (x, y, z); full sunlight (15) outside the chunk.
    pub open spec fn sun_at(&self, x: int, y: int, z: int) -> u8 {
        if in_bounds(self.side(), x, y, z) {
            unpack_sun(self.light_seq()[cell_index(self.side(), x, y, z)])
        } else {
            15
        }
    }

    /// Block light at (x, y, z); none outside the chunk.
    pub open spec fn block_light_at(&self, x: int, y: int, z: int) -> u8 {
        if in_bounds(self.side(), x, y, z) {
            unpack_block(self.light_seq()[cell_index(self.side(), x, y, z)])
        } else {
            0
        }
    }

    /// A fresh all-air, unlit chunk, marked dirty and not yet generated.
    pub fn new(coord: ChunkCoord, size: u32) -> (r: Chunk)
        requires
            cube(size as int) <= u32::MAX,
        ensures
            r.wf(),
            r.side() == size,
            r.coord_of() == coord,
            r.dirty_flag(),
            !r.generated_flag(),
            r.mesh_version_of() == 0,
            forall|i: int| 0 <= i < cube(size as int) ==> #[trigger] r.voxel_seq()[i] == Voxel::air_spec(),
            forall|i: int| 0 <= i < cube(size as int) ==> #[trigger] r.light_seq()[i] == 0,
    {
        assert(size * size <= u32::MAX) by (nonlinear_arith)
            requires
                size * size * size <= u32::MAX,
        {
            if size > 0 {
                assert(size * size <= size * size * size);
            }
        }
        let total = (size * size * size) as usize;
        let mut voxels: Vec<Voxel> = Vec::new();
        let mut light_levels: Vec<u8> = Vec::new();
        let mut i: usize = 0;
        while i < total
            invariant
                i <= total,
                voxels.len() == i,
                light_levels.len() == i,
                forall|k: int| 0 <= k < i ==> #[trigger] voxels@[k] == Voxel::air_spec(),
                forall|k: int| 0 <= k < i ==> #[trigger] light_levels@[k] == 0,
            decreases total - i,
        {
            voxels.push(Voxel::air());
            light_levels.push(0);
            i = i + 1;
        }
        Chunk {
            coord,
            voxels,
            light_levels,
            size,
            dirty: true,
            generated: false,
            mesh_version: 0,
        }
    }

    /// Storage position of an in-bounds cell.
    fn index(&self, x: u32, y: u32, z: u32) -> (r: usize)
        requires
            self.wf(),
            in_bounds(self.side(), x as int, y as int, z as int),
        ensures
            r == cell_index(self.side(), x as int, y as int, z as int),
            r < cube(self.side()),
    {
        proof {
            lemma_cell_index_bounds(self.side(), x as int, y as int, z as int);
        }
        (x + y * self.size + z * self.size * self.size) as usize
    }

    /// The chunk's grid coordinate.
    pub fn chunk_coord(&self) -> (r: ChunkCoord)
        ensures
            r == self.coord_of(),
    {
        self.coord
    }

    /// Re-apply a recorded edit overlay, in order: each edit stores the voxel
    /// of the given type code at the given storage index (`cell_index`
    /// order); indices past the last cell are skipped. A non-empty overlay
    /// flags the chunk for re-meshing.
    pub fn apply_edits(&mut self, edits: &[(u16, u8)])
        requires
            old(self).wf(),
        ensures
            final(self).wf(),
            final(self).voxel_seq() == edits_applied(old(self).voxel_seq(), edits@),
            final(self).light_seq() == old(self).light_seq(),
            final(self).side() == old(self).side(),
            final(self).coord_of() == old(self).coord_of(),
            final(self).dirty_flag() == (old(self).dirty_flag() || edits@.len() > 0),
            final(self).generated_flag() == old(self).generated_flag(),
            final(self).mesh_version_of() == old(self).mesh_version_of(),
    {
        let ghost cells = self.voxels@;
        let mut k: usize = 0;
        while k < edits.len()
            invariant
                k <= edits.len(),
                self.voxels@ == edits_applied(cells, edits@.take(k as int)),
                self.voxels@.len() == cells.len(),
                self.light_levels@ == old(self).light_levels@,
                self.size == old(self).size,
                self.coord == old(self).coord,
                self.dirty == old(self).dirty,
                self.generated == old(self).generated,
                self.mesh_version == old(self).mesh_version,
                cells == old(self).voxels@,
            decreases edits.len() - k,
        {
            let (index, code) = edits[k];
            proof {
                assert(edits@.take(k as int + 1).drop_last() =~= edits@.take(k as int));
                lemma_edits_applied_len(cells, edits@.take(k as int));
            }
            let i = index as usize;
            if i < self.voxels.len() {
                self.voxels.set(i, Voxel::new(VoxelType::from_u8(code)));
            }
            k = k + 1;
        }
        proof {
            assert(edits@.take(edits@.len() as int) =~= edits@);
        }
        if edits.len() > 0 {
            self.dirty = true;
        }
    }

    /// Flag the chunk for re-meshing, changing nothing else.
    pub fn mark_dirty(&mut self)
        ensures
            final(self).dirty_flag(),
            final(self).voxel_seq() == old(self).voxel_seq(),
            final(self).light_seq() == old(self).light_seq(),
            final(self).side() == old(self).side(),
            final(self).coord_of() == old(self).coord_of(),
            final(self).generated_flag() == old(self).generated_flag(),
            final(self).mesh_version_of() == old(self).mesh_version_of(),
    {
        self.dirty = true;
    }

    /// Side length in voxels.
    pub fn size(&self) -> (r: u32)
        ensures
            r == self.side(),
    {
        self.size
    }

    /// The voxel at (x, y, z); air for coordinates outside the chunk.
    pub fn get_voxel(&self, x: u32, y: u32, z: u32) -> (r: Voxel)
        requires
            self.wf(),
        ensures
            r == self.voxel_at(x as int, y as int, z as int),
    {
        if x >= self.size || y >= self.size || z >= self.size {
            return Voxel::air();
        }
        self.voxels[self.index(x, y, z)]
    }

    /// Store a voxel and mark the chunk dirty; a no-op outside the chunk.
    pub fn set_voxel(&mut self, x: u32, y: u32, z: u32, voxel: Voxel)
        requires
            old(self).wf(),
        ensures
            final(self).wf(),
            voxel_set(*old(self), *final(self), x as int, y as int, z as int, voxel),
            forall|a: int, b: int, c: int|
                #[trigger] final(self).voxel_at(a, b, c) == if a == x && b == y && c == z
                    && in_bounds(old(self).side(), a, b, c) {
                    voxel
                } else {
                    old(self).voxel_at(a, b, c)
                },
    {
        if x >= self.size || y >= self.size || z >= self.size {
            return;
        }
        let idx = self.index(x, y, z);
        self.voxels.set(idx, voxel);
        self.dirty = true;
        proof {
            let s = self.side();
            assert forall|a: int, b: int, c: int|
                #[trigger] self.voxel_at(a, b, c) == if a == x && b == y && c == z && in_bounds(
                    s,
                    a,
                    b,
                    c,
                ) {
                    voxel
                } else {
                    old(self).voxel_at(a, b, c)
                } by {
                if in_bounds(s, a, b, c) {
                    lemma_cell_index_bounds(s, a, b, c);
                    if cell_index(s, a, b, c) == idx {
                        lemma_cell_index_injective(s, a, b, c, x as int, y as int, z as int);
                    }
                }
            }
        }
    }

    /// (sunlight, block light) at (x, y, z); (15, 0) outside the chunk.
    pub fn get_light(&self, x: u32, y: u32, z: u32) -> (r: (u8, u8))
        requires
            self.wf(),
        ensures
            r == (self.sun_at(x as int, y as int, z as int), self.block_light_at(
                x as int,
                y as int,
                z as int,
            )),
    {
        if x >= self.size || y >= self.size || z >= self.size {
            return (15, 0);
        }
        let idx = self.index(x, y, z);
        let packed = self.light_levels[idx];
        let sun = (packed >> 4) & 0x0F;
        let block = packed & 0x0F;
        assert(sun == packed / 16 && block == packed % 16) by (bit_vector)
            requires
                sun == (packed >> 4) & 0x0F,
                block == packed & 0x0F,
        ;
        (sun, block)
    }

    /// Store both light levels (each masked to 4 bits) at (x, y, z);
    /// a no-op outside the chunk.
    pub fn set_light(&mut self, x: u32, y: u32, z: u32, sun: u8, block: u8)
        requires
            old(self).wf(),
        ensures
            final(self).wf(),
            final(self).voxel_seq() == old(self).voxel_seq(),
            final(self).side() == old(self).side(),
            final(self).coord_of() == old(self).coord_of(),
            final(self).dirty_flag() == old(self).dirty_flag(),
            final(self).generated_flag() == old(self).generated_flag(),
            final(self).mesh_version_of() == old(self).mesh_version_of(),
            final(self).light_seq() == if in_bounds(old(self).side(), x as int, y as int, z as int) {
                old(self).light_seq().update(
                    cell_index(old(self).side(), x as int, y as int, z as int),
                    pack_light(sun, block),
                )
            } else {
                old(self).light_seq()
            },
            forall|a: int, b: int, c: int|
                #![trigger final(self).sun_at(a, b, c)]
                #![trigger final(self).block_light_at(a, b, c)]
                if a == x && b == y && c == z && in_bounds(old(self).side(), a, b, c) {
                    final(self).sun_at(a, b, c) == sun % 16 && final(self).block_light_at(a, b, c)
                        == block % 16
                } else {
                    final(self).sun_at(a, b, c) == old(self).sun_at(a, b, c)
                        && final(self).block_light_at(a, b, c) == old(self).block_light_at(a, b, c)
                },
    {
        if x >= self.size || y >= self.size || z >= self.size {
            return;
        }
        let idx = self.index(x, y, z);
        let packed = ((sun & 0x0F) << 4) | (block & 0x0F);
        assert(packed == (sun % 16) * 16 + block % 16) by (bit_vector)
            requires
                packed == ((sun & 0x0F) << 4) | (block & 0x0F),
        ;
        self.light_levels.set(idx, packed);
        proof {
            let s = self.side();
            lemma_pack_unpack(sun, block);
            assert forall|a: int, b: int, c: int|
                #![trigger self.sun_at(a, b, c)]
                #![trigger self.block_light_at(a, b, c)]
                if a == x && b == y && c == z && in_bounds(s, a, b, c) {
                    self.sun_at(a, b, c) == sun % 16 && self.block_light_at(a, b, c) == block % 16
                } else {
                    self.sun_at(a, b, c) == old(self).sun_at(a, b, c) && self.block_light_at(a, b, c)
                        == old(self).block_light_at(a, b, c)
                } by {
                if in_bounds(s, a, b, c) {
                    lemma_cell_index_bounds(s, a, b, c);
                    if cell_index(s, a, b, c) == idx {
                        lemma_cell_index_injective(s, a, b, c, x as int, y as int, z as int);
                    }
                }
            }
        }
    }

    /// Reset every light level to zero.
    pub fn clear_light(&mut self)
        requires
            old(self).wf(),
        ensures
            final(self).wf(),
            final(self).voxel_seq() == old(self).voxel_seq(),
            final(self).side() == old(self).side(),
            final(self).coord_of() == old(self).coord_of(),
            final(self).dirty_flag() == old(self).dirty_flag(),
            final(self).generated_flag() == old(self).generated_flag(),
            final(self).mesh_version_of() == old(self).mesh_version_of(),
            forall|i: int| 0 <= i < cube(final(self).side()) ==> #[trigger] final(self).light_seq()[i] == 0,
            forall|a: int, b: int, c: int|
                in_bounds(final(self).side(), a, b, c) ==> #[trigger] final(self).sun_at(a, b, c) == 0,
            forall|a: int, b: int, c: int|
                in_bounds(final(self).side(), a, b, c) ==> #[trigger] final(self).block_light_at(a, b, c)
                    == 0,
    {
        let n = self.light_levels.len();
        let mut i: usize = 0;
        while i < n
            invariant
                i <= n,
                n == self.light_levels.len(),
                self.light_levels.len() == old(self).light_levels.len(),
                self.voxels == old(self).voxels,
                self.size == old(self).size,
                self.coord == old(self).coord_of(),
                self.dirty == old(self).dirty_flag(),
                self.generated == old(self).generated_flag(),
                self.mesh_version == old(self).mesh_version_of(),
                forall|k: int| 0 <= k < i ==> #[trigger] self.light_levels@[k] == 0,
            decreases n - i,
        {
            self.light_levels.set(i, 0);
            i = i + 1;
        }
        proof {
            assert forall|a: int, b: int, c: int| in_bounds(self.side(), a, b, c) implies #[trigger] self.sun_at(
                a,
                b,
                c,
            ) == 0 by {
                lemma_cell_index_bounds(self.side(), a, b, c);
            }
            assert forall|a: int, b: int, c: int| in_bounds(self.side(), a, b, c) implies #[trigger] self.block_light_at(
                a,
                b,
                c,
            ) == 0 by {
                lemma_cell_index_bounds(self.side(), a, b, c);
            }
        }
    }

    /// Whether every voxel is air.
    pub fn is_empty(&self) -> (r: bool)
        requires
            self.wf(),
        ensures
            r == forall|a: int, b: int, c: int|
                in_bounds(self.side(), a, b, c) ==> (#[trigger] self.voxel_at(a, b, c)).voxel_type
                    == VoxelType::Air,
    {
        let n = self.voxels.len();
        let mut i: usize = 0;
        while i < n
            invariant
                i <= n,
                self.wf(),
                n == self.voxels.len(),
                forall|k: int| 0 <= k < i ==> (#[trigger] self.voxels@[k]).voxel_type == VoxelType::Air,
            decreases n - i,
        {
            if !self.voxels[i].is_air() {
                proof {
                    let s = self.side();
                    lemma_cell_of_index(s, i as int);
                    let a = (i as int) % s;
                    let b = ((i as int) / s) % s;
                    let c = (i as int) / (s * s);
                    assert(self.voxel_at(a, b, c).voxel_type != VoxelType::Air);
                }
                return false;
            }
            i = i + 1;
        }
        proof {
            assert forall|a: int, b: int, c: int| in_bounds(self.side(), a, b, c) implies (
            #[trigger] self.voxel_at(a, b, c)).voxel_type == VoxelType::Air by {
                lemma_cell_index_bounds(self.side(), a, b, c);
            }
        }
        true
    }
}

/// A chunk whose cell positions fit a `u32` is at most 1625 voxels wide.
pub proof fn lemma_side_small(s: int)
    requires
        0 <= s,
        cube(s) <= u32::MAX,
    ensures
        s <= 1625,
{
    if s > 1625 {
        assert(cube(s) >= 1626 * 1626 * 1626) by (nonlinear_arith)
            requires
                s >= 1626,
        ;
    }
}

/// A light sample that leaves the chunk on a side whose neighbour is not
/// loaded sees the same full light whichever of the six sides it leaves by.
pub proof fn lemma_unloaded_neighbor_light_symmetric(c: Chunk, x: int, y: int, z: int, nb: Seq<Option<&Chunk>>)
    requires
        nb.len() == 6,
        !in_bounds(c.side(), x, y, z),
        nb[sample_side(c.side(), x, y, z)] is None,
    ensures
        spec_sample_light(c, x, y, z, nb) == UNLOADED_NEIGHBOR_LIGHT,
{
}

/// `l` is the brighter of the two light channels of chunk `n` at (x, y, z).
pub open spec fn brighter_channel_of(l: u8, n: Chunk, x: int, y: int, z: int) -> bool {
    &&& l >= n.sun_at(x, y, z)
    &&& l >= n.block_light_at(x, y, z)
    &&& (l == n.sun_at(x, y, z) || l == n.block_light_at(x, y, z))
}

/// A light sample reads the cell at that world position: inside the chunk
/// its own cell; one step past a face, the cell of the loaded neighbour on
/// that side that touches the shared face, i.e. the same position shifted
/// by one chunk side into the neighbour's coordinates.
pub proof fn lemma_sample_reads_world_adjacent_cell(c: Chunk, x: int, y: int, z: int, nb: Seq<Option<&Chunk>>)
    requires
        nb.len() == 6,
        c.side() > 0,
    ensures
        ({
            let s = c.side();
            let inside = |v: int| 0 <= v < s;
            let l = spec_sample_light(c, x, y, z, nb);
            &&& in_bounds(s, x, y, z) ==> brighter_channel_of(l, c, x, y, z)
            &&& (x == s && inside(y) && inside(z) && (nb[0] matches Some(n) && n.side() == s))
                ==> brighter_channel_of(l, *nb[0]->0, x - s, y, z)
            &&& (x == -1 && inside(y) && inside(z) && (nb[1] matches Some(n) && n.side() == s))
                ==> brighter_channel_of(l, *nb[1]->0, x + s, y, z)
            &&& (y == s && inside(x) && inside(z) && (nb[2] matches Some(n) && n.side() == s))
                ==> brighter_channel_of(l, *nb[2]->0, x, y - s, z)
            &&& (y == -1 && inside(x) && inside(z) && (nb[3] matches Some(n) && n.side() == s))
                ==> brighter_channel_of(l, *nb[3]->0, x, y + s, z)
            &&& (z == s && inside(x) && inside(y) && (nb[4] matches Some(n) && n.side() == s))
                ==> brighter_channel_of(l, *nb[4]->0, x, y, z - s)
            &&& (z == -1 && inside(x) && inside(y) && (nb[5] matches Some(n) && n.side() == s))
                ==> brighter_channel_of(l, *nb[5]->0, x, y, z + s)
        }),
{
}

/// Whether the cell at in-face position (a, b) of face `face_index` is opaque.
pub open spec fn face_cell_opaque(c: Chunk, face_index: int, a: int, b: int) -> bool {
    let (x, y, z) = face_cell(face_index, c.side(), a, b);
    !c.voxel_at(x, y, z).voxel_type.spec_is_transparent()
}

/// Which neighbour (0=+X, 1=-X, 2=+Y, 3=-Y, 4=+Z, 5=-Z) a sample at
/// (x, y, z) falls into for a chunk of side `s`, in the order the sides are
/// checked; -1 inside the chunk.
pub open spec fn sample_side(s: int, x: int, y: int, z: int) -> int {
    if in_bounds(s, x, y, z) {
        -1
    } else if x >= s {
        0
    } else if x < 0 {
        1
    } else if y >= s {
        2
    } else if y < 0 {
        3
    } else if z >= s {
        4
    } else {
        5
    }
}

/// `v` clamped into `[lo, hi]`.
fn clamp_i32(v: i32, lo: i32, hi: i32) -> (r: i32)
    requires
        lo <= hi,
    ensures
        r == clamp_int(v as int, lo as int, hi as int),
        lo <= r <= hi,
{
    if v < lo {
        lo
    } else if v > hi {
        hi
    } else {
        v
    }
}

/// The brighter of a (sunlight, block light) pair.
fn brighter(l: (u8, u8)) -> (r: u8)
    ensures
        r == if l.0 >= l.1 { l.0 } else { l.1 },
{
    if l.0 >= l.1 {
        l.0
    } else {
        l.1
    }
}

/// Every light sample is a 4-bit level.
pub proof fn lemma_sample_light_bound(c: Chunk, x: int, y: int, z: int, nb: Seq<Option<&Chunk>>)
    requires
        nb.len() == 6,
    ensures
        spec_sample_light(c, x, y, z, nb) <= 15,
{
    assert forall|p: u8| #[trigger] unpack_sun(p) <= 15 && unpack_block(p) <= 15 by {}
}

impl Chunk {
    /// Whether face `face_index` (0=+X, 1=-X, 2=+Y, 3=-Y, 4=+Z, 5=-Z) is
    /// covered entirely by opaque voxels; false for any other index.
    pub fn is_face_solid(&self, face_index: usize) -> (r: bool)
        requires
            self.wf(),
        ensures
            r == (face_index < 6 && forall|a: int, b: int|
                0 <= a < self.side() && 0 <= b < self.side() ==> #[trigger] face_cell_opaque(
                    *self,
                    face_index as int,
                    a,
                    b,
                )),
    {
        if face_index >= 6 {
            return false;
        }
        let s = self.size;
        let mut b: u32 = 0;
        while b < s
            invariant
                self.wf(),
                s == self.side(),
                face_index < 6,
                b <= s,
                forall|a2: int, b2: int|
                    0 <= a2 < s && 0 <= b2 < b ==> #[trigger] face_cell_opaque(*self, face_index as int, a2, b2),
            decreases s - b,
        {
            let mut a: u32 = 0;
            while a < s
                invariant
                    self.wf(),
                    s == self.side(),
                    face_index < 6,
                    a <= s,
                    b < s,
                    forall|a2: int, b2: int|
                        0 <= a2 < s && 0 <= b2 < b ==> #[trigger] face_cell_opaque(*self, face_index as int, a2, b2),
                    forall|a2: int| 0 <= a2 < a ==> #[trigger] face_cell_opaque(*self, face_index as int, a2, b as int),
                decreases s - a,
            {
                let last = s - 1;
                let (x, y, z) = match face_index {
                    0 => (last, a, b),
                    1 => (0, a, b),
                    2 => (a, last, b),
                    3 => (a, 0, b),
                    4 => (a, b, last),
                    _ => (a, b, 0),
                };
                if self.get_voxel(x, y, z).voxel_type.is_transparent() {
                    assert(!face_cell_opaque(*self, face_index as int, a as int, b as int));
                    return false;
                }
                a = a + 1;
            }
            b = b + 1;
        }
        true
    }

    /// Offsets of the edge and corner light samples for each corner of `face`.
    fn get_corner_offsets(&self, face: Face) -> (r: [([i32; 2], [i32; 2], [i32; 2]); 4])
        ensures
            forall|i: int| 0 <= i < 4 ==> offsets_agree(#[trigger] r@[i], corner_offset(face, i)),
    {
        match face {
            Face::PosX | Face::NegX => [
                ([0i32, -1i32], [0i32, 0i32], [0i32, -1i32]),
                ([0i32, 1i32], [0i32, 0i32], [0i32, -1i32]),
                ([0i32, 1i32], [0i32, 0i32], [0i32, 1i32]),
                ([0i32, -1i32], [0i32, 0i32], [0i32, 1i32]),
            ],
            Face::PosY | Face::NegY => [
                ([-1i32, 0i32], [0i32, 0i32], [0i32, -1i32]),
                ([-1i32, 0i32], [0i32, 0i32], [0i32, 1i32]),
                ([1i32, 0i32], [0i32, 0i32], [0i32, 1i32]),
                ([1i32, 0i32], [0i32, 0i32], [0i32, -1i32]),
            ],
            Face::PosZ | Face::NegZ => [
                ([1i32, 0i32], [0i32, -1i32], [0i32, 0i32]),
                ([1i32, 0i32], [0i32, 1i32], [0i32, 0i32]),
                ([-1i32, 0i32], [0i32, 1i32], [0i32, 0i32]),
                ([-1i32, 0i32], [0i32, -1i32], [0i32, 0i32]),
            ],
        }
    }

    /// Light level seen at (x, y, z), which may lie just outside this chunk:
    /// the brighter channel inside; across a side, the nearest edge cell of
    /// that side's neighbour, or full light when it is not loaded.
    pub fn sample_light_at(&self, x: i32, y: i32, z: i32, neighbors: &[Option<&Chunk>; 6]) -> (r: u8)
        requires
            self.wf(),
            neighbors_wf(neighbors@),
            self.side() > 0 || neighbors@[sample_side(self.side(), x as int, y as int, z as int)] is None,
        ensures
            r == spec_sample_light(*self, x as int, y as int, z as int, neighbors@),
            r <= 15,
    {
        proof {
            lemma_sample_light_bound(*self, x as int, y as int, z as int, neighbors@);
            lemma_side_small(self.side());
        }
        let size = self.size as i32;
        if x >= 0 && x < size && y >= 0 && y < size && z >= 0 && z < size {
            return brighter(self.get_light(x as u32, y as u32, z as u32));
        }
        if x >= size {
            if let Some(n) = neighbors[0] {
                assert(neighbors@[0] matches Some(m) ==> m.wf());
                let l = n.get_light(0, clamp_i32(y, 0, size - 1) as u32, clamp_i32(z, 0, size - 1) as u32);
                return brighter(l);
            }
            return UNLOADED_NEIGHBOR_LIGHT;
        }
        if x < 0 {
            if let Some(n) = neighbors[1] {
                assert(neighbors@[1] matches Some(m) ==> m.wf());
                let l = n.get_light(self.size - 1, clamp_i32(y, 0, size - 1) as u32, clamp_i32(z, 0, size - 1) as u32);
                return brighter(l);
            }
            return UNLOADED_NEIGHBOR_LIGHT;
        }
        if y >= size {
            if let Some(n) = neighbors[2] {
                assert(neighbors@[2] matches Some(m) ==> m.wf());
                let l = n.get_light(clamp_i32(x, 0, size - 1) as u32, 0, clamp_i32(z, 0, size - 1) as u32);
                return brighter(l);
            }
            return UNLOADED_NEIGHBOR_LIGHT;
        }
        if y < 0 {
            if let Some(n) = neighbors[3] {
                assert(neighbors@[3] matches Some(m) ==> m.wf());
                let l = n.get_light(clamp_i32(x, 0, size - 1) as u32, self.size - 1, clamp_i32(z, 0, size - 1) as u32);
                return brighter(l);
            }
            return UNLOADED_NEIGHBOR_LIGHT;
        }
        if z >= size {
            if let Some(n) = neighbors[4] {
                assert(neighbors@[4] matches Some(m) ==> m.wf());
                let l = n.get_light(clamp_i32(x, 0, size - 1) as u32, clamp_i32(y, 0, size - 1) as u32, 0);
                return brighter(l);
            }
            return UNLOADED_NEIGHBOR_LIGHT;
        }
        if let Some(n) = neighbors[5] {
            assert(neighbors@[5] matches Some(m) ==> m.wf());
            let l = n.get_light(clamp_i32(x, 0, size - 1) as u32, clamp_i32(y, 0, size - 1) as u32, self.size - 1);
            return brighter(l);
        }
        UNLOADED_NEIGHBOR_LIGHT
    }
}

/// Whether LOD super-voxel (bx, by, bz) of a loaded neighbour is fully
/// opaque; an unloaded neighbour never is.
pub open spec fn lod_neighbor_solid(n: Option<&Chunk>, bx: int, by: int, bz: int, step: int) -> bool {
    match n {
        Some(c) => spec_lod_full_solid(*c, bx, by, bz, step),
        None => false,
    }
}

/// Whether the LOD super-voxel at block coordinates (bx, by, bz), which may
/// lie one block outside the chunk, is fully opaque: inside, this chunk's
/// cell; across a side (checked +X, -X, +Y, -Y, +Z, -Z), the nearest edge
/// block of that neighbour, other coordinates clamped into range.
pub open spec fn spec_lod_solid_at(c: Chunk, bx: int, by: int, bz: int, step: int, nb: Seq<Option<&Chunk>>) -> bool {
    let blocks = c.side() / step;
    let last = blocks - 1;
    if 0 <= bx < blocks && 0 <= by < blocks && 0 <= bz < blocks {
        spec_lod_full_solid(c, bx, by, bz, step)
    } else if bx >= blocks {
        lod_neighbor_solid(nb[0], 0, clamp_int(by, 0, last), clamp_int(bz, 0, last), step)
    } else if bx < 0 {
        lod_neighbor_solid(nb[1], last, clamp_int(by, 0, last), clamp_int(bz, 0, last), step)
    } else if by >= blocks {
        lod_neighbor_solid(nb[2], clamp_int(bx, 0, last), 0, clamp_int(bz, 0, last), step)
    } else if by < 0 {
        lod_neighbor_solid(nb[3], clamp_int(bx, 0, last), last, clamp_int(bz, 0, last), step)
    } else if bz >= blocks {
        lod_neighbor_solid(nb[4], clamp_int(bx, 0, last), clamp_int(by, 0, last), 0, step)
    } else {
        lod_neighbor_solid(nb[5], clamp_int(bx, 0, last), clamp_int(by, 0, last), last, step)
    }
}

/// Block coordinates up to `last` of a chunk of side `s` split into blocks of
/// edge `step` stay inside the chunk.
proof fn lemma_lod_block_fits(s: int, step: int, b: int)
    requires
        step > 0,
        0 <= s <= 1625,
        0 <= b < s / step,
    ensures
        b * step + step - 1 < s,
{
    assert((s / step) * step <= s) by (nonlinear_arith)
        requires
            step > 0,
            s >= 0,
    ;
    assert(b * step + step <= (s / step) * step) by (nonlinear_arith)
        requires
            b + 1 <= s / step,
            step > 0,
    ;
}

impl Chunk {
    /// Light totals (0..=60) of the four corners of `face` of the voxel at
    /// (x, y, z): each adds the samples at the adjacent cell, its two edge
    /// cells and its corner cell.
    pub fn face_light_sums(&self, x: u32, y: u32, z: u32, face: Face, neighbors: &[Option<&Chunk>; 6]) -> (r: [u8; 4])
        requires
            self.wf(),
            neighbors_wf(neighbors@),
            in_bounds(self.side(), x as int, y as int, z as int),
        ensures
            forall|i: int| 0 <= i < 4 ==> r@[i] == #[trigger] corner_light_total(*self, x as int, y as int, z as int, face, neighbors@, i),
    {
        proof {
            lemma_side_small(self.side());
        }
        let (ax, ay, az): (i32, i32, i32) = match face {
            Face::PosX => (x as i32 + 1, y as i32, z as i32),
            Face::NegX => (x as i32 - 1, y as i32, z as i32),
            Face::PosY => (x as i32, y as i32 + 1, z as i32),
            Face::NegY => (x as i32, y as i32 - 1, z as i32),
            Face::PosZ => (x as i32, y as i32, z as i32 + 1),
            Face::NegZ => (x as i32, y as i32, z as i32 - 1),
        };
        let base = self.sample_light_at(ax, ay, az, neighbors);
        let offsets = self.get_corner_offsets(face);
        let t0 = self.corner_sum(ax, ay, az, base, offsets[0], neighbors);
        let t1 = self.corner_sum(ax, ay, az, base, offsets[1], neighbors);
        let t2 = self.corner_sum(ax, ay, az, base, offsets[2], neighbors);
        let t3 = self.corner_sum(ax, ay, az, base, offsets[3], neighbors);
        let r = [t0, t1, t2, t3];
        proof {
            assert(offsets_agree(offsets@[0], corner_offset(face, 0)));
            assert(offsets_agree(offsets@[1], corner_offset(face, 1)));
            assert(offsets_agree(offsets@[2], corner_offset(face, 2)));
            assert(offsets_agree(offsets@[3], corner_offset(face, 3)));
            assert forall|i: int| 0 <= i < 4 implies r@[i] == #[trigger] corner_light_total(
                *self,
                x as int,
                y as int,
                z as int,
                face,
                neighbors@,
                i,
            ) by {
                if i == 0 {
                } else if i == 1 {
                } else if i == 2 {
                } else {
                }
            }
        }
        r
    }

    /// `base` plus the edge and corner samples given by one corner's offsets
    /// around the adjacent cell (ax, ay, az).
    fn corner_sum(&self, ax: i32, ay: i32, az: i32, base: u8, o: ([i32; 2], [i32; 2], [i32; 2]), neighbors: &[Option<&Chunk>; 6]) -> (r: u8)
        requires
            self.wf(),
            self.side() > 0,
            neighbors_wf(neighbors@),
            base <= 15,
            -2 <= ax <= 1626,
            -2 <= ay <= 1626,
            -2 <= az <= 1626,
            forall|k: int| 0 <= k < 2 ==> -1 <= #[trigger] o.0@[k] <= 1 && -1 <= o.1@[k] <= 1 && -1 <= o.2@[k] <= 1,
        ensures
            r == base + spec_sample_light(*self, ax + o.0@[0], ay + o.1@[0], az + o.2@[0], neighbors@)
                + spec_sample_light(*self, ax + o.0@[1], ay + o.1@[1], az + o.2@[1], neighbors@)
                + spec_sample_light(
                *self,
                ax + o.0@[0] + o.0@[1],
                ay + o.1@[0] + o.1@[1],
                az + o.2@[0] + o.2@[1],
                neighbors@,
            ),
    {
        assert(-1 <= o.0@[0] <= 1 && -1 <= o.1@[0] <= 1 && -1 <= o.2@[0] <= 1);
        assert(-1 <= o.0@[1] <= 1 && -1 <= o.1@[1] <= 1 && -1 <= o.2@[1] <= 1);
        let edge1 = self.sample_light_at(ax + o.0[0], ay + o.1[0], az + o.2[0], neighbors);
        let edge2 = self.sample_light_at(ax + o.0[1], ay + o.1[1], az + o.2[1], neighbors);
        let corner = self.sample_light_at(ax + o.0[0] + o.0[1], ay + o.1[0] + o.1[1], az + o.2[0] + o.2[1], neighbors);
        base + edge1 + edge2 + corner
    }

    /// Whether the face of the voxel at (x, y, z) toward `face` is drawn: it
    /// is unless the voxel across it occludes it; at a chunk side with no
    /// loaded neighbour it is always drawn.
    pub fn is_face_visible(&self, x: u32, y: u32, z: u32, face: Face, size: u32, neighbors: &[Option<&Chunk>; 6]) -> (r: bool)
        requires
            self.wf(),
            neighbors_wf(neighbors@),
            size > 0,
            x < u32::MAX,
            y < u32::MAX,
            z < u32::MAX,
        ensures
            r == spec_face_visible(*self, x, y, z, face, size, neighbors@),
    {
        let current = self.get_voxel(x, y, z).voxel_type;
        let neighbor_type: Option<VoxelType> = match face {
            Face::PosX => if x == size - 1 {
                match neighbors[0] {
                    Some(n) => {
                        assert(neighbors@[0] matches Some(m) ==> m.wf());
                        Some(n.get_voxel(0, y, z).voxel_type)
                    },
                    None => None,
                }
            } else {
                Some(self.get_voxel(x + 1, y, z).voxel_type)
            },
            Face::NegX => if x == 0 {
                match neighbors[1] {
                    Some(n) => {
                        assert(neighbors@[1] matches Some(m) ==> m.wf());
                        Some(n.get_voxel(size - 1, y, z).voxel_type)
                    },
                    None => None,
                }
            } else {
                Some(self.get_voxel(x - 1, y, z).voxel_type)
            },
            Face::PosY => if y == size - 1 {
                match neighbors[2] {
                    Some(n) => {
                        assert(neighbors@[2] matches Some(m) ==> m.wf());
                        Some(n.get_voxel(x, 0, z).voxel_type)
                    },
                    None => None,
                }
            } else {
                Some(self.get_voxel(x, y + 1, z).voxel_type)
            },
            Face::NegY => if y == 0 {
                match neighbors[3] {
                    Some(n) => {
                        assert(neighbors@[3] matches Some(m) ==> m.wf());
                        Some(n.get_voxel(x, size - 1, z).voxel_type)
                    },
                    None => None,
                }
            } else {
                Some(self.get_voxel(x, y - 1, z).voxel_type)
            },
            Face::PosZ => if z == size - 1 {
                match neighbors[4] {
                    Some(n) => {
                        assert(neighbors@[4] matches Some(m) ==> m.wf());
                        Some(n.get_voxel(x, y, 0).voxel_type)
                    },
                    None => None,
                }
            } else {
                Some(self.get_voxel(x, y, z + 1).voxel_type)
            },
            Face::NegZ => if z == 0 {
                match neighbors[5] {
                    Some(n) => {
                        assert(neighbors@[5] matches Some(m) ==> m.wf());
                        Some(n.get_voxel(x, y, size - 1).voxel_type)
                    },
                    None => None,
                }
            } else {
                Some(self.get_voxel(x, y, z - 1).voxel_type)
            },
        };
        match neighbor_type {
            None => true,
            Some(neighbor) => !occludes(current, neighbor),
        }
    }

    /// The face mask of slice `d` (depth along `face`'s axis), row by row:
    /// entry `u + v * size` holds the type of the voxel at (u, v) of the
    /// slice when it is a cube whose face toward `face` is drawn, and
    /// nothing otherwise. Meshing merges runs of equal entries into quads.
    pub fn face_mask(&self, face: Face, d: u32, neighbors: &[Option<&Chunk>; 6]) -> (r: Vec<Option<VoxelType>>)
        requires
            self.wf(),
            neighbors_wf(neighbors@),
            d < self.side(),
        ensures
            r.len() == self.side() * self.side(),
            forall|u: int, v: int|
                0 <= u < self.side() && 0 <= v < self.side() ==> #[trigger] r@[u + v * self.side()] == mask_cell(
                    *self,
                    face,
                    d,
                    u as u32,
                    v as u32,
                    neighbors@,
                ),
    {
        proof {
            lemma_side_small(self.side());
        }
        let size = self.size;
        let mut mask: Vec<Option<VoxelType>> = Vec::new();
        let mut v: u32 = 0;
        while v < size
            invariant
                self.wf(),
                neighbors_wf(neighbors@),
                size == self.side(),
                size <= 1625,
                d < size,
                v <= size,
                mask.len() == v * size,
                forall|u2: int, v2: int|
                    0 <= u2 < size && 0 <= v2 < v ==> #[trigger] mask@[u2 + v2 * size] == mask_cell(
                        *self,
                        face,
                        d,
                        u2 as u32,
                        v2 as u32,
                        neighbors@,
                    ),
            decreases size - v,
        {
            let mut u: u32 = 0;
            while u < size
                invariant
                    self.wf(),
                    neighbors_wf(neighbors@),
                    size == self.side(),
                    size <= 1625,
                    d < size,
                    v < size,
                    u <= size,
                    mask.len() == v * size + u,
                    forall|u2: int, v2: int|
                        0 <= u2 < size && 0 <= v2 < v ==> #[trigger] mask@[u2 + v2 * size] == mask_cell(
                            *self,
                            face,
                            d,
                            u2 as u32,
                            v2 as u32,
                            neighbors@,
                        ),
                    forall|u2: int| 0 <= u2 < u ==> #[trigger] mask@[u2 + v * size] == mask_cell(
                        *self,
                        face,
                        d,
                        u2 as u32,
                        v as u32,
                        neighbors@,
                    ),
                decreases size - u,
            {
                let (x, y, z) = face.map_coords(d, u, v);
                let vt = self.get_voxel(x, y, z).voxel_type;
                let entry = if vt == VoxelType::Air || is_cross_render(vt) {
                    None
                } else if self.is_face_visible(x, y, z, face, size, neighbors) {
                    Some(vt)
                } else {
                    None
                };
                let ghost before = mask@;
                mask.push(entry);
                proof {
                    assert(v * size + u == u + v * size);
                    assert forall|u2: int, v2: int|
                        0 <= u2 < size && 0 <= v2 < v implies #[trigger] mask@[u2 + v2 * size] == mask_cell(
                            *self,
                            face,
                            d,
                            u2 as u32,
                            v2 as u32,
                            neighbors@,
                        ) by {
                        assert(u2 + v2 * size < v * size) by (nonlinear_arith)
                            requires
                                0 <= u2 < size,
                                0 <= v2 < v,
                        ;
                        assert(mask@[u2 + v2 * size] == before[u2 + v2 * size]);
                    }
                    assert forall|u2: int| 0 <= u2 < u + 1 implies #[trigger] mask@[u2 + v * size] == mask_cell(
                        *self,
                        face,
                        d,
                        u2 as u32,
                        v as u32,
                        neighbors@,
                    ) by {
                        if u2 < u {
                            assert(mask@[u2 + v * size] == before[u2 + v * size]);
                        }
                    }
                }
                u = u + 1;
            }
            proof {
                assert((v + 1) * size == v * size + size) by (nonlinear_arith);
            }
            v = v + 1;
        }
        mask
    }

    /// Whether every voxel of LOD super-voxel (bx, by, bz) of edge `step` is opaque.
    pub fn lod_block_full_solid(&self, bx: u32, by: u32, bz: u32, step: u32) -> (r: bool)
        requires
            self.wf(),
            lod_coords_fit(bx as int, by as int, bz as int, step as int),
        ensures
            r == spec_lod_full_solid(*self, bx as int, by as int, bz as int, step as int),
    {
        let mut dz: u32 = 0;
        while dz < step
            invariant
                self.wf(),
                lod_coords_fit(bx as int, by as int, bz as int, step as int),
                dz <= step,
                forall|a: int, b: int, c: int|
                    in_cell(step as int, a, b, c) && c < dz ==> !(#[trigger] lod_cell(
                        *self,
                        bx as int,
                        by as int,
                        bz as int,
                        step as int,
                        a,
                        b,
                        c,
                    )).spec_is_transparent(),
            decreases step - dz,
        {
            let mut dy: u32 = 0;
            while dy < step
                invariant
                    self.wf(),
                    lod_coords_fit(bx as int, by as int, bz as int, step as int),
                    dz < step,
                    dy <= step,
                    forall|a: int, b: int, c: int|
                        in_cell(step as int, a, b, c) && (c < dz || (c == dz && b < dy)) ==> !(
                        #[trigger] lod_cell(*self, bx as int, by as int, bz as int, step as int, a, b, c)).spec_is_transparent(),
                decreases step - dy,
            {
                let mut dx: u32 = 0;
                while dx < step
                    invariant
                        self.wf(),
                        lod_coords_fit(bx as int, by as int, bz as int, step as int),
                        dz < step,
                        dy < step,
                        dx <= step,
                        forall|a: int, b: int, c: int|
                            in_cell(step as int, a, b, c) && (c < dz || (c == dz && (b < dy || (b == dy
                                && a < dx)))) ==> !(#[trigger] lod_cell(
                                *self,
                                bx as int,
                                by as int,
                                bz as int,
                                step as int,
                                a,
                                b,
                                c,
                            )).spec_is_transparent(),
                    decreases step - dx,
                {
                    assert(bx * step + dx <= u32::MAX && by * step + dy <= u32::MAX && bz * step + dz <= u32::MAX);
                    let v = self.get_voxel(bx * step + dx, by * step + dy, bz * step + dz);
                    if v.voxel_type.is_transparent() {
                        assert(lod_cell(*self, bx as int, by as int, bz as int, step as int, dx as int, dy as int, dz as int) == v.voxel_type);
                        return false;
                    }
                    dx = dx + 1;
                }
                dy = dy + 1;
            }
            dz = dz + 1;
        }
        true
    }
}

/// The first opaque voxel of LOD super-voxel (bx, by, bz) in z, y, x scan
/// order sits at offset (dx, dy, dz).
pub open spec fn lod_first_opaque(c: Chunk, bx: int, by: int, bz: int, step: int, dx: int, dy: int, dz: int) -> bool {
    &&& in_cell(step, dx, dy, dz)
    &&& !lod_cell(c, bx, by, bz, step, dx, dy, dz).spec_is_transparent()
    &&& forall|a: int, b: int, e: int|
        in_cell(step, a, b, e) && scan_before(a, b, e, dx, dy, dz) ==> (#[trigger] lod_cell(
            c,
            bx,
            by,
            bz,
            step,
            a,
            b,
            e,
        )).spec_is_transparent()
}

/// The first non-air voxel of LOD super-voxel (bx, by, bz) in z, y, x scan
/// order sits at offset (dx, dy, dz).
pub open spec fn lod_first_solid(c: Chunk, bx: int, by: int, bz: int, step: int, dx: int, dy: int, dz: int) -> bool {
    &&& in_cell(step, dx, dy, dz)
    &&& lod_cell(c, bx, by, bz, step, dx, dy, dz) != VoxelType::Air
    &&& forall|a: int, b: int, e: int|
        in_cell(step, a, b, e) && scan_before(a, b, e, dx, dy, dz) ==> #[trigger] lod_cell(
            c,
            bx,
            by,
            bz,
            step,
            a,
            b,
            e,
        ) == VoxelType::Air
}

/// The representative type of LOD super-voxel (bx, by, bz): its first opaque
/// voxel in z, y, x scan order when it has one, else its first non-air
/// voxel, else none.
pub open spec fn lod_type_is(c: Chunk, bx: int, by: int, bz: int, step: int, r: Option<VoxelType>) -> bool {
    let any_opaque = exists|dx: int, dy: int, dz: int|
        in_cell(step, dx, dy, dz) && !(#[trigger] lod_cell(c, bx, by, bz, step, dx, dy, dz)).spec_is_transparent();
    match r {
        None => forall|dx: int, dy: int, dz: int|
            in_cell(step, dx, dy, dz) ==> #[trigger] lod_cell(c, bx, by, bz, step, dx, dy, dz) == VoxelType::Air,
        Some(t) => exists|dx: int, dy: int, dz: int|
            #![trigger lod_cell(c, bx, by, bz, step, dx, dy, dz)]
            lod_cell(c, bx, by, bz, step, dx, dy, dz) == t && (if any_opaque {
                lod_first_opaque(c, bx, by, bz, step, dx, dy, dz)
            } else {
                lod_first_solid(c, bx, by, bz, step, dx, dy, dz)
            }),
    }
}

impl Chunk {
    /// The representative voxel type of LOD super-voxel (bx, by, bz) of edge
    /// `step`: the first opaque voxel in z, y, x scan order, else the first
    /// non-air voxel, else `None` when the whole cell is air.
    pub fn lod_block_type(&self, bx: u32, by: u32, bz: u32, step: u32) -> (r: Option<VoxelType>)
        requires
            self.wf(),
            lod_coords_fit(bx as int, by as int, bz as int, step as int),
        ensures
            lod_type_is(*self, bx as int, by as int, bz as int, step as int, r),
    {
        let ghost c = *self;
        let ghost st = step as int;
        let ghost (bxi, byi, bzi) = (bx as int, by as int, bz as int);
        let mut found: Option<VoxelType> = None;
        let ghost mut w: (int, int, int) = (0, 0, 0);
        let mut dz: u32 = 0;
        while dz < step
            invariant
                self.wf(),
                c == *self,
                st == step,
                bxi == bx && byi == by && bzi == bz,
                lod_coords_fit(bx as int, by as int, bz as int, step as int),
                dz <= step,
                forall|a: int, b: int, e: int|
                    in_cell(st, a, b, e) && e < dz ==> (#[trigger] lod_cell(c, bxi, byi, bzi, st, a, b, e)).spec_is_transparent(),
                found is None ==> forall|a: int, b: int, e: int|
                    in_cell(st, a, b, e) && e < dz ==> #[trigger] lod_cell(c, bxi, byi, bzi, st, a, b, e) == VoxelType::Air,
                found matches Some(t) ==> lod_cell(c, bxi, byi, bzi, st, w.0, w.1, w.2) == t
                    && lod_first_solid(c, bxi, byi, bzi, st, w.0, w.1, w.2) && w.2 < dz,
            decreases step - dz,
        {
            let mut dy: u32 = 0;
            while dy < step
                invariant
                    self.wf(),
                    c == *self,
                    st == step,
                    bxi == bx && byi == by && bzi == bz,
                    lod_coords_fit(bx as int, by as int, bz as int, step as int),
                    dz < step,
                    dy <= step,
                    forall|a: int, b: int, e: int|
                        in_cell(st, a, b, e) && scan_before(a, b, e, 0, dy as int, dz as int) ==> (
                        #[trigger] lod_cell(c, bxi, byi, bzi, st, a, b, e)).spec_is_transparent(),
                    found is None ==> forall|a: int, b: int, e: int|
                        in_cell(st, a, b, e) && scan_before(a, b, e, 0, dy as int, dz as int)
                            ==> #[trigger] lod_cell(c, bxi, byi, bzi, st, a, b, e) == VoxelType::Air,
                    found matches Some(t) ==> lod_cell(c, bxi, byi, bzi, st, w.0, w.1, w.2) == t
                        && lod_first_solid(c, bxi, byi, bzi, st, w.0, w.1, w.2) && scan_before(
                        w.0,
                        w.1,
                        w.2,
                        0,
                        dy as int,
                        dz as int,
                    ),
                decreases step - dy,
            {
                let mut dx: u32 = 0;
                while dx < step
                    invariant
                        self.wf(),
                        c == *self,
                        st == step,
                        bxi == bx && byi == by && bzi == bz,
                        lod_coords_fit(bx as int, by as int, bz as int, step as int),
                        dz < step,
                        dy < step,
                        dx <= step,
                        forall|a: int, b: int, e: int|
                            in_cell(st, a, b, e) && scan_before(a, b, e, dx as int, dy as int, dz as int)
                                ==> (#[trigger] lod_cell(c, bxi, byi, bzi, st, a, b, e)).spec_is_transparent(),
                        found is None ==> forall|a: int, b: int, e: int|
                            in_cell(st, a, b, e) && scan_before(a, b, e, dx as int, dy as int, dz as int)
                                ==> #[trigger] lod_cell(c, bxi, byi, bzi, st, a, b, e) == VoxelType::Air,
                        found matches Some(t) ==> lod_cell(c, bxi, byi, bzi, st, w.0, w.1, w.2) == t
                            && lod_first_solid(c, bxi, byi, bzi, st, w.0, w.1, w.2) && scan_before(
                            w.0,
                            w.1,
                            w.2,
                            dx as int,
                            dy as int,
                            dz as int,
                        ),
                    decreases step - dx,
                {
                    assert(bx * step + dx <= u32::MAX && by * step + dy <= u32::MAX && bz * step + dz <= u32::MAX);
                    let v = self.get_voxel(bx * step + dx, by * step + dy, bz * step + dz);
                    assert(lod_cell(c, bxi, byi, bzi, st, dx as int, dy as int, dz as int) == v.voxel_type);
                    if !v.is_air() {
                        if !v.voxel_type.is_transparent() {
                            assert(lod_first_opaque(c, bxi, byi, bzi, st, dx as int, dy as int, dz as int));
                            return Some(v.voxel_type);
                        }
                        if found.is_none() {
                            found = Some(v.voxel_type);
                            proof {
                                w = (dx as int, dy as int, dz as int);
                            }
                        }
                    }
                    dx = dx + 1;
                }
                dy = dy + 1;
            }
            dz = dz + 1;
        }
        proof {
            assert forall|a: int, b: int, e: int|
                in_cell(st, a, b, e) implies (#[trigger] lod_cell(c, bxi, byi, bzi, st, a, b, e)).spec_is_transparent() by {
                assert(e < dz);
            }
            if let Some(t) = found {
                assert(lod_cell(c, bxi, byi, bzi, st, w.0, w.1, w.2) == t);
            } else {
                assert forall|a: int, b: int, e: int|
                    in_cell(st, a, b, e) implies #[trigger] lod_cell(c, bxi, byi, bzi, st, a, b, e) == VoxelType::Air by {
                    assert(e < dz);
                }
            }
        }
        found
    }

    /// Whether the LOD super-voxel at block coordinates (bx, by, bz) is fully
    /// opaque; coordinates one block outside the chunk are looked up in the
    /// neighbour on that side (never solid when it is not loaded).
    pub fn lod_block_solid_at(&self, bx: i32, by: i32, bz: i32, step: u32, neighbors: &[Option<&Chunk>; 6]) -> (r: bool)
        requires
            self.wf(),
            neighbors_wf(neighbors@),
            step > 0,
            self.side() / (step as int) >= 1,
        ensures
            r == spec_lod_solid_at(*self, bx as int, by as int, bz as int, step as int, neighbors@),
    {
        proof {
            lemma_side_small(self.side());
            assert(self.side() / (step as int) <= self.side()) by (nonlinear_arith)
                requires
                    step > 0,
                    self.side() >= 0,
            ;
        }
        let blocks = (self.size / step) as i32;
        let last = blocks - 1;
        proof {
            lemma_lod_block_fits(self.side(), step as int, last as int);
            assert(lod_coords_fit(last as int, last as int, last as int, step as int));
        }
        if bx >= 0 && bx < blocks && by >= 0 && by < blocks && bz >= 0 && bz < blocks {
            proof {
                lemma_lod_block_fits(self.side(), step as int, bx as int);
                lemma_lod_block_fits(self.side(), step as int, by as int);
                lemma_lod_block_fits(self.side(), step as int, bz as int);
            }
            return self.lod_block_full_solid(bx as u32, by as u32, bz as u32, step);
        }
        let (idx, nbx, nby, nbz): (usize, i32, i32, i32) = if bx >= blocks {
            (0, 0, clamp_i32(by, 0, last), clamp_i32(bz, 0, last))
        } else if bx < 0 {
            (1, last, clamp_i32(by, 0, last), clamp_i32(bz, 0, last))
        } else if by >= blocks {
            (2, clamp_i32(bx, 0, last), 0, clamp_i32(bz, 0, last))
        } else if by < 0 {
            (3, clamp_i32(bx, 0, last), last, clamp_i32(bz, 0, last))
        } else if bz >= blocks {
            (4, clamp_i32(bx, 0, last), clamp_i32(by, 0, last), 0)
        } else {
            (5, clamp_i32(bx, 0, last), clamp_i32(by, 0, last), last)
        };
        match neighbors[idx] {
            Some(n) => {
                proof {
                    assert(neighbors@[idx as int] matches Some(m) ==> m.wf());
                    lemma_lod_block_fits(self.side(), step as int, nbx as int);
                    lemma_lod_block_fits(self.side(), step as int, nby as int);
                    lemma_lod_block_fits(self.side(), step as int, nbz as int);
                }
                n.lod_block_full_solid(nbx as u32, nby as u32, nbz as u32, step)
            },
            None => false,
        }
    }
}

/// The neighbour step for one local coordinate on a chunk edge: `lo` at the
/// low edge, `hi` at the high edge, nothing in between.
pub open spec fn edge_step(p: u32, size: u32, lo: (i32, i32, i32), hi: (i32, i32, i32)) -> Seq<(i32, i32, i32)> {
    if p == 0 {
        seq![lo]
    } else if p == size - 1 {
        seq![hi]
    } else {
        Seq::empty()
    }
}

/// The (ring, width, height) steps to the chunks that share a face with the
/// voxel at local (x, y, z): local x runs around the ring, z across its width
/// and y up its height.
pub open spec fn spec_boundary_deltas(x: u32, y: u32, z: u32, size: u32) -> Seq<(i32, i32, i32)> {
    edge_step(x, size, (-1i32, 0i32, 0i32), (1i32, 0i32, 0i32)) + edge_step(z, size, (0i32, -1i32, 0i32), (0i32, 1i32, 0i32)) + edge_step(
        y,
        size,
        (0i32, 0i32, -1i32),
        (0i32, 0i32, 1i32),
    )
}

/// The (d_ring, d_width, d_height) steps to every neighbour chunk whose mesh
/// shows a face of the voxel at local (x, y, z): one per axis on which the
/// voxel touches the chunk's edge (at most three, at a corner).
pub fn boundary_neighbor_deltas(x: u32, y: u32, z: u32, size: u32) -> (r: Vec<(i32, i32, i32)>)
    requires
        size > 0 || (x == 0 && y == 0 && z == 0),
    ensures
        r@ == spec_boundary_deltas(x, y, z, size),
{
    let mut deltas: Vec<(i32, i32, i32)> = Vec::new();
    if x == 0 {
        deltas.push((-1i32, 0i32, 0i32));
    } else if x == size - 1 {
        deltas.push((1i32, 0i32, 0i32));
    }
    let ghost after_x = deltas@;
    if z == 0 {
        deltas.push((0i32, -1i32, 0i32));
    } else if z == size - 1 {
        deltas.push((0i32, 1i32, 0i32));
    }
    let ghost after_z = deltas@;
    if y == 0 {
        deltas.push((0i32, 0i32, -1i32));
    } else if y == size - 1 {
        deltas.push((0i32, 0i32, 1i32));
    }
    proof {
        assert(after_x == edge_step(x, size, (-1i32, 0i32, 0i32), (1i32, 0i32, 0i32)));
        assert(after_z == after_x + edge_step(z, size, (0i32, -1i32, 0i32), (0i32, 1i32, 0i32)));
        assert(deltas@ == after_z + edge_step(y, size, (0i32, 0i32, -1i32), (0i32, 0i32, 1i32)));
    }
    deltas
}

// ---------------------------------------------------------------------
// Loaded chunks
// ---------------------------------------------------------------------

/// The map key of a chunk coordinate: its three indices as 32-bit digits.
pub open spec fn coord_key(c: ChunkCoord) -> u128 {
    (c.ring_index + c.width_index * 0x1_0000_0000int + c.height_index * 0x1_0000_0000_0000_0000int) as u128
}

/// Distinct coordinates have distinct keys.
pub proof fn lemma_coord_key_injective(a: ChunkCoord, b: ChunkCoord)
    ensures
        coord_key(a) == coord_key(b) ==> a == b,
{
    let ka = a.ring_index + a.width_index * 0x1_0000_0000int + a.height_index * 0x1_0000_0000_0000_0000int;
    let kb = b.ring_index + b.width_index * 0x1_0000_0000int + b.height_index * 0x1_0000_0000_0000_0000int;
    assert(0 <= ka < 0x1_0000_0000_0000_0000_0000_0000int);
    assert(0 <= kb < 0x1_0000_0000_0000_0000_0000_0000int);
    if ka == kb {
        assert(a.height_index == b.height_index);
        assert(a.width_index == b.width_index);
    }
}

/// The map key of a chunk coordinate.
pub fn chunk_key(c: &ChunkCoord) -> (r: u128)
    ensures
        r == coord_key(*c),
{
    c.ring_index as u128 + c.width_index as u128 * 0x1_0000_0000 + c.height_index as u128 * 0x1_0000_0000_0000_0000
}

/// The key of the chunk offset from `c` by (dr, dw, dh), if there is one.
pub open spec fn neighbor_key(c: ChunkCoord, dr: int, dw: int, dh: int, grid: ChunkGrid) -> Option<u128> {
    match spec_neighbor(c, dr, dw, dh, grid) {
        Some(n) => Some(coord_key(n)),
        None => None,
    }
}

/// Keys of the neighbours reached by the first `n` of `deltas` from `c`.
pub open spec fn keys_reached(c: ChunkCoord, deltas: Seq<(i32, i32, i32)>, n: int, grid: ChunkGrid) -> Set<u128> {
    Set::new(
        |k: u128|
            exists|i: int|
                0 <= i < n && #[trigger] neighbor_key(c, deltas[i].0 as int, deltas[i].1 as int, deltas[i].2 as int, grid)
                    == Some(k),
    )
}

/// Keys of the loaded neighbours that must be re-meshed after an edit at
/// local (x, y, z) of chunk `c`.
pub open spec fn dirtied_keys(c: ChunkCoord, x: u32, y: u32, z: u32, grid: ChunkGrid) -> Set<u128> {
    let deltas = spec_boundary_deltas(x, y, z, grid.chunk_size);
    keys_reached(c, deltas, deltas.len() as int, grid)
}

/// `b` is `a` flagged for re-meshing, otherwise unchanged.
pub open spec fn same_but_dirty(a: Chunk, b: Chunk) -> bool {
    &&& b.voxel_seq() == a.voxel_seq()
    &&& b.light_seq() == a.light_seq()
    &&& b.side() == a.side()
    &&& b.coord_of() == a.coord_of()
    &&& b.generated_flag() == a.generated_flag()
    &&& b.mesh_version_of() == a.mesh_version_of()
    &&& b.dirty_flag()
}

/// What an edit does to one loaded chunk: the edited chunk gets the voxel
/// (when the position lies inside it); a chunk that is `marked` is flagged
/// for re-meshing; every other chunk is untouched.
pub open spec fn edit_outcome(old_c: Chunk, new_c: Chunk, target: bool, x: int, y: int, z: int, v: Voxel, marked: bool) -> bool {
    if target && in_bounds(old_c.side(), x, y, z) {
        voxel_set(old_c, new_c, x, y, z, v)
    } else if marked {
        same_but_dirty(old_c, new_c)
    } else {
        new_c == old_c
    }
}

/// Whether local (x, y, z) lies inside a chunk of the grid.
pub open spec fn in_chunk_grid(grid: ChunkGrid, x: u32, y: u32, z: u32) -> bool {
    x < grid.chunk_size && y < grid.chunk_size && z < grid.chunk_size
}

/// `new` is the loaded-chunk map `old` after storing `v` at local
/// (x, y, z) of the chunk at `coord`: the same chunks stay loaded, that
/// chunk gets the voxel and the neighbours sharing a face with it are
/// flagged for re-meshing.
pub open spec fn map_edited(
    old: Map<u128, Chunk>,
    new: Map<u128, Chunk>,
    coord: ChunkCoord,
    x: u32,
    y: u32,
    z: u32,
    v: Voxel,
    grid: ChunkGrid,
) -> bool {
    &&& new.dom() == old.dom()
    &&& forall|k: u128|
        #[trigger] old.contains_key(k) ==> edit_outcome(
            old[k],
            new[k],
            k == coord_key(coord),
            x as int,
            y as int,
            z as int,
            v,
            dirtied_keys(coord, x, y, z, grid).contains(k),
        )
}

/// A loaded chunk is well formed, has the grid's chunk size and is stored
/// under its own coordinate's key.
pub open spec fn chunk_fits(c: Chunk, k: u128, grid: ChunkGrid) -> bool {
    &&& c.wf()
    &&& coord_key(c.coord_of()) == k
    &&& c.side() == grid.chunk_size
}

/// Whether offset (dr, dw, dh) lies in the cube of radius `rd` and comes
/// before (a, b, c) in dr, dw, dh order.
pub open spec fn offset_before(rd: int, dr: int, dw: int, dh: int, a: int, b: int, c: int) -> bool {
    &&& -rd <= dr <= rd
    &&& -rd <= dw <= rd
    &&& -rd <= dh <= rd
    &&& (dr < a || (dr == a && (dw < b || (dw == b && dh < c))))
}

/// Keys of the chunks within Chebyshev radius `rd` of `center` whose offsets
/// come before (a, b, c).
pub open spec fn keys_before(center: ChunkCoord, rd: int, grid: ChunkGrid, a: int, b: int, c: int) -> Set<u128> {
    Set::new(
        |k: u128|
            exists|dr: int, dw: int, dh: int|
                offset_before(rd, dr, dw, dh, a, b, c) && #[trigger] neighbor_key(center, dr, dw, dh, grid) == Some(k),
    )
}

/// Keys of every chunk within Chebyshev radius `rd` of `center` (the ring
/// index wrapping, the width and height clipped at the edges).
pub open spec fn wanted_keys(center: ChunkCoord, rd: int, grid: ChunkGrid) -> Set<u128> {
    keys_before(center, rd, grid, rd + 1, -rd, -rd)
}

/// `c` is a freshly created chunk for key `k`: all air, unlit, dirty and
/// not yet generated.
pub open spec fn fresh_chunk(c: Chunk, k: u128, grid: ChunkGrid) -> bool {
    &&& chunk_fits(c, k, grid)
    &&& c.dirty_flag()
    &&& !c.generated_flag()
    &&& c.mesh_version_of() == 0
    &&& forall|i: int| 0 <= i < cube(c.side()) ==> #[trigger] c.voxel_seq()[i] == Voxel::air_spec()
    &&& forall|i: int| 0 <= i < cube(c.side()) ==> #[trigger] c.light_seq()[i] == 0
}

/// Whether stepping up to `rd` chunks from `center` stays within `i32`.
pub open spec fn radius_fits(center: ChunkCoord, rd: int) -> bool {
    &&& 0 <= rd < i32::MAX
    &&& center.ring_index + rd <= i32::MAX
    &&& center.width_index + rd <= i32::MAX
    &&& center.height_index + rd <= i32::MAX
}

/// An edit on a chunk's boundary flags the neighbour across each face the
/// voxel touches (local x runs around the ring, z across it, y up), and an
/// edit strictly inside the chunk flags no neighbour.
pub proof fn lemma_boundary_edit_dirties_neighbors(c: ChunkCoord, x: u32, y: u32, z: u32, grid: ChunkGrid)
    requires
        grid.chunk_size > 0,
    ensures
        x == 0 ==> (neighbor_key(c, -1, 0, 0, grid) matches Some(k) ==> dirtied_keys(c, x, y, z, grid).contains(k)),
        x != 0 && x == grid.chunk_size - 1 ==> (neighbor_key(c, 1, 0, 0, grid) matches Some(k) ==> dirtied_keys(
            c,
            x,
            y,
            z,
            grid,
        ).contains(k)),
        z == 0 ==> (neighbor_key(c, 0, -1, 0, grid) matches Some(k) ==> dirtied_keys(c, x, y, z, grid).contains(k)),
        z != 0 && z == grid.chunk_size - 1 ==> (neighbor_key(c, 0, 1, 0, grid) matches Some(k) ==> dirtied_keys(
            c,
            x,
            y,
            z,
            grid,
        ).contains(k)),
        y == 0 ==> (neighbor_key(c, 0, 0, -1, grid) matches Some(k) ==> dirtied_keys(c, x, y, z, grid).contains(k)),
        y != 0 && y == grid.chunk_size - 1 ==> (neighbor_key(c, 0, 0, 1, grid) matches Some(k) ==> dirtied_keys(
            c,
            x,
            y,
            z,
            grid,
        ).contains(k)),
        (0 < x < grid.chunk_size - 1 && 0 < y < grid.chunk_size - 1 && 0 < z < grid.chunk_size - 1) ==> dirtied_keys(
            c,
            x,
            y,
            z,
            grid,
        ) == Set::<u128>::empty(),
{
    let s = grid.chunk_size;
    let dx = edge_step(x, s, (-1i32, 0i32, 0i32), (1i32, 0i32, 0i32));
    let dz = edge_step(z, s, (0i32, -1i32, 0i32), (0i32, 1i32, 0i32));
    let dy = edge_step(y, s, (0i32, 0i32, -1i32), (0i32, 0i32, 1i32));
    let d = spec_boundary_deltas(x, y, z, s);
    assert(d == dx + dz + dy);
    let dk = dirtied_keys(c, x, y, z, grid);
    if dx.len() == 1 {
        let e = d[0];
        assert(e == dx[0]);
        if let Some(k) = neighbor_key(c, e.0 as int, e.1 as int, e.2 as int, grid) {
            assert(dk.contains(k));
        }
    }
    if dz.len() == 1 {
        let e = d[dx.len() as int];
        assert(e == dz[0]);
        if let Some(k) = neighbor_key(c, e.0 as int, e.1 as int, e.2 as int, grid) {
            assert(dk.contains(k));
        }
    }
    if dy.len() == 1 {
        let e = d[(dx.len() + dz.len()) as int];
        assert(e == dy[0]);
        if let Some(k) = neighbor_key(c, e.0 as int, e.1 as int, e.2 as int, grid) {
            assert(dk.contains(k));
        }
    }
    if 0 < x < s - 1 && 0 < y < s - 1 && 0 < z < s - 1 {
        assert(d.len() == 0);
        assert(dirtied_keys(c, x, y, z, grid) =~= Set::<u128>::empty());
    }
}

/// Chunks farther than this (Chebyshev distance in chunks) from the player
/// are meshed at low detail.
pub const LOD_DISTANCE: u32 = 7;

/// Whether a chunk at `coord` is to be meshed at low detail, seen from `center`.
pub open spec fn wants_lod(coord: ChunkCoord, center: ChunkCoord, grid: ChunkGrid) -> bool {
    spec_chunk_distance(coord, center, grid.chunks_circumference as int) > LOD_DISTANCE
}

/// Keys of the chunks among the first `n` entries of `meshed` (a chunk and
/// whether its current mesh is low detail) whose mesh detail no longer
/// matches their distance from `center`.
pub open spec fn lod_mismatch_keys(meshed: Seq<(ChunkCoord, bool)>, center: ChunkCoord, grid: ChunkGrid, n: int) -> Set<u128> {
    Set::new(
        |k: u128|
            exists|i: int|
                0 <= i < n && #[trigger] coord_key(meshed[i].0) == k && wants_lod(meshed[i].0, center, grid)
                    != meshed[i].1,
    )
}

/// `b` is `a` after its mesh was rebuilt: the dirty flag cleared and the
/// mesh version one higher, everything else kept.
pub open spec fn remeshed(a: Chunk, b: Chunk) -> bool {
    &&& b.voxel_seq() == a.voxel_seq()
    &&& b.light_seq() == a.light_seq()
    &&& b.side() == a.side()
    &&& b.coord_of() == a.coord_of()
    &&& b.generated_flag() == a.generated_flag()
    &&& !b.dirty_flag()
    &&& b.mesh_version_of() == a.mesh_version_of() + 1
}

/// Whether a chunk is due for a new mesh: flagged dirty and already generated.
pub open spec fn needs_remesh(c: Chunk) -> bool {
    c.dirty_flag() && c.generated_flag()
}

/// The set of loaded chunks around the player.
pub struct ChunkManager {
    /// Loaded chunks, keyed by `chunk_key` of their coordinate.
    pub chunks: HashMap<u128, Chunk>,
    grid: ChunkGrid,
    /// Render distance in chunks (Chebyshev radius).
    render_distance: u32,
}

impl ChunkManager {
    /// The loaded chunks by key.
    pub closed spec fn loaded(&self) -> Map<u128, Chunk> {
        self.chunks@
    }

    /// The grid the chunks live on.
    pub closed spec fn grid_of(&self) -> ChunkGrid {
        self.grid
    }

    /// The render distance in chunks.
    pub closed spec fn render_distance_of(&self) -> u32 {
        self.render_distance
    }

    /// Every loaded chunk fits the grid and sits under its own key.
    pub open spec fn wf(&self) -> bool {
        forall|k: u128| #[trigger] self.loaded().contains_key(k) ==> chunk_fits(self.loaded()[k], k, self.grid_of())
    }

    /// A manager with no chunks loaded.
    pub fn new(grid: ChunkGrid, render_distance: u32) -> (r: ChunkManager)
        ensures
            r.wf(),
            r.loaded() == Map::<u128, Chunk>::empty(),
            r.grid_of() == grid,
            r.render_distance_of() == render_distance,
    {
        ChunkManager { chunks: HashMap::new(), grid, render_distance }
    }

    /// The grid the chunks live on.
    pub fn grid(&self) -> (r: &ChunkGrid)
        ensures
            *r == self.grid_of(),
    {
        &self.grid
    }

    /// The render distance in chunks.
    pub fn render_distance(&self) -> (r: u32)
        ensures
            r == self.render_distance_of(),
    {
        self.render_distance
    }

    /// The loaded chunk at `coord`, if any.
    pub fn get_chunk(&self, coord: &ChunkCoord) -> (r: Option<&Chunk>)
        ensures
            match r {
                Some(c) => self.loaded().contains_key(coord_key(*coord)) && *c == self.loaded()[coord_key(*coord)],
                None => !self.loaded().contains_key(coord_key(*coord)),
            },
    {
        self.chunks.get(&chunk_key(coord))
    }

    /// The type of the voxel at local cell (x, y, z) of the loaded chunk at
    /// `coord`; `None` when that chunk is not loaded or the cell lies
    /// outside it.
    pub fn voxel_type_at_cell(&self, coord: &ChunkCoord, x: i32, y: i32, z: i32) -> (r: Option<VoxelType>)
        requires
            self.wf(),
        ensures
            r == if self.loaded().contains_key(coord_key(*coord)) && in_bounds(
                self.loaded()[coord_key(*coord)].side(),
                x as int,
                y as int,
                z as int,
            ) {
                Some(self.loaded()[coord_key(*coord)].voxel_at(x as int, y as int, z as int).voxel_type)
            } else {
                None
            },
    {
        match self.get_chunk(coord) {
            Some(chunk) => {
                let cs = chunk.size();
                if x >= 0 && y >= 0 && z >= 0 && (x as u32) < cs && (y as u32) < cs && (z as u32) < cs {
                    Some(chunk.get_voxel(x as u32, y as u32, z as u32).voxel_type)
                } else {
                    None
                }
            },
            None => None,
        }
    }

    /// Set a voxel at local (x, y, z) of the loaded chunk at `coord`, and flag
    /// for re-meshing every loaded neighbour chunk that shares a face with
    /// that voxel, so their boundary faces follow the edit. Returns whether
    /// the chunk was loaded and the voxel edited; nothing changes otherwise
    /// (a chunk that is not loaded, or a position outside the chunk).
    pub fn set_voxel(&mut self, coord: &ChunkCoord, x: u32, y: u32, z: u32, voxel: Voxel) -> (r: bool)
        requires
            old(self).wf(),
            grid_fits(old(self).grid_of()),
            coord.ring_index < i32::MAX,
            coord.width_index < i32::MAX,
            coord.height_index < i32::MAX,
        ensures
            final(self).wf(),
            final(self).grid_of() == old(self).grid_of(),
            final(self).render_distance_of() == old(self).render_distance_of(),
            r == (old(self).loaded().contains_key(coord_key(*coord)) && in_chunk_grid(
                old(self).grid_of(),
                x,
                y,
                z,
            )),
            !r ==> final(self).loaded() == old(self).loaded(),
            r ==> map_edited(old(self).loaded(), final(self).loaded(), *coord, x, y, z, voxel, old(self).grid_of()),
    {
        let ghost orig = self.loaded();
        let ghost grid = self.grid;
        let ghost rd0 = self.render_distance;
        if x >= self.grid.chunk_size || y >= self.grid.chunk_size || z >= self.grid.chunk_size {
            return false;
        }
        let key = chunk_key(coord);
        match self.chunks.remove(&key) {
            None => {
                assert(self.loaded() =~= orig);
                return false;
            },
            Some(chunk) => {
                let mut chunk = chunk;
                chunk.set_voxel(x, y, z, voxel);
                self.chunks.insert(key, chunk);
            },
        }
        let size = self.grid.chunk_size;
        let deltas = boundary_neighbor_deltas(x, y, z, size);
        proof {
            assert forall|k: u128| #[trigger] orig.contains_key(k) implies edit_outcome(
                orig[k],
                self.loaded()[k],
                k == key,
                x as int,
                y as int,
                z as int,
                voxel,
                keys_reached(*coord, deltas@, 0, grid).contains(k),
            ) by {}
            assert(self.loaded().dom() =~= orig.dom());
        }
        let mut i: usize = 0;
        while i < deltas.len()
            invariant
                i <= deltas.len(),
                deltas@ == spec_boundary_deltas(x, y, z, size),
                size == grid.chunk_size,
                grid == self.grid,
                rd0 == self.render_distance,
                grid_fits(grid),
                coord.ring_index < i32::MAX,
                coord.width_index < i32::MAX,
                coord.height_index < i32::MAX,
                key == coord_key(*coord),
                orig.contains_key(key),
                forall|k: u128| #[trigger] orig.contains_key(k) ==> chunk_fits(orig[k], k, grid),
                self.loaded().dom() == orig.dom(),
                self.wf(),
                forall|k: u128|
                    #[trigger] orig.contains_key(k) ==> edit_outcome(
                        orig[k],
                        self.loaded()[k],
                        k == key,
                        x as int,
                        y as int,
                        z as int,
                        voxel,
                        keys_reached(*coord, deltas@, i as int, grid).contains(k),
                    ),
            decreases deltas.len() - i,
        {
            let (dr, dw, dh) = deltas[i];
            assert(-1 <= dr <= 1 && -1 <= dw <= 1 && -1 <= dh <= 1);
            let ghost before = self.loaded();
            let ghost nk_opt = neighbor_key(*coord, dr as int, dw as int, dh as int, grid);
            match coord.neighbor(dr, dw, dh, &self.grid) {
                Some(n) => {
                    let nk = chunk_key(&n);
                    match self.chunks.remove(&nk) {
                        Some(c) => {
                            let mut c = c;
                            c.mark_dirty();
                            self.chunks.insert(nk, c);
                        },
                        None => {},
                    }
                },
                None => {},
            }
            proof {
                assert forall|k: u128| #[trigger] orig.contains_key(k) implies edit_outcome(
                    orig[k],
                    self.loaded()[k],
                    k == key,
                    x as int,
                    y as int,
                    z as int,
                    voxel,
                    keys_reached(*coord, deltas@, i + 1, grid).contains(k),
                ) by {
                    let reached_now = keys_reached(*coord, deltas@, i + 1, grid).contains(k);
                    let reached_before = keys_reached(*coord, deltas@, i as int, grid).contains(k);
                    if nk_opt == Some(k) {
                        assert(neighbor_key(*coord, deltas@[i as int].0 as int, deltas@[i as int].1 as int, deltas@[i as int].2 as int, grid) == Some(k));
                        assert(reached_now);
                    } else {
                        if reached_now {
                            let j = choose|j: int|
                                0 <= j < i + 1 && #[trigger] neighbor_key(
                                    *coord,
                                    deltas@[j].0 as int,
                                    deltas@[j].1 as int,
                                    deltas@[j].2 as int,
                                    grid,
                                ) == Some(k);
                            assert(j != i);
                            assert(reached_before);
                        }
                        if reached_before {
                            assert(reached_now);
                        }
                        assert(self.loaded()[k] == before[k]);
                    }
                }
                assert(self.loaded().dom() =~= orig.dom());
            }
            i = i + 1;
        }
        true
    }

    /// The coordinates of the loaded chunks due for a new mesh (dirty and
    /// generated), each once, in the map's iteration order.
    pub fn remesh_queue(&self) -> (r: Vec<ChunkCoord>)
        requires
            self.wf(),
        ensures
            r@.no_duplicates(),
            forall|i: int|
                0 <= i < r@.len() ==> self.loaded().contains_key(coord_key(#[trigger] r@[i])) && needs_remesh(
                    self.loaded()[coord_key(r@[i])],
                ) && self.loaded()[coord_key(r@[i])].coord_of() == r@[i],
            forall|k: u128|
                #[trigger] self.loaded().contains_key(k) && needs_remesh(self.loaded()[k]) ==> exists|i: int|
                    0 <= i < r@.len() && coord_key(#[trigger] r@[i]) == k,
    {
        let mut out: Vec<ChunkCoord> = Vec::new();
        let ghost m = self.chunks@;
        for (k, c) in it: self.chunks.iter()
            invariant
                m == self.chunks@,
                self.wf(),
                it.seq().no_duplicates(),
                it.seq().len() == m.dom().len(),
                forall|j: int|
                    #![trigger it.seq()[j]]
                    0 <= j < it.seq().len() ==> m.contains_key(*it.seq()[j].0) && m[*it.seq()[j].0] == *it.seq()[j].1,
                forall|key: u128| #[trigger] m.contains_key(key) ==> it.seq().contains((&key, &m[key])),
                out@.no_duplicates(),
                forall|i: int|
                    0 <= i < out@.len() ==> m.contains_key(coord_key(#[trigger] out@[i])) && needs_remesh(
                        m[coord_key(out@[i])],
                    ) && m[coord_key(out@[i])].coord_of() == out@[i] && exists|j: int|
                        0 <= j < it.index() && *it.seq()[j].0 == coord_key(out@[i]),
                forall|key: u128|
                    #[trigger] m.contains_key(key) && needs_remesh(m[key]) ==> (exists|i: int|
                        0 <= i < out@.len() && coord_key(#[trigger] out@[i]) == key) || (exists|j: int|
                        it.index() <= j < it.seq().len() && *(#[trigger] it.seq()[j]).0 == key),
        {
            let ghost j = it.index();
            let ghost old_out = out@;
            proof {
                assert(*it.seq()[j].0 == *k);
                assert(m.contains_key(*k) && m[*k] == *c);
            }
            if c.dirty && c.generated {
                proof {
                    assert(*it.seq()[j].0 == *k);
                    assert(m.contains_key(*k) && m[*k] == *c);
                    assert(self.loaded().contains_key(*k));
                    assert(chunk_fits(m[*k], *k, self.grid));
                    assert forall|i: int| 0 <= i < out@.len() implies out@[i] != c.coord by {
                        let j2 = choose|j2: int| 0 <= j2 < j && *it.seq()[j2].0 == coord_key(out@[i]);
                        if out@[i] == c.coord {
                            assert(*it.seq()[j2].0 == *k);
                            assert(it.seq()[j2] == it.seq()[j]);
                        }
                    }
                }
                out.push(c.coord);
            }
            proof {
                let n = out@.len();
                assert forall|key: u128|
                    #[trigger] m.contains_key(key) && needs_remesh(m[key]) implies (exists|i: int|
                        0 <= i < out@.len() && coord_key(#[trigger] out@[i]) == key) || (exists|j2: int|
                        j + 1 <= j2 < it.seq().len() && *(#[trigger] it.seq()[j2]).0 == key) by {
                    if !(exists|i: int| 0 <= i < out@.len() && coord_key(#[trigger] out@[i]) == key) {
                        assert(!(exists|i: int| 0 <= i < old_out.len() && coord_key(#[trigger] old_out[i]) == key)) by {
                            if exists|i: int| 0 <= i < old_out.len() && coord_key(#[trigger] old_out[i]) == key {
                                let i = choose|i: int| 0 <= i < old_out.len() && coord_key(#[trigger] old_out[i]) == key;
                                assert(out@[i] == old_out[i]);
                            }
                        }
                        let j2 = choose|j2: int| j <= j2 < it.seq().len() && *(#[trigger] it.seq()[j2]).0 == key;
                        if j2 == j {
                            assert(*k == key);
                            assert(m[*k] == *c);
                            assert(out@[n - 1] == c.coord);
                            assert(self.loaded().contains_key(*k));
                            assert(chunk_fits(m[*k], *k, self.grid));
                        }
                    }
                }
            }
        }
        out
    }

    /// Flag for re-meshing every loaded chunk whose mesh detail no longer
    /// matches its distance from `center`: `meshed` lists chunks with a
    /// mesh and whether that mesh is low detail, and a chunk is wanted at
    /// low detail beyond `LOD_DISTANCE`. Moving away or back only changes
    /// distances, so without this a chunk would keep the detail it was first
    /// meshed at until an edit dirtied it.
    pub fn mark_lod_mismatches(&mut self, meshed: &[(ChunkCoord, bool)], center: &ChunkCoord)
        requires
            old(self).wf(),
            0 < old(self).grid_of().chunks_circumference <= i32::MAX,
            center.ring_index <= i32::MAX,
            center.width_index <= i32::MAX,
            center.height_index <= i32::MAX,
            forall|i: int|
                0 <= i < meshed@.len() ==> (#[trigger] meshed@[i]).0.ring_index <= i32::MAX
                    && meshed@[i].0.width_index <= i32::MAX && meshed@[i].0.height_index <= i32::MAX,
        ensures
            final(self).wf(),
            final(self).grid_of() == old(self).grid_of(),
            final(self).render_distance_of() == old(self).render_distance_of(),
            final(self).loaded().dom() == old(self).loaded().dom(),
            forall|k: u128|
                #[trigger] old(self).loaded().contains_key(k) ==> if lod_mismatch_keys(
                    meshed@,
                    *center,
                    old(self).grid_of(),
                    meshed@.len() as int,
                ).contains(k) {
                    same_but_dirty(old(self).loaded()[k], final(self).loaded()[k])
                } else {
                    final(self).loaded()[k] == old(self).loaded()[k]
                },
    {
        let ghost orig = self.loaded();
        let ghost grid = self.grid;
        let mut i: usize = 0;
        while i < meshed.len()
            invariant
                i <= meshed.len(),
                self.grid == grid,
                self.render_distance == old(self).render_distance,
                orig == old(self).loaded(),
                grid == old(self).grid_of(),
                0 < grid.chunks_circumference <= i32::MAX,
                center.ring_index <= i32::MAX,
                center.width_index <= i32::MAX,
                center.height_index <= i32::MAX,
                forall|j: int|
                    0 <= j < meshed@.len() ==> (#[trigger] meshed@[j]).0.ring_index <= i32::MAX
                        && meshed@[j].0.width_index <= i32::MAX && meshed@[j].0.height_index <= i32::MAX,
                forall|k: u128| #[trigger] orig.contains_key(k) ==> chunk_fits(orig[k], k, grid),
                self.loaded().dom() == orig.dom(),
                self.wf(),
                forall|k: u128|
                    #[trigger] orig.contains_key(k) ==> if lod_mismatch_keys(meshed@, *center, grid, i as int).contains(k) {
                        same_but_dirty(orig[k], self.loaded()[k])
                    } else {
                        self.loaded()[k] == orig[k]
                    },
            decreases meshed.len() - i,
        {
            let (coord, as_lod) = meshed[i];
            assert(meshed@[i as int] == (coord, as_lod));
            let want_lod = chunk_distance_between(&coord, center, &self.grid) > LOD_DISTANCE;
            let ghost before = self.loaded();
            let ghost mismatch = want_lod != as_lod;
            let key = chunk_key(&coord);
            if want_lod != as_lod {
                match self.chunks.remove(&key) {
                    Some(c) => {
                        let mut c = c;
                        c.mark_dirty();
                        self.chunks.insert(key, c);
                    },
                    None => {},
                }
            }
            proof {
                assert forall|k: u128| #[trigger] orig.contains_key(k) implies if lod_mismatch_keys(
                    meshed@,
                    *center,
                    grid,
                    i + 1,
                ).contains(k) {
                    same_but_dirty(orig[k], self.loaded()[k])
                } else {
                    self.loaded()[k] == orig[k]
                } by {
                    let now = lod_mismatch_keys(meshed@, *center, grid, i + 1).contains(k);
                    let was = lod_mismatch_keys(meshed@, *center, grid, i as int).contains(k);
                    if mismatch && k == key {
                        assert(coord_key(meshed@[i as int].0) == k);
                        assert(now);
                    } else {
                        assert(self.loaded()[k] == before[k]);
                        if now {
                            let j = choose|j: int|
                                0 <= j < i + 1 && #[trigger] coord_key(meshed@[j].0) == k && wants_lod(
                                    meshed@[j].0,
                                    *center,
                                    grid,
                                ) != meshed@[j].1;
                            assert(j != i);
                            assert(was);
                        }
                        if was {
                            let j = choose|j: int|
                                0 <= j < i && #[trigger] coord_key(meshed@[j].0) == k && wants_lod(
                                    meshed@[j].0,
                                    *center,
                                    grid,
                                ) != meshed@[j].1;
                            assert(now);
                        }
                    }
                }
                assert(self.loaded().dom() =~= orig.dom());
            }
            i = i + 1;
        }
    }

    /// Record that the chunk at `coord` was just re-meshed: clear its dirty
    /// flag and bump its mesh version. Returns the new version, or `None`
    /// (changing nothing) when the chunk is not loaded.
    pub fn finish_remesh(&mut self, coord: &ChunkCoord) -> (r: Option<u64>)
        requires
            old(self).wf(),
            old(self).loaded().contains_key(coord_key(*coord)) ==> old(self).loaded()[coord_key(
                *coord,
            )].mesh_version_of() < u64::MAX,
        ensures
            final(self).wf(),
            final(self).grid_of() == old(self).grid_of(),
            final(self).render_distance_of() == old(self).render_distance_of(),
            final(self).loaded().dom() == old(self).loaded().dom(),
            r is Some == old(self).loaded().contains_key(coord_key(*coord)),
            forall|k: u128|
                #[trigger] old(self).loaded().contains_key(k) ==> if k == coord_key(*coord) {
                    remeshed(old(self).loaded()[k], final(self).loaded()[k]) && r == Some(
                        final(self).loaded()[k].mesh_version_of(),
                    )
                } else {
                    final(self).loaded()[k] == old(self).loaded()[k]
                },
    {
        let ghost orig = self.loaded();
        let key = chunk_key(coord);
        match self.chunks.remove(&key) {
            Some(c) => {
                let mut c = c;
                c.dirty = false;
                c.mesh_version = c.mesh_version + 1;
                let version = c.mesh_version;
                self.chunks.insert(key, c);
                assert(self.loaded().dom() =~= orig.dom());
                Some(version)
            },
            None => {
                assert(self.loaded() =~= orig);
                None
            },
        }
    }

    /// Load and unload chunks around the chunk `center` the player stands
    /// in: afterwards exactly the chunks within the render distance
    /// (Chebyshev, wrapping around the ring) are loaded; chunks that stay
    /// loaded are kept as they were and newly loaded ones start empty.
    pub fn update_loaded_chunks(&mut self, center: &ChunkCoord)
        requires
            old(self).wf(),
            grid_fits(old(self).grid_of()),
            cube(old(self).grid_of().chunk_size as int) <= u32::MAX,
            radius_fits(*center, old(self).render_distance_of() as int),
        ensures
            final(self).wf(),
            final(self).grid_of() == old(self).grid_of(),
            final(self).render_distance_of() == old(self).render_distance_of(),
            final(self).loaded().dom() == wanted_keys(*center, old(self).render_distance_of() as int, old(self).grid_of()),
            forall|k: u128|
                #[trigger] final(self).loaded().contains_key(k) ==> if old(self).loaded().contains_key(k) {
                    final(self).loaded()[k] == old(self).loaded()[k]
                } else {
                    fresh_chunk(final(self).loaded()[k], k, old(self).grid_of())
                },
    {
        let ghost orig = self.loaded();
        let ghost grid = self.grid;
        let ghost rd0 = self.render_distance;
        let rd = self.render_distance as i32;
        let ghost r = rd as int;
        let size = self.grid.chunk_size;
        let mut fresh: HashMap<u128, Chunk> = HashMap::new();
        let mut dr: i32 = -rd;
        proof {
            assert(fresh@.dom() =~= keys_before(*center, r, grid, -r, -r, -r));
        }
        while dr <= rd
            invariant
                grid == self.grid,
                rd0 == self.render_distance,
                grid_fits(grid),
                size == grid.chunk_size,
                cube(size as int) <= u32::MAX,
                r == rd,
                radius_fits(*center, r),
                -r <= dr <= r + 1,
                forall|k: u128| #[trigger] orig.contains_key(k) ==> chunk_fits(orig[k], k, grid),
                fresh@.dom() == keys_before(*center, r, grid, dr as int, -r, -r),
                forall|k: u128| #[trigger] fresh@.contains_key(k) ==> if orig.contains_key(k) {
                    fresh@[k] == orig[k]
                } else {
                    fresh_chunk(fresh@[k], k, grid)
                },
                forall|k: u128| #[trigger] fresh@.contains_key(k) ==> chunk_fits(fresh@[k], k, grid),
                forall|k: u128| #[trigger] self.chunks@.contains_key(k) <==> orig.contains_key(k) && !fresh@.contains_key(k),
                forall|k: u128| #[trigger] self.chunks@.contains_key(k) ==> self.chunks@[k] == orig[k],
            decreases r + 1 - dr,
        {
            let mut dw: i32 = -rd;
            proof {
                assert(keys_before(*center, r, grid, dr as int, -r, -r) =~= keys_before(*center, r, grid, dr as int, -r, -r));
            }
            while dw <= rd
                invariant
                    grid == self.grid,
                rd0 == self.render_distance,
                    grid_fits(grid),
                    size == grid.chunk_size,
                    cube(size as int) <= u32::MAX,
                    r == rd,
                    radius_fits(*center, r),
                    -r <= dr <= r,
                    -r <= dw <= r + 1,
                    forall|k: u128| #[trigger] orig.contains_key(k) ==> chunk_fits(orig[k], k, grid),
                    fresh@.dom() == keys_before(*center, r, grid, dr as int, dw as int, -r),
                    forall|k: u128| #[trigger] fresh@.contains_key(k) ==> if orig.contains_key(k) {
                        fresh@[k] == orig[k]
                    } else {
                        fresh_chunk(fresh@[k], k, grid)
                    },
                    forall|k: u128| #[trigger] fresh@.contains_key(k) ==> chunk_fits(fresh@[k], k, grid),
                    forall|k: u128| #[trigger] self.chunks@.contains_key(k) <==> orig.contains_key(k) && !fresh@.contains_key(k),
                    forall|k: u128| #[trigger] self.chunks@.contains_key(k) ==> self.chunks@[k] == orig[k],
                decreases r + 1 - dw,
            {
                let mut dh: i32 = -rd;
                while dh <= rd
                    invariant
                        grid == self.grid,
                rd0 == self.render_distance,
                        grid_fits(grid),
                        size == grid.chunk_size,
                        cube(size as int) <= u32::MAX,
                        r == rd,
                        radius_fits(*center, r),
                        -r <= dr <= r,
                        -r <= dw <= r,
                        -r <= dh <= r + 1,
                        forall|k: u128| #[trigger] orig.contains_key(k) ==> chunk_fits(orig[k], k, grid),
                        fresh@.dom() == keys_before(*center, r, grid, dr as int, dw as int, dh as int),
                        forall|k: u128| #[trigger] fresh@.contains_key(k) ==> if orig.contains_key(k) {
                            fresh@[k] == orig[k]
                        } else {
                            fresh_chunk(fresh@[k], k, grid)
                        },
                        forall|k: u128| #[trigger] fresh@.contains_key(k) ==> chunk_fits(fresh@[k], k, grid),
                        forall|k: u128| #[trigger] self.chunks@.contains_key(k) <==> orig.contains_key(k) && !fresh@.contains_key(k),
                        forall|k: u128| #[trigger] self.chunks@.contains_key(k) ==> self.chunks@[k] == orig[k],
                    decreases r + 1 - dh,
                {
                    let ghost before = fresh@;
                    let ghost nk_opt = neighbor_key(*center, dr as int, dw as int, dh as int, grid);
                    match center.neighbor(dr, dw, dh, &self.grid) {
                        Some(c) => {
                            let k = chunk_key(&c);
                            if !fresh.contains_key(&k) {
                                match self.chunks.remove(&k) {
                                    Some(old_chunk) => {
                                        fresh.insert(k, old_chunk);
                                    },
                                    None => {
                                        let nc = Chunk::new(c, size);
                                        fresh.insert(k, nc);
                                    },
                                }
                            }
                        },
                        None => {},
                    }
                    proof {
                        assert forall|k: u128|
                            fresh@.contains_key(k) == keys_before(*center, r, grid, dr as int, dw as int, dh + 1).contains(k) by {
                            if nk_opt == Some(k) {
                                assert(offset_before(r, dr as int, dw as int, dh as int, dr as int, dw as int, dh + 1));
                            }
                            if keys_before(*center, r, grid, dr as int, dw as int, dh + 1).contains(k) {
                                let (a, b, c) = choose|a: int, b: int, c: int|
                                    offset_before(r, a, b, c, dr as int, dw as int, dh + 1) && #[trigger] neighbor_key(
                                        *center,
                                        a,
                                        b,
                                        c,
                                        grid,
                                    ) == Some(k);
                                if !(a == dr && b == dw && c == dh) {
                                    assert(offset_before(r, a, b, c, dr as int, dw as int, dh as int));
                                }
                            }
                            if before.contains_key(k) {
                                let (a, b, c) = choose|a: int, b: int, c: int|
                                    offset_before(r, a, b, c, dr as int, dw as int, dh as int) && #[trigger] neighbor_key(
                                        *center,
                                        a,
                                        b,
                                        c,
                                        grid,
                                    ) == Some(k);
                                assert(offset_before(r, a, b, c, dr as int, dw as int, dh + 1));
                            }
                        }
                        assert(fresh@.dom() =~= keys_before(*center, r, grid, dr as int, dw as int, dh + 1));
                    }
                    dh = dh + 1;
                }
                proof {
                    assert forall|k: u128|
                        #[trigger] keys_before(*center, r, grid, dr as int, dw as int, r + 1).contains(k) == keys_before(
                            *center,
                            r,
                            grid,
                            dr as int,
                            dw + 1,
                            -r,
                        ).contains(k) by {
                        if keys_before(*center, r, grid, dr as int, dw + 1, -r).contains(k) {
                            let (a, b, c) = choose|a: int, b: int, c: int|
                                offset_before(r, a, b, c, dr as int, dw + 1, -r) && #[trigger] neighbor_key(
                                    *center,
                                    a,
                                    b,
                                    c,
                                    grid,
                                ) == Some(k);
                            assert(offset_before(r, a, b, c, dr as int, dw as int, r + 1));
                        }
                        if keys_before(*center, r, grid, dr as int, dw as int, r + 1).contains(k) {
                            let (a, b, c) = choose|a: int, b: int, c: int|
                                offset_before(r, a, b, c, dr as int, dw as int, r + 1) && #[trigger] neighbor_key(
                                    *center,
                                    a,
                                    b,
                                    c,
                                    grid,
                                ) == Some(k);
                            assert(offset_before(r, a, b, c, dr as int, dw + 1, -r));
                        }
                    }
                    assert(fresh@.dom() =~= keys_before(*center, r, grid, dr as int, dw + 1, -r));
                }
                dw = dw + 1;
            }
            proof {
                assert forall|k: u128|
                    #[trigger] keys_before(*center, r, grid, dr as int, r + 1, -r).contains(k) == keys_before(
                        *center,
                        r,
                        grid,
                        dr + 1,
                        -r,
                        -r,
                    ).contains(k) by {
                    if keys_before(*center, r, grid, dr + 1, -r, -r).contains(k) {
                        let (a, b, c) = choose|a: int, b: int, c: int|
                            offset_before(r, a, b, c, dr + 1, -r, -r) && #[trigger] neighbor_key(*center, a, b, c, grid)
                                == Some(k);
                        assert(offset_before(r, a, b, c, dr as int, r + 1, -r));
                    }
                    if keys_before(*center, r, grid, dr as int, r + 1, -r).contains(k) {
                        let (a, b, c) = choose|a: int, b: int, c: int|
                            offset_before(r, a, b, c, dr as int, r + 1, -r) && #[trigger] neighbor_key(
                                *center,
                                a,
                                b,
                                c,
                                grid,
                            ) == Some(k);
                        assert(offset_before(r, a, b, c, dr + 1, -r, -r));
                    }
                }
                assert(fresh@.dom() =~= keys_before(*center, r, grid, dr + 1, -r, -r));
            }
            dr = dr + 1;
        }
        self.chunks = fresh;
    }
}

} // verus!
