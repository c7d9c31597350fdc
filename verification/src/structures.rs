//! Placement of large structures: deterministic position hashing, block
//! placement in world coordinates, and the bedrock walls along the ring's
//! two rims.
use vstd::prelude::*;
use crate::chunk::{Chunk, in_bounds, voxel_set};
use crate::ring_world::ChunkGrid;
use crate::voxel::{Voxel, VoxelType};

verus! {

/// Places large-scale structures in the world, deterministically from a seed.
pub struct StructureGenerator {
    seed: u32,
}

/// The deterministic 32-bit hash of a cell position and seed.
pub open spec fn spec_hash(x: i32, z: i32, seed: u32) -> u32 {
    let h = (x as u32).wrapping_mul(374761393).wrapping_add((z as u32).wrapping_mul(668265263)).wrapping_add(
        seed.wrapping_mul(1274126177),
    );
    let h2 = (h ^ (h >> 13u32)).wrapping_mul(1103515245);
    h2 ^ (h2 >> 16u32)
}

/// The hash of a cell position offset by a salt `extra`.
pub open spec fn spec_hash3(x: i32, z: i32, extra: i32, seed: u32) -> u32 {
    spec_hash(x.wrapping_add(extra.wrapping_mul(7919)), z.wrapping_add(extra.wrapping_mul(6271)), seed)
}

/// The (dx, dz) of the spiral stair step `height` blocks up the tower: it
/// turns one eighth of the way round the centre per block, starting at +x.
pub open spec fn stair_offset(height: int) -> (int, int) {
    let step = (height - 1) % 8;
    if step == 0 {
        (1, 0)
    } else if step == 1 {
        (1, 1)
    } else if step == 2 {
        (0, 1)
    } else if step == 3 {
        (-1, 1)
    } else if step == 4 {
        (-1, 0)
    } else if step == 5 {
        (-1, -1)
    } else if step == 6 {
        (0, -1)
    } else {
        (1, -1)
    }
}

/// The chunk-local cell of world position (x, z, y) in chunk `c`, if it lies
/// in that chunk (local x runs around the ring, z across it, y up).
pub open spec fn local_cell(c: Chunk, wx: int, wz: int, wy: int) -> Option<(int, int, int)> {
    let cs = c.side();
    let k = c.coord_of();
    let lx = wx - k.ring_index * cs;
    let lz = wz - k.width_index * cs;
    let ly = wy - k.height_index * cs;
    if in_bounds(cs, lx, ly, lz) {
        Some((lx, ly, lz))
    } else {
        None
    }
}

/// Whether the world-to-local arithmetic for (x, z, y) in chunk `c` stays in `i32`.
pub open spec fn local_cell_fits(c: Chunk, wx: int, wz: int, wy: int) -> bool {
    let cs = c.side();
    let k = c.coord_of();
    &&& k.ring_index * cs <= i32::MAX
    &&& k.width_index * cs <= i32::MAX
    &&& k.height_index * cs <= i32::MAX
    &&& i32::MIN <= wx - k.ring_index * cs
    &&& i32::MIN <= wz - k.width_index * cs
    &&& i32::MIN <= wy - k.height_index * cs
}

/// Whether local depth `z` belongs to the bedrock wall of a rim chunk: the
/// first three layers on the width-0 rim, the last three on the far rim.
pub open spec fn wall_layer(width_index: u32, cs: int, z: int) -> bool {
    if width_index == 0 {
        z < 3
    } else {
        z >= cs - 3
    }
}

/// Whether a chunk lies on either rim of the ring's width.
pub open spec fn is_rim_chunk(width_index: u32, chunks_width: u32) -> bool {
    width_index == 0 || width_index == chunks_width - 1
}

/// A voxel type that a surface structure may overwrite.
pub open spec fn replaceable(vt: VoxelType) -> bool {
    vt == VoxelType::Air || vt == VoxelType::TallGrass || vt == VoxelType::Flower
}

impl StructureGenerator {
    /// The generator's seed.
    pub closed spec fn seed_of(&self) -> u32 {
        self.seed
    }

    /// A generator for the given world seed.
    pub fn new(seed: u32) -> (r: StructureGenerator)
        ensures
            r.seed_of() == seed,
    {
        StructureGenerator { seed }
    }

    /// Deterministic hash of a cell position under a seed.
    pub fn hash(x: i32, z: i32, seed: u32) -> (r: u32)
        ensures
            r == spec_hash(x, z, seed),
    {
        let mut h = (x as u32).wrapping_mul(374761393).wrapping_add((z as u32).wrapping_mul(668265263)).wrapping_add(
            seed.wrapping_mul(1274126177),
        );
        h = (h ^ (h >> 13)).wrapping_mul(1103515245);
        h ^ (h >> 16)
    }

    /// Deterministic hash of a cell position salted with `extra`.
    pub fn hash3(x: i32, z: i32, extra: i32, seed: u32) -> (r: u32)
        ensures
            r == spec_hash3(x, z, extra, seed),
    {
        Self::hash(x.wrapping_add(extra.wrapping_mul(7919)), z.wrapping_add(extra.wrapping_mul(6271)), seed)
    }

    /// Whether offset (dx, dz) from the tower's centre carries the spiral
    /// stair step at `height` blocks above the ground.
    pub fn is_spiral_stair(&self, dx: i32, dz: i32, height: i32) -> (r: bool)
        requires
            height > i32::MIN,
        ensures
            r == (dx as int == stair_offset(height as int).0 && dz as int == stair_offset(height as int).1),
    {
        let h = height as i64 - 1;
        let step: i64 = if h >= 0 {
            h % 8
        } else {
            let m = (-h) % 8;
            if m == 0 {
                0
            } else {
                8 - m
            }
        };
        assert(step == (height - 1) % 8) by (nonlinear_arith)
            requires
                h == height - 1,
                h >= 0 ==> step == h % 8,
                h < 0 ==> step == (if (-h) % 8 == 0 { 0 } else { 8 - (-h) % 8 }),
        {
            if h < 0 {
                let q = (-h) / 8;
                let m = (-h) % 8;
                assert(-h == q * 8 + m);
                if m == 0 {
                    assert(h == (-q) * 8);
                } else {
                    assert(h == (-q - 1) * 8 + (8 - m));
                }
            }
        }
        let (sx, sz): (i32, i32) = if step == 0 {
            (1, 0)
        } else if step == 1 {
            (1, 1)
        } else if step == 2 {
            (0, 1)
        } else if step == 3 {
            (-1, 1)
        } else if step == 4 {
            (-1, 0)
        } else if step == 5 {
            (-1, -1)
        } else if step == 6 {
            (0, -1)
        } else {
            (1, -1)
        };
        dx == sx && dz == sz
    }

    /// The chunk-local cell of world position (x, z, y), if inside `chunk`.
    fn local_cell_of(chunk: &Chunk, world_x: i32, world_z: i32, world_y: i32) -> (r: Option<(u32, u32, u32)>)
        requires
            chunk.wf(),
            local_cell_fits(*chunk, world_x as int, world_z as int, world_y as int),
        ensures
            match local_cell(*chunk, world_x as int, world_z as int, world_y as int) {
                Some((x, y, z)) => r == Some((x as u32, y as u32, z as u32)),
                None => r is None,
            },
    {
        let cs = chunk.size() as i64;
        let coord = chunk.chunk_coord();
        let lx = world_x as i64 - coord.ring_index as i64 * cs;
        let lz = world_z as i64 - coord.width_index as i64 * cs;
        let ly = world_y as i64 - coord.height_index as i64 * cs;
        if lx >= 0 && lx < cs && lz >= 0 && lz < cs && ly >= 0 && ly < cs {
            Some((lx as u32, ly as u32, lz as u32))
        } else {
            None
        }
    }

    /// Overwrite the voxel at world position (x, z, y) with `vt` when that
    /// position lies in `chunk`; otherwise leave the chunk as it is.
    pub fn force_block_in_chunk(&self, chunk: &mut Chunk, world_x: i32, world_z: i32, world_y: i32, vt: VoxelType)
        requires
            old(chunk).wf(),
            local_cell_fits(*old(chunk), world_x as int, world_z as int, world_y as int),
        ensures
            final(chunk).wf(),
            match local_cell(*old(chunk), world_x as int, world_z as int, world_y as int) {
                Some((x, y, z)) => voxel_set(*old(chunk), *final(chunk), x, y, z, Voxel { voxel_type: vt }),
                None => *final(chunk) == *old(chunk),
            },
    {
        match Self::local_cell_of(chunk, world_x, world_z, world_y) {
            Some((lx, ly, lz)) => {
                chunk.set_voxel(lx, ly, lz, Voxel::new(vt));
            },
            None => {},
        }
    }

    /// Place `vt` at world position (x, z, y) when that position lies in
    /// `chunk` and currently holds air, tall grass or a flower.
    pub fn place_block_on_surface(&self, chunk: &mut Chunk, world_x: i32, world_z: i32, world_y: i32, vt: VoxelType)
        requires
            old(chunk).wf(),
            local_cell_fits(*old(chunk), world_x as int, world_z as int, world_y as int),
        ensures
            final(chunk).wf(),
            match local_cell(*old(chunk), world_x as int, world_z as int, world_y as int) {
                Some((x, y, z)) => if replaceable(old(chunk).voxel_at(x, y, z).voxel_type) {
                    voxel_set(*old(chunk), *final(chunk), x, y, z, Voxel { voxel_type: vt })
                } else {
                    *final(chunk) == *old(chunk)
                },
                None => *final(chunk) == *old(chunk),
            },
    {
        match Self::local_cell_of(chunk, world_x, world_z, world_y) {
            Some((lx, ly, lz)) => {
                let current = chunk.get_voxel(lx, ly, lz).voxel_type;
                if current == VoxelType::Air || current == VoxelType::TallGrass || current == VoxelType::Flower {
                    chunk.set_voxel(lx, ly, lz, Voxel::new(vt));
                }
            },
            None => {},
        }
    }

    /// Line the outer rim of the ring with bedrock: in a chunk on either rim
    /// of the width, the three layers of cells nearest the edge become
    /// bedrock; any other chunk is left as it is.
    pub fn generate_ring_edge_walls(&self, chunk: &mut Chunk, grid: &ChunkGrid)
        requires
            old(chunk).wf(),
            old(chunk).coord_of().width_index == 0 || grid.chunks_width > 0,
        ensures
            final(chunk).wf(),
            !is_rim_chunk(old(chunk).coord_of().width_index, grid.chunks_width) ==> *final(chunk) == *old(chunk),
            is_rim_chunk(old(chunk).coord_of().width_index, grid.chunks_width) ==> {
                &&& final(chunk).side() == old(chunk).side()
                &&& final(chunk).light_seq() == old(chunk).light_seq()
                &&& final(chunk).coord_of() == old(chunk).coord_of()
                &&& final(chunk).generated_flag() == old(chunk).generated_flag()
                &&& final(chunk).mesh_version_of() == old(chunk).mesh_version_of()
                &&& final(chunk).dirty_flag() == (old(chunk).dirty_flag() || old(chunk).side() > 0)
                &&& forall|x: int, y: int, z: int|
                    #[trigger] final(chunk).voxel_at(x, y, z) == if in_bounds(old(chunk).side(), x, y, z)
                        && wall_layer(old(chunk).coord_of().width_index, old(chunk).side(), z) {
                        Voxel { voxel_type: VoxelType::Bedrock }
                    } else {
                        old(chunk).voxel_at(x, y, z)
                    }
            },
    {
        let coord = chunk.chunk_coord();
        let cs = chunk.size();
        if coord.width_index != 0 && coord.width_index != grid.chunks_width - 1 {
            return;
        }
        let ghost start = *chunk;
        let ghost wi = coord.width_index;
        let (lo, hi): (u32, u32) = if coord.width_index == 0 {
            (0, if 3 < cs { 3 } else { cs })
        } else {
            (if cs >= 3 { cs - 3 } else { 0 }, cs)
        };
        assert forall|z: int| 0 <= z < cs implies (lo <= z < hi <==> wall_layer(wi, cs as int, z)) by {}
        let mut ly: u32 = 0;
        while ly < cs
            invariant
                chunk.wf(),
                cs == start.side(),
                wi == start.coord_of().width_index,
                forall|z: int| 0 <= z < cs ==> (lo <= z < hi <==> wall_layer(wi, cs as int, z)),
                lo < hi || cs == 0,
                hi <= cs,
                ly <= cs,
                chunk.side() == start.side(),
                chunk.light_seq() == start.light_seq(),
                chunk.coord_of() == start.coord_of(),
                chunk.generated_flag() == start.generated_flag(),
                chunk.mesh_version_of() == start.mesh_version_of(),
                chunk.dirty_flag() == (start.dirty_flag() || ly > 0),
                forall|x: int, y: int, z: int|
                    #[trigger] chunk.voxel_at(x, y, z) == if in_bounds(cs as int, x, y, z) && wall_layer(wi, cs as int, z) && y < ly {
                        Voxel { voxel_type: VoxelType::Bedrock }
                    } else {
                        start.voxel_at(x, y, z)
                    },
            decreases cs - ly,
        {
            let mut lx: u32 = 0;
            while lx < cs
                invariant
                    chunk.wf(),
                    cs == start.side(),
                    wi == start.coord_of().width_index,
                    forall|z: int| 0 <= z < cs ==> (lo <= z < hi <==> wall_layer(wi, cs as int, z)),
                    lo < hi,
                    hi <= cs,
                    ly < cs,
                    lx <= cs,
                    chunk.side() == start.side(),
                    chunk.light_seq() == start.light_seq(),
                    chunk.coord_of() == start.coord_of(),
                    chunk.generated_flag() == start.generated_flag(),
                    chunk.mesh_version_of() == start.mesh_version_of(),
                    chunk.dirty_flag() == (start.dirty_flag() || ly > 0 || lx > 0),
                    forall|x: int, y: int, z: int|
                        #[trigger] chunk.voxel_at(x, y, z) == if in_bounds(cs as int, x, y, z) && wall_layer(wi, cs as int, z)
                            && (y < ly || (y == ly && x < lx)) {
                            Voxel { voxel_type: VoxelType::Bedrock }
                        } else {
                            start.voxel_at(x, y, z)
                        },
                decreases cs - lx,
            {
                let mut lz: u32 = lo;
                while lz < hi
                    invariant
                        chunk.wf(),
                        cs == start.side(),
                        wi == start.coord_of().width_index,
                        forall|z: int| 0 <= z < cs ==> (lo <= z < hi <==> wall_layer(wi, cs as int, z)),
                        lo < hi,
                        hi <= cs,
                        ly < cs,
                        lx < cs,
                        lo <= lz <= hi,
                        chunk.side() == start.side(),
                        chunk.light_seq() == start.light_seq(),
                        chunk.coord_of() == start.coord_of(),
                        chunk.generated_flag() == start.generated_flag(),
                        chunk.mesh_version_of() == start.mesh_version_of(),
                        chunk.dirty_flag() == (start.dirty_flag() || ly > 0 || lx > 0 || lz > lo),
                        forall|x: int, y: int, z: int|
                            #[trigger] chunk.voxel_at(x, y, z) == if in_bounds(cs as int, x, y, z) && wall_layer(
                                wi,
                                cs as int,
                                z,
                            ) && (y < ly || (y == ly && x < lx) || (y == ly && x == lx && z < lz)) {
                                Voxel { voxel_type: VoxelType::Bedrock }
                            } else {
                                start.voxel_at(x, y, z)
                            },
                    decreases hi - lz,
                {
                    chunk.set_voxel(lx, ly, lz, Voxel::new(VoxelType::Bedrock));
                    lz = lz + 1;
                }
                lx = lx + 1;
            }
            ly = ly + 1;
        }
    }
}

} // verus!
