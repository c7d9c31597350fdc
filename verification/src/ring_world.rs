//! Chunk coordinates on the ring's voxel grid.
//!
//! The ring wraps around its circumference (ring index), and is bounded in
//! width (axial) and height (radial, toward the sun).
use vstd::prelude::*;

verus! {

/// The integer dimensions of the ring's chunk grid.
#[derive(Clone, Copy, Debug, PartialEq, Eq, Structural)]
pub struct ChunkGrid {
    /// Number of chunks around the circumference.
    pub chunks_circumference: u32,
    /// Number of chunks along the width.
    pub chunks_width: u32,
    /// Number of chunks in height (radial direction, toward sun).
    pub chunks_height: u32,
    /// Size of each chunk in voxels (cubic chunks).
    pub chunk_size: u32,
}

/// Chunk coordinate in the ring world grid.
#[derive(Clone, Copy, Debug, PartialEq, Eq, Hash, Structural)]
pub struct ChunkCoord {
    /// Index around the circumference [0, chunks_circumference).
    pub ring_index: u32,
    /// Index along the width [0, chunks_width).
    pub width_index: u32,
    /// Index in height [0, chunks_height).
    pub height_index: u32,
}

/// `a` modulo `m`, always in `[0, m)`.
pub open spec fn wrap(a: int, m: int) -> int {
    a % m
}

/// Euclidean remainder of `a` by a positive `m`, computed without signed `%`.
#[verifier::spinoff_prover]
#[verifier::rlimit(30)]
fn rem_euclid_i64(a: i64, m: i64) -> (r: i64)
    requires
        m > 0,
    ensures
        r == wrap(a as int, m as int),
        0 <= r < m,
{
    if a >= 0 {
        let r = ((a as u64) % (m as u64)) as i64;
        assert(r == (a as int) % (m as int));
        r
    } else {
        let neg = ((-(a as i128)) as u64) % (m as u64);
        let r = if neg == 0 {
            0i64
        } else {
            (m as u64 - neg) as i64
        };
        assert(r == (a as int) % (m as int)) by (nonlinear_arith)
            requires
                neg == (-(a as int)) % (m as int),
                r == if neg == 0 { 0 } else { m - neg },
                a < 0,
                m > 0,
        {
            let q = (-(a as int)) / (m as int);
            assert(-(a as int) == q * m + neg);
            if neg == 0 {
                assert(a as int == (-q) * m);
            } else {
                assert(a as int == (-q - 1) * m + (m - neg));
            }
        }
        r
    }
}

/// The chunk offset from `c` by (d_ring, d_width, d_height): the ring index
/// wraps around the circumference; past the width or height edge there is none.
pub open spec fn spec_neighbor(c: ChunkCoord, d_ring: int, d_width: int, d_height: int, grid: ChunkGrid) -> Option<ChunkCoord> {
    let w = c.width_index + d_width;
    let h = c.height_index + d_height;
    if 0 <= w < grid.chunks_width && 0 <= h < grid.chunks_height {
        Some(
            ChunkCoord {
                ring_index: wrap(c.ring_index + d_ring, grid.chunks_circumference as int) as u32,
                width_index: w as u32,
                height_index: h as u32,
            },
        )
    } else {
        None
    }
}

/// Whether the grid's dimensions fit the signed arithmetic used to step
/// between chunks.
pub open spec fn grid_fits(grid: ChunkGrid) -> bool {
    &&& 0 < grid.chunks_circumference <= i32::MAX
    &&& grid.chunks_width <= i32::MAX
    &&& grid.chunks_height <= i32::MAX
}

impl ChunkCoord {
    /// A chunk coordinate from its three indices.
    pub fn new(ring_index: u32, width_index: u32, height_index: u32) -> (r: ChunkCoord)
        ensures
            r == (ChunkCoord { ring_index, width_index, height_index }),
    {
        ChunkCoord { ring_index, width_index, height_index }
    }

    /// The chunk holding the given raw grid indices: the ring index wraps
    /// around the circumference, the width and height indices are capped at
    /// the last chunk.
    pub fn from_grid_indices(ring: u32, width: u32, height: u32, grid: &ChunkGrid) -> (r: ChunkCoord)
        requires
            grid.chunks_circumference > 0,
            grid.chunks_width > 0,
            grid.chunks_height > 0,
        ensures
            r.ring_index == ring % grid.chunks_circumference,
            r.width_index == if width < grid.chunks_width { width } else { (grid.chunks_width - 1) as u32 },
            r.height_index == if height < grid.chunks_height { height } else { (grid.chunks_height - 1) as u32 },
    {
        let w = if width < grid.chunks_width - 1 { width } else { grid.chunks_width - 1 };
        let h = if height < grid.chunks_height - 1 { height } else { grid.chunks_height - 1 };
        ChunkCoord::new(ring % grid.chunks_circumference, w, h)
    }

    /// The neighbour offset by the given deltas: the ring index wraps around
    /// the circumference, stepping off the width or height edge gives `None`.
    /// Indices and grid dimensions are read as `i32`, as stored bit patterns
    /// (a value past `i32::MAX` reads as negative).
    pub fn neighbor(&self, d_ring: i32, d_width: i32, d_height: i32, grid: &ChunkGrid) -> (r: Option<ChunkCoord>)
        requires
            grid.chunks_circumference != 0,
            i32::MIN <= as_i32(self.ring_index) + d_ring <= i32::MAX,
            !(as_i32(self.ring_index) + d_ring == i32::MIN && as_i32(grid.chunks_circumference) == -1),
            i32::MIN <= as_i32(self.width_index) + d_width <= i32::MAX,
            i32::MIN <= as_i32(self.height_index) + d_height <= i32::MAX,
        ensures
            r == spec_neighbor_i32(*self, d_ring as int, d_width as int, d_height as int, *grid),
            grid_fits(*grid) && self.ring_index <= i32::MAX && self.width_index <= i32::MAX
                && self.height_index <= i32::MAX ==> r == spec_neighbor(
                *self,
                d_ring as int,
                d_width as int,
                d_height as int,
                *grid,
            ),
    {
        let circ = i32_value(grid.chunks_circumference);
        let m = if circ < 0 {
            -circ
        } else {
            circ
        };
        let ring = rem_euclid_i64(i32_value(self.ring_index) + d_ring as i64, m) as u32;
        let width = i32_value(self.width_index) + d_width as i64;
        let height = i32_value(self.height_index) + d_height as i64;
        if width < 0 || width >= i32_value(grid.chunks_width) {
            return None;
        }
        if height < 0 || height >= i32_value(grid.chunks_height) {
            return None;
        }
        Some(ChunkCoord::new(ring, width as u32, height as u32))
    }
}

/// A `u32` read as the `i32` with the same bits.
pub open spec fn as_i32(v: u32) -> int {
    if v <= i32::MAX {
        v as int
    } else {
        v - 0x1_0000_0000int
    }
}

/// The `i32` reading of a `u32`, widened to `i64`.
fn i32_value(v: u32) -> (r: i64)
    ensures
        r == as_i32(v),
{
    if v <= 0x7fff_ffff {
        v as i64
    } else {
        v as i64 - 0x1_0000_0000i64
    }
}

/// The chunk offset from `c` by (d_ring, d_width, d_height), with indices and
/// grid dimensions read as `i32`: the ring index wraps around the magnitude
/// of the circumference; past the width or height edge there is none.
pub open spec fn spec_neighbor_i32(c: ChunkCoord, d_ring: int, d_width: int, d_height: int, grid: ChunkGrid) -> Option<ChunkCoord> {
    let w = as_i32(c.width_index) + d_width;
    let h = as_i32(c.height_index) + d_height;
    if 0 <= w < as_i32(grid.chunks_width) && 0 <= h < as_i32(grid.chunks_height) {
        Some(
            ChunkCoord {
                ring_index: wrap(
                    as_i32(c.ring_index) + d_ring,
                    abs_int(as_i32(grid.chunks_circumference)),
                ) as u32,
                width_index: w as u32,
                height_index: h as u32,
            },
        )
    } else {
        None
    }
}

/// Distance around the ring between two ring indices (the shorter way round).
pub open spec fn ring_gap(a: int, b: int, circ: int) -> int {
    let raw = wrap(a - b, circ);
    if raw <= circ - raw { raw } else { circ - raw }
}

/// Absolute value.
pub open spec fn abs_int(a: int) -> int {
    if a < 0 { -a } else { a }
}

/// Chebyshev distance between two chunks, wrapping around the ring.
pub open spec fn spec_chunk_distance(a: ChunkCoord, b: ChunkCoord, circ: int) -> int {
    let r = ring_gap(a.ring_index as int, b.ring_index as int, circ);
    let w = abs_int(a.width_index - b.width_index);
    let h = abs_int(a.height_index - b.height_index);
    if r >= w && r >= h { r } else if w >= h { w } else { h }
}

/// A step of at most one chunk per axis from a chunk of the grid: the width
/// and height indices move by the step and must stay inside the grid, while
/// the ring index moves by the step and wraps from the last chunk to the
/// first and back.
pub proof fn lemma_neighbor_step(c: ChunkCoord, dr: int, dw: int, dh: int, grid: ChunkGrid)
    requires
        0 < grid.chunks_circumference,
        c.ring_index < grid.chunks_circumference,
        -1 <= dr <= 1,
        -1 <= dw <= 1,
        -1 <= dh <= 1,
    ensures
        spec_neighbor(c, dr, dw, dh, grid) is Some <==> (0 <= c.width_index + dw < grid.chunks_width && 0
            <= c.height_index + dh < grid.chunks_height),
        spec_neighbor(c, dr, dw, dh, grid) matches Some(n) ==> {
            &&& n.width_index == c.width_index + dw
            &&& n.height_index == c.height_index + dh
            &&& n.ring_index == if c.ring_index + dr == grid.chunks_circumference {
                0
            } else if c.ring_index + dr == -1 {
                grid.chunks_circumference - 1
            } else {
                c.ring_index + dr
            }
        },
{
    let circ = grid.chunks_circumference as int;
    let t = c.ring_index + dr;
    if t == circ {
        vstd::arithmetic::div_mod::lemma_mod_self_0(circ);
    } else if t == -1 {
        vstd::arithmetic::div_mod::lemma_mod_add_multiples_vanish(-1, circ);
        vstd::arithmetic::div_mod::lemma_small_mod((circ - 1) as nat, circ as nat);
    } else {
        vstd::arithmetic::div_mod::lemma_small_mod(t as nat, circ as nat);
    }
}

/// For indices on the ring, the gap is the shorter of the two ways round:
/// the plain index difference or the rest of the circumference.
pub proof fn lemma_ring_gap_shorter_way(a: int, b: int, circ: int)
    requires
        0 <= a < circ,
        0 <= b < circ,
    ensures
        ({
            let d = abs_int(a - b);
            ring_gap(a, b, circ) == if d <= circ - d { d } else { circ - d }
        }),
{
    if a >= b {
        vstd::arithmetic::div_mod::lemma_small_mod((a - b) as nat, circ as nat);
    } else {
        vstd::arithmetic::div_mod::lemma_mod_add_multiples_vanish(a - b, circ);
        vstd::arithmetic::div_mod::lemma_small_mod((a - b + circ) as nat, circ as nat);
    }
}

/// The chunk distance is the largest of the three per-axis distances: at
/// least the ring gap, the width difference and the height difference, and
/// equal to one of them.
pub proof fn lemma_chunk_distance_is_largest_axis(a: ChunkCoord, b: ChunkCoord, circ: int)
    ensures
        ({
            let d = spec_chunk_distance(a, b, circ);
            let r = ring_gap(a.ring_index as int, b.ring_index as int, circ);
            let w = abs_int(a.width_index - b.width_index);
            let h = abs_int(a.height_index - b.height_index);
            &&& d >= r
            &&& d >= w
            &&& d >= h
            &&& (d == r || d == w || d == h)
            &&& w >= 0 && h >= 0
            &&& (a.width_index < b.width_index ==> w == b.width_index - a.width_index)
            &&& (a.width_index >= b.width_index ==> w == a.width_index - b.width_index)
            &&& (a.height_index < b.height_index ==> h == b.height_index - a.height_index)
            &&& (a.height_index >= b.height_index ==> h == a.height_index - b.height_index)
        }),
{
}

/// Chebyshev distance (in chunks) from `center` to `coord`, taking the
/// shorter way around the ring for the ring index.
pub fn chunk_distance_between(coord: &ChunkCoord, center: &ChunkCoord, grid: &ChunkGrid) -> (r: u32)
    requires
        0 < grid.chunks_circumference <= i32::MAX,
        coord.ring_index <= i32::MAX,
        center.ring_index <= i32::MAX,
        coord.width_index <= i32::MAX,
        center.width_index <= i32::MAX,
        coord.height_index <= i32::MAX,
        center.height_index <= i32::MAX,
    ensures
        r == spec_chunk_distance(*coord, *center, grid.chunks_circumference as int),
{
    let circ = grid.chunks_circumference as i64;
    let d_ring_raw = rem_euclid_i64(coord.ring_index as i64 - center.ring_index as i64, circ);
    let d_ring = if d_ring_raw <= circ - d_ring_raw {
        d_ring_raw
    } else {
        circ - d_ring_raw
    };
    let dw = coord.width_index as i64 - center.width_index as i64;
    let d_width = if dw < 0 {
        -dw
    } else {
        dw
    };
    let dh = coord.height_index as i64 - center.height_index as i64;
    let d_height = if dh < 0 {
        -dh
    } else {
        dh
    };
    let m = if d_ring >= d_width && d_ring >= d_height {
        d_ring
    } else if d_width >= d_height {
        d_width
    } else {
        d_height
    };
    m as u32
}

} // verus!
