//! Light propagation inside a chunk: sunlight falling from the top of each
//! column and spreading sideways, and block light flooding out of emitters.
//!
//! Both spreads are breadth-first flood fills that lose one level per step.
//! Each computes the least light assignment that is at least the seeded
//! levels and that no further spreading step could raise.
use vstd::prelude::*;
use std::collections::VecDeque;
use crate::block::BlockProperties;
use crate::chunk::{Chunk, ChunkManager, coord_key, in_bounds, cell_index, cube, pack_light, unpack_sun, unpack_block, vox_at, lemma_side_small};
use crate::voxel::{Voxel, VoxelType};
use crate::ring_world::ChunkCoord;

verus! {

/// The two light channels stored per voxel.
#[derive(Clone, Copy, Debug, PartialEq, Eq, Structural)]
pub enum LightChannel {
    Sun,
    Block,
}

/// A queued flood-fill step: cell coordinates and the light level it carries.
pub type LightEntry = (u32, u32, u32, u8);

/// The level of one channel in a packed light byte.
pub open spec fn nibble(ch: LightChannel, packed: u8) -> u8 {
    match ch {
        LightChannel::Sun => unpack_sun(packed),
        LightChannel::Block => unpack_block(packed),
    }
}

/// The light level of one channel at a cell of a chunk.
pub open spec fn light_in(c: Chunk, ch: LightChannel, x: int, y: int, z: int) -> int {
    match ch {
        LightChannel::Sun => c.sun_at(x, y, z) as int,
        LightChannel::Block => c.block_light_at(x, y, z) as int,
    }
}

/// The other channel.
pub open spec fn other(ch: LightChannel) -> LightChannel {
    match ch {
        LightChannel::Sun => LightChannel::Block,
        LightChannel::Block => LightChannel::Sun,
    }
}

/// Whether light of a channel can enter a voxel of this type: sunlight
/// passes through air and transparent blocks; block light is stopped only by
/// opaque solid blocks.
pub open spec fn passable(ch: LightChannel, vt: VoxelType) -> bool {
    match ch {
        LightChannel::Sun => vt.spec_is_transparent() || vt == VoxelType::Air,
        LightChannel::Block => !(vt.spec_is_solid() && !vt.spec_is_transparent()),
    }
}

/// Absolute value.
pub open spec fn abs_i(a: int) -> int {
    if a < 0 { -a } else { a }
}

/// Whether two cells share a face.
pub open spec fn adjacent(x1: int, y1: int, z1: int, x2: int, y2: int, z2: int) -> bool {
    abs_i(x2 - x1) + abs_i(y2 - y1) + abs_i(z2 - z1) == 1
}

/// X step of direction `d` (order +X, -X, +Y, -Y, +Z, -Z).
pub open spec fn dir_x(d: int) -> int {
    if d == 0 { 1 } else if d == 1 { -1 } else { 0 }
}

/// Y step of direction `d`.
pub open spec fn dir_y(d: int) -> int {
    if d == 2 { 1 } else if d == 3 { -1 } else { 0 }
}

/// Z step of direction `d`.
pub open spec fn dir_z(d: int) -> int {
    if d == 4 { 1 } else if d == 5 { -1 } else { 0 }
}

/// Which of the six directions a unit step is (6 for anything else).
pub open spec fn dir_index(dx: int, dy: int, dz: int) -> int {
    if dx == 1 && dy == 0 && dz == 0 {
        0
    } else if dx == -1 && dy == 0 && dz == 0 {
        1
    } else if dx == 0 && dy == 1 && dz == 0 {
        2
    } else if dx == 0 && dy == -1 && dz == 0 {
        3
    } else if dx == 0 && dy == 0 && dz == 1 {
        4
    } else if dx == 0 && dy == 0 && dz == -1 {
        5
    } else {
        6
    }
}

/// Whether `(x, y, z)` carrying `level` sits somewhere in the queue.
pub open spec fn queued(q: Seq<LightEntry>, x: int, y: int, z: int, level: int) -> bool {
    exists|k: int| 0 <= k < q.len() && #[trigger] q[k] == (x as u32, y as u32, z as u32, level as u8)
}

/// A cell that may still spread: a seed, or one whose light was raised.
pub open spec fn active(c: Chunk, ch: LightChannel, init: spec_fn(int, int, int) -> int, source: spec_fn(int, int, int) -> bool, x: int, y: int, z: int) -> bool {
    source(x, y, z) || light_in(c, ch, x, y, z) > init(x, y, z)
}

/// Every spreading step not yet taken is still queued: whenever an active cell
/// could raise a passable neighbour, that cell is queued with its current
/// level, except for the neighbours of `(ex, ey, ez)` (at level `elevel`) in
/// directions `edone` and later.
pub open spec fn pending_covered(
    c: Chunk,
    ch: LightChannel,
    init: spec_fn(int, int, int) -> int,
    source: spec_fn(int, int, int) -> bool,
    q: Seq<LightEntry>,
    ex: int,
    ey: int,
    ez: int,
    elevel: int,
    edone: int,
) -> bool {
    forall|x1: int, y1: int, z1: int, x2: int, y2: int, z2: int|
        #[trigger] adjacent(x1, y1, z1, x2, y2, z2) && in_bounds(c.side(), x1, y1, z1) && in_bounds(
            c.side(),
            x2,
            y2,
            z2,
        ) && passable(ch, c.voxel_at(x2, y2, z2).voxel_type) && active(c, ch, init, source, x1, y1, z1)
            && light_in(c, ch, x1, y1, z1) > 1 && light_in(c, ch, x2, y2, z2) < light_in(
            c,
            ch,
            x1,
            y1,
            z1,
        ) - 1 ==> queued(q, x1, y1, z1, light_in(c, ch, x1, y1, z1)) || (x1 == ex && y1 == ey
            && z1 == ez && light_in(c, ch, x1, y1, z1) == elevel && dir_index(
            x2 - x1,
            y2 - y1,
            z2 - z1,
        ) >= edone)
}

/// No active cell can raise a passable neighbour any more.
pub open spec fn spread_closed(
    c: Chunk,
    ch: LightChannel,
    init: spec_fn(int, int, int) -> int,
    source: spec_fn(int, int, int) -> bool,
) -> bool {
    forall|x1: int, y1: int, z1: int, x2: int, y2: int, z2: int|
        #[trigger] adjacent(x1, y1, z1, x2, y2, z2) && in_bounds(c.side(), x1, y1, z1) && in_bounds(
            c.side(),
            x2,
            y2,
            z2,
        ) && passable(ch, c.voxel_at(x2, y2, z2).voxel_type) && active(c, ch, init, source, x1, y1, z1)
            && light_in(c, ch, x1, y1, z1) > 1 ==> light_in(c, ch, x2, y2, z2) >= light_in(
            c,
            ch,
            x1,
            y1,
            z1,
        ) - 1
}

/// `l` is an assignment at least `init` that is closed under spreading from
/// its active cells, for the voxels `vox` of a chunk of side `s`.
pub open spec fn is_light_bound(
    vox: Seq<Voxel>,
    s: int,
    ch: LightChannel,
    init: spec_fn(int, int, int) -> int,
    source: spec_fn(int, int, int) -> bool,
    l: spec_fn(int, int, int) -> int,
) -> bool {
    &&& forall|x: int, y: int, z: int| in_bounds(s, x, y, z) ==> #[trigger] l(x, y, z) >= init(x, y, z)
    &&& forall|x1: int, y1: int, z1: int, x2: int, y2: int, z2: int|
        #[trigger] adjacent(x1, y1, z1, x2, y2, z2) && in_bounds(s, x1, y1, z1) && in_bounds(
            s,
            x2,
            y2,
            z2,
        ) && passable(ch, vox_at(vox, s, x2, y2, z2).voxel_type) && (source(x1, y1, z1) || l(
            x1,
            y1,
            z1,
        ) > init(x1, y1, z1)) && l(x1, y1, z1) > 1 ==> l(x2, y2, z2) >= l(x1, y1, z1) - 1
}

/// The chunk's levels in channel `ch` lie below every bound.
pub open spec fn below_every_bound(
    c: Chunk,
    ch: LightChannel,
    init: spec_fn(int, int, int) -> int,
    source: spec_fn(int, int, int) -> bool,
) -> bool {
    forall|l: spec_fn(int, int, int) -> int|
        #[trigger] is_light_bound(c.voxel_seq(), c.side(), ch, init, source, l) ==> forall|
            x: int,
            y: int,
            z: int,
        | in_bounds(c.side(), x, y, z) ==> #[trigger] light_in(c, ch, x, y, z) <= l(x, y, z)
}

/// Channel `ch` of `c` is the least assignment that is at least `init` and
/// closed under spreading from active cells (`source` cells, or cells raised
/// above `init`).
pub open spec fn least_spread(
    c: Chunk,
    ch: LightChannel,
    init: spec_fn(int, int, int) -> int,
    source: spec_fn(int, int, int) -> bool,
) -> bool {
    &&& forall|x: int, y: int, z: int|
        in_bounds(c.side(), x, y, z) ==> #[trigger] light_in(c, ch, x, y, z) >= init(x, y, z)
    &&& spread_closed(c, ch, init, source)
    &&& below_every_bound(c, ch, init, source)
}

/// Sum of a weight over a byte sequence.
pub open spec fn byte_sum(s: Seq<u8>, f: spec_fn(u8) -> nat) -> nat
    decreases s.len(),
{
    if s.len() == 0 {
        0
    } else {
        byte_sum(s.drop_last(), f) + f(s.last())
    }
}

/// How far a channel is from full brightness, per packed byte.
pub open spec fn deficit_weight(ch: LightChannel) -> spec_fn(u8) -> nat {
    |b: u8| (15 - nibble(ch, b)) as nat
}

/// Replacing one byte changes the sum by the difference of the weights.
pub proof fn lemma_byte_sum_update(s: Seq<u8>, f: spec_fn(u8) -> nat, i: int, v: u8)
    requires
        0 <= i < s.len(),
    ensures
        byte_sum(s.update(i, v), f) + f(s[i]) == byte_sum(s, f) + f(v),
    decreases s.len(),
{
    if i == s.len() - 1 {
        assert(s.update(i, v).drop_last() =~= s.drop_last());
    } else {
        assert(s.update(i, v).drop_last() =~= s.drop_last().update(i, v));
        lemma_byte_sum_update(s.drop_last(), f, i, v);
    }
}

/// Adjacent cells differ by one of the six directions.
pub proof fn lemma_adjacent_dir(x1: int, y1: int, z1: int, x2: int, y2: int, z2: int)
    requires
        adjacent(x1, y1, z1, x2, y2, z2),
    ensures
        0 <= dir_index(x2 - x1, y2 - y1, z2 - z1) < 6,
        x2 == x1 + dir_x(dir_index(x2 - x1, y2 - y1, z2 - z1)),
        y2 == y1 + dir_y(dir_index(x2 - x1, y2 - y1, z2 - z1)),
        z2 == z1 + dir_z(dir_index(x2 - x1, y2 - y1, z2 - z1)),
{
}

/// The levels of channel `ch` in `c`, as a function of the cell.
pub open spec fn levels_of(c: Chunk, ch: LightChannel) -> spec_fn(int, int, int) -> int {
    |x: int, y: int, z: int| light_in(c, ch, x, y, z)
}

/// A queue entry names an in-bounds cell, carries at most that cell's current
/// level (and at most 15), and belongs to an active cell.
pub open spec fn entry_ok(
    c: Chunk,
    ch: LightChannel,
    init: spec_fn(int, int, int) -> int,
    source: spec_fn(int, int, int) -> bool,
    e: LightEntry,
) -> bool {
    &&& in_bounds(c.side(), e.0 as int, e.1 as int, e.2 as int)
    &&& e.3 <= light_in(c, ch, e.0 as int, e.1 as int, e.2 as int)
    &&& e.3 <= 15
    &&& (source(e.0 as int, e.1 as int, e.2 as int) || e.3 > init(e.0 as int, e.1 as int, e.2 as int))
}

/// `c2` is `c1` with channel `ch` raised to `v` at one cell, nothing else changed.
pub open spec fn raised_at(c1: Chunk, c2: Chunk, ch: LightChannel, qx: int, qy: int, qz: int, v: int) -> bool {
    &&& c2.voxel_seq() == c1.voxel_seq()
    &&& c2.side() == c1.side()
    &&& forall|a: int, b: int, d: int|
        #[trigger] light_in(c2, ch, a, b, d) == if a == qx && b == qy && d == qz {
            v
        } else {
            light_in(c1, ch, a, b, d)
        }
}

/// Popping the head of the queue leaves every pending step covered, with the
/// popped cell's own steps as the only exception.
proof fn lemma_pop_covered(
    c: Chunk,
    ch: LightChannel,
    init: spec_fn(int, int, int) -> int,
    source: spec_fn(int, int, int) -> bool,
    q: Seq<LightEntry>,
)
    requires
        q.len() > 0,
        forall|k: int| 0 <= k < q.len() ==> entry_ok(c, ch, init, source, #[trigger] q[k]),
        pending_covered(c, ch, init, source, q, 0, 0, 0, 0, 6),
        c.wf(),
    ensures
        pending_covered(
            c,
            ch,
            init,
            source,
            q.subrange(1, q.len() as int),
            q[0].0 as int,
            q[0].1 as int,
            q[0].2 as int,
            q[0].3 as int,
            0,
        ),
        q[0].3 <= 1 ==> pending_covered(c, ch, init, source, q.subrange(1, q.len() as int), 0, 0, 0, 0, 6),
{
    let q2 = q.subrange(1, q.len() as int);
    let e = q[0];
    assert(entry_ok(c, ch, init, source, e));
    lemma_side_small(c.side());
    assert forall|x1: int, y1: int, z1: int, x2: int, y2: int, z2: int|
        #[trigger] adjacent(x1, y1, z1, x2, y2, z2) && in_bounds(c.side(), x1, y1, z1) && in_bounds(
            c.side(),
            x2,
            y2,
            z2,
        ) && passable(ch, c.voxel_at(x2, y2, z2).voxel_type) && active(c, ch, init, source, x1, y1, z1)
            && light_in(c, ch, x1, y1, z1) > 1 && light_in(c, ch, x2, y2, z2) < light_in(
            c,
            ch,
            x1,
            y1,
            z1,
        ) - 1 implies queued(q2, x1, y1, z1, light_in(c, ch, x1, y1, z1)) || (x1 == e.0 && y1 == e.1
        && z1 == e.2 && light_in(c, ch, x1, y1, z1) == e.3 && dir_index(x2 - x1, y2 - y1, z2 - z1)
        >= 0) by {
        let lv = light_in(c, ch, x1, y1, z1);
        assert(queued(q, x1, y1, z1, lv));
        let k = choose|k: int|
            0 <= k < q.len() && #[trigger] q[k] == (x1 as u32, y1 as u32, z1 as u32, lv as u8);
        if k > 0 {
            assert(q2[k - 1] == q[k]);
        } else {
            assert(0 <= lv <= 15);
            assert(e.0 == x1 as u32);
            assert(x1 == e.0 as int);
            assert(y1 == e.1 as int);
            assert(z1 == e.2 as int);
            assert(lv == e.3 as int);
        }
    }
    if e.3 <= 1 {
        assert forall|x1: int, y1: int, z1: int, x2: int, y2: int, z2: int|
            #[trigger] adjacent(x1, y1, z1, x2, y2, z2) && in_bounds(c.side(), x1, y1, z1)
                && in_bounds(c.side(), x2, y2, z2) && passable(ch, c.voxel_at(x2, y2, z2).voxel_type)
                && active(c, ch, init, source, x1, y1, z1) && light_in(c, ch, x1, y1, z1) > 1
                && light_in(c, ch, x2, y2, z2) < light_in(c, ch, x1, y1, z1) - 1 implies queued(
            q2,
            x1,
            y1,
            z1,
            light_in(c, ch, x1, y1, z1),
        ) || (x1 == 0 && y1 == 0 && z1 == 0 && light_in(c, ch, x1, y1, z1) == 0 && dir_index(
            x2 - x1,
            y2 - y1,
            z2 - z1,
        ) >= 6) by {
            let lv = light_in(c, ch, x1, y1, z1);
            assert(queued(q, x1, y1, z1, lv));
            let k = choose|k: int|
                0 <= k < q.len() && #[trigger] q[k] == (x1 as u32, y1 as u32, z1 as u32, lv as u8);
            if k > 0 {
                assert(q2[k - 1] == q[k]);
            } else {
                assert(0 <= lv <= 15);
            }
        }
    }
}

/// Once every direction of the excepted cell has been handled, nothing is excepted.
proof fn lemma_close_exception(
    c: Chunk,
    ch: LightChannel,
    init: spec_fn(int, int, int) -> int,
    source: spec_fn(int, int, int) -> bool,
    q: Seq<LightEntry>,
    ex: int,
    ey: int,
    ez: int,
    elevel: int,
)
    requires
        pending_covered(c, ch, init, source, q, ex, ey, ez, elevel, 6),
    ensures
        pending_covered(c, ch, init, source, q, 0, 0, 0, 0, 6),
{
    assert forall|x1: int, y1: int, z1: int, x2: int, y2: int, z2: int|
        #[trigger] adjacent(x1, y1, z1, x2, y2, z2) && in_bounds(c.side(), x1, y1, z1) && in_bounds(
            c.side(),
            x2,
            y2,
            z2,
        ) && passable(ch, c.voxel_at(x2, y2, z2).voxel_type) && active(c, ch, init, source, x1, y1, z1)
            && light_in(c, ch, x1, y1, z1) > 1 && light_in(c, ch, x2, y2, z2) < light_in(
            c,
            ch,
            x1,
            y1,
            z1,
        ) - 1 implies queued(q, x1, y1, z1, light_in(c, ch, x1, y1, z1)) || (x1 == 0 && y1 == 0 && z1
        == 0 && light_in(c, ch, x1, y1, z1) == 0 && dir_index(x2 - x1, y2 - y1, z2 - z1) >= 6) by {
        lemma_adjacent_dir(x1, y1, z1, x2, y2, z2);
    }
}

/// Having checked direction `d` of the excepted cell, the exception shrinks.
proof fn lemma_advance_exception(
    c: Chunk,
    ch: LightChannel,
    init: spec_fn(int, int, int) -> int,
    source: spec_fn(int, int, int) -> bool,
    q: Seq<LightEntry>,
    ex: int,
    ey: int,
    ez: int,
    elevel: int,
    d: int,
)
    requires
        0 <= d < 6,
        pending_covered(c, ch, init, source, q, ex, ey, ez, elevel, d),
        in_bounds(c.side(), ex + dir_x(d), ey + dir_y(d), ez + dir_z(d)) && passable(
            ch,
            c.voxel_at(ex + dir_x(d), ey + dir_y(d), ez + dir_z(d)).voxel_type,
        ) ==> light_in(c, ch, ex + dir_x(d), ey + dir_y(d), ez + dir_z(d)) >= elevel - 1,
    ensures
        pending_covered(c, ch, init, source, q, ex, ey, ez, elevel, d + 1),
{
    assert forall|x1: int, y1: int, z1: int, x2: int, y2: int, z2: int|
        #[trigger] adjacent(x1, y1, z1, x2, y2, z2) && in_bounds(c.side(), x1, y1, z1) && in_bounds(
            c.side(),
            x2,
            y2,
            z2,
        ) && passable(ch, c.voxel_at(x2, y2, z2).voxel_type) && active(c, ch, init, source, x1, y1, z1)
            && light_in(c, ch, x1, y1, z1) > 1 && light_in(c, ch, x2, y2, z2) < light_in(
            c,
            ch,
            x1,
            y1,
            z1,
        ) - 1 implies queued(q, x1, y1, z1, light_in(c, ch, x1, y1, z1)) || (x1 == ex && y1 == ey
        && z1 == ez && light_in(c, ch, x1, y1, z1) == elevel && dir_index(x2 - x1, y2 - y1, z2 - z1)
        >= d + 1) by {
        lemma_adjacent_dir(x1, y1, z1, x2, y2, z2);
    }
}

/// Raising one passable cell and queueing it keeps every pending step covered.
proof fn lemma_raise_covered(
    c1: Chunk,
    c2: Chunk,
    ch: LightChannel,
    init: spec_fn(int, int, int) -> int,
    source: spec_fn(int, int, int) -> bool,
    q: Seq<LightEntry>,
    qx: int,
    qy: int,
    qz: int,
    v: int,
    ex: int,
    ey: int,
    ez: int,
    elevel: int,
    d: int,
)
    requires
        raised_at(c1, c2, ch, qx, qy, qz, v),
        in_bounds(c1.side(), qx, qy, qz),
        0 <= v <= 15,
        v > light_in(c1, ch, qx, qy, qz),
        !(qx == ex && qy == ey && qz == ez),
        pending_covered(c1, ch, init, source, q, ex, ey, ez, elevel, d),
    ensures
        pending_covered(c2, ch, init, source, q.push((qx as u32, qy as u32, qz as u32, v as u8)), ex, ey, ez, elevel, d),
{
    let q2 = q.push((qx as u32, qy as u32, qz as u32, v as u8));
    assert(q2[q.len() as int] == (qx as u32, qy as u32, qz as u32, v as u8));
    assert forall|x1: int, y1: int, z1: int, x2: int, y2: int, z2: int|
        #[trigger] adjacent(x1, y1, z1, x2, y2, z2) && in_bounds(c2.side(), x1, y1, z1) && in_bounds(
            c2.side(),
            x2,
            y2,
            z2,
        ) && passable(ch, c2.voxel_at(x2, y2, z2).voxel_type) && active(c2, ch, init, source, x1, y1, z1)
            && light_in(c2, ch, x1, y1, z1) > 1 && light_in(c2, ch, x2, y2, z2) < light_in(
            c2,
            ch,
            x1,
            y1,
            z1,
        ) - 1 implies queued(q2, x1, y1, z1, light_in(c2, ch, x1, y1, z1)) || (x1 == ex && y1 == ey
        && z1 == ez && light_in(c2, ch, x1, y1, z1) == elevel && dir_index(x2 - x1, y2 - y1, z2 - z1)
        >= d) by {
        assert(light_in(c2, ch, x1, y1, z1) == if x1 == qx && y1 == qy && z1 == qz {
            v
        } else {
            light_in(c1, ch, x1, y1, z1)
        });
        assert(light_in(c2, ch, x2, y2, z2) == if x2 == qx && y2 == qy && z2 == qz {
            v
        } else {
            light_in(c1, ch, x2, y2, z2)
        });
        if x1 == qx && y1 == qy && z1 == qz {
        } else {
            if queued(q, x1, y1, z1, light_in(c1, ch, x1, y1, z1)) {
                let k = choose|k: int|
                    0 <= k < q.len() && #[trigger] q[k] == (
                        x1 as u32,
                        y1 as u32,
                        z1 as u32,
                        light_in(c1, ch, x1, y1, z1) as u8,
                    );
                assert(q2[k] == q[k]);
            }
        }
    }
}

/// The unit step for direction `d`.
fn direction(d: usize) -> (r: (i32, i32, i32))
    requires
        d < 6,
    ensures
        r.0 == dir_x(d as int),
        r.1 == dir_y(d as int),
        r.2 == dir_z(d as int),
{
    if d == 0 {
        (1, 0, 0)
    } else if d == 1 {
        (-1, 0, 0)
    } else if d == 2 {
        (0, 1, 0)
    } else if d == 3 {
        (0, -1, 0)
    } else if d == 4 {
        (0, 0, 1)
    } else {
        (0, 0, -1)
    }
}

/// Raising a cell to one below an active neighbour's level keeps the levels
/// below every bound.
proof fn lemma_raise_bound(
    c1: Chunk,
    c2: Chunk,
    ch: LightChannel,
    init: spec_fn(int, int, int) -> int,
    source: spec_fn(int, int, int) -> bool,
    px: int,
    py: int,
    pz: int,
    level: int,
    qx: int,
    qy: int,
    qz: int,
)
    requires
        raised_at(c1, c2, ch, qx, qy, qz, level - 1),
        below_every_bound(c1, ch, init, source),
        adjacent(px, py, pz, qx, qy, qz),
        in_bounds(c1.side(), px, py, pz),
        in_bounds(c1.side(), qx, qy, qz),
        passable(ch, c1.voxel_at(qx, qy, qz).voxel_type),
        level <= light_in(c1, ch, px, py, pz),
        level > 1,
        source(px, py, pz) || level > init(px, py, pz),
    ensures
        below_every_bound(c2, ch, init, source),
{
    assert forall|l: spec_fn(int, int, int) -> int|
        #[trigger] is_light_bound(c2.voxel_seq(), c2.side(), ch, init, source, l) implies forall|
            x: int,
            y: int,
            z: int,
        | in_bounds(c2.side(), x, y, z) ==> #[trigger] light_in(c2, ch, x, y, z) <= l(x, y, z) by {
        assert(is_light_bound(c1.voxel_seq(), c1.side(), ch, init, source, l));
        assert(light_in(c1, ch, px, py, pz) <= l(px, py, pz));
        assert(adjacent(px, py, pz, qx, qy, qz));
        assert(l(qx, qy, qz) >= l(px, py, pz) - 1);
        assert forall|x: int, y: int, z: int| in_bounds(c2.side(), x, y, z) implies #[trigger] light_in(
            c2,
            ch,
            x,
            y,
            z,
        ) <= l(x, y, z) by {
            assert(light_in(c2, ch, x, y, z) == if x == qx && y == qy && z == qz {
                level - 1
            } else {
                light_in(c1, ch, x, y, z)
            });
        }
    }
}

/// Breadth-first flood fill of channel `ch` from the queued cells: each
/// popped cell at level > 1 raises every passable in-bounds neighbour whose
/// level is below its own level minus one, and queues it.
#[verifier::spinoff_prover]
#[verifier::rlimit(40)]
fn flood(
    chunk: &mut Chunk,
    queue: &mut VecDeque<LightEntry>,
    ch: LightChannel,
    Ghost(source): Ghost<spec_fn(int, int, int) -> bool>,
)
    requires
        old(chunk).wf(),
        forall|k: int|
            0 <= k < old(queue)@.len() ==> entry_ok(
                *old(chunk),
                ch,
                levels_of(*old(chunk), ch),
                source,
                #[trigger] old(queue)@[k],
            ),
        pending_covered(*old(chunk), ch, levels_of(*old(chunk), ch), source, old(queue)@, 0, 0, 0, 0, 6),
    ensures
        final(chunk).wf(),
        final(chunk).voxel_seq() == old(chunk).voxel_seq(),
        final(chunk).side() == old(chunk).side(),
        final(chunk).coord_of() == old(chunk).coord_of(),
        final(chunk).dirty_flag() == old(chunk).dirty_flag(),
        final(chunk).generated_flag() == old(chunk).generated_flag(),
        final(chunk).mesh_version_of() == old(chunk).mesh_version_of(),
        forall|x: int, y: int, z: int|
            #[trigger] light_in(*final(chunk), other(ch), x, y, z) == light_in(*old(chunk), other(ch), x, y, z),
        least_spread(*final(chunk), ch, levels_of(*old(chunk), ch), source),
{
    let ghost c0 = *chunk;
    let ghost init = levels_of(*chunk, ch);
    proof {
        lemma_side_small(chunk.side());
        assert forall|l: spec_fn(int, int, int) -> int|
            #[trigger] is_light_bound(chunk.voxel_seq(), chunk.side(), ch, init, source, l) implies forall|
                x: int,
                y: int,
                z: int,
            | in_bounds(chunk.side(), x, y, z) ==> #[trigger] light_in(*chunk, ch, x, y, z) <= l(x, y, z) by {
            assert forall|x: int, y: int, z: int| in_bounds(chunk.side(), x, y, z) implies #[trigger] light_in(
                *chunk,
                ch,
                x,
                y,
                z,
            ) <= l(x, y, z) by {
                assert(l(x, y, z) >= init(x, y, z));
            }
        }
    }
    let size = chunk.size();
    while queue.len() > 0
        invariant
            chunk.wf(),
            chunk.side() <= 1625,
            size == chunk.side(),
            chunk.voxel_seq() == c0.voxel_seq(),
            chunk.side() == c0.side(),
            chunk.coord_of() == c0.coord_of(),
            chunk.dirty_flag() == c0.dirty_flag(),
            chunk.generated_flag() == c0.generated_flag(),
            chunk.mesh_version_of() == c0.mesh_version_of(),
            init == levels_of(c0, ch),
            forall|x: int, y: int, z: int|
                #[trigger] light_in(*chunk, other(ch), x, y, z) == light_in(c0, other(ch), x, y, z),
            forall|x: int, y: int, z: int|
                in_bounds(chunk.side(), x, y, z) ==> #[trigger] light_in(*chunk, ch, x, y, z) >= init(
                    x,
                    y,
                    z,
                ),
            forall|k: int| 0 <= k < queue@.len() ==> entry_ok(*chunk, ch, init, source, #[trigger] queue@[k]),
            pending_covered(*chunk, ch, init, source, queue@, 0, 0, 0, 0, 6),
            below_every_bound(*chunk, ch, init, source),
        decreases 7 * byte_sum(chunk.light_seq(), deficit_weight(ch)) + queue@.len(),
    {
        let ghost m0 = 7 * byte_sum(chunk.light_seq(), deficit_weight(ch)) + queue@.len();
        proof {
            lemma_pop_covered(*chunk, ch, init, source, queue@);
        }
        let ghost q_before = queue@;
        let entry = queue.pop_front().unwrap();
        assert(entry == q_before[0]);
        assert(queue@ == q_before.subrange(1, q_before.len() as int));
        assert forall|k: int| 0 <= k < queue@.len() implies entry_ok(
            *chunk,
            ch,
            init,
            source,
            #[trigger] queue@[k],
        ) by {
            assert(queue@[k] == q_before[k + 1]);
        }
        let (x, y, z, level) = entry;
        assert(entry_ok(*chunk, ch, init, source, q_before[0]));
        if level > 1 {
            let new_level = level - 1;
            let mut d: usize = 0;
            while d < 6
                invariant
                    d <= 6,
                    chunk.wf(),
                    chunk.side() <= 1625,
                    size == chunk.side(),
                    chunk.voxel_seq() == c0.voxel_seq(),
                    chunk.side() == c0.side(),
                    chunk.coord_of() == c0.coord_of(),
                    chunk.dirty_flag() == c0.dirty_flag(),
                    chunk.generated_flag() == c0.generated_flag(),
                    chunk.mesh_version_of() == c0.mesh_version_of(),
                    init == levels_of(c0, ch),
                    forall|x: int, y: int, z: int|
                        #[trigger] light_in(*chunk, other(ch), x, y, z) == light_in(c0, other(ch), x, y, z),
                    forall|x: int, y: int, z: int|
                        in_bounds(chunk.side(), x, y, z) ==> #[trigger] light_in(*chunk, ch, x, y, z)
                            >= init(x, y, z),
                    forall|k: int|
                        0 <= k < queue@.len() ==> entry_ok(*chunk, ch, init, source, #[trigger] queue@[k]),
                    pending_covered(*chunk, ch, init, source, queue@, x as int, y as int, z as int, level as int, d as int),
                    below_every_bound(*chunk, ch, init, source),
                    in_bounds(chunk.side(), x as int, y as int, z as int),
                    1 < level <= light_in(*chunk, ch, x as int, y as int, z as int),
                    level <= 15,
                    new_level == level - 1,
                    source(x as int, y as int, z as int) || level > init(x as int, y as int, z as int),
                    7 * byte_sum(chunk.light_seq(), deficit_weight(ch)) + queue@.len() < m0,
                decreases 6 - d,
            {
                let (dx, dy, dz) = direction(d);
                let nx = x as i32 + dx;
                let ny = y as i32 + dy;
                let nz = z as i32 + dz;
                let ghost px = x as int;
                let ghost py = y as int;
                let ghost pz = z as int;
                let ghost qx = px + dir_x(d as int);
                let ghost qy = py + dir_y(d as int);
                let ghost qz = pz + dir_z(d as int);
                if !(nx < 0 || ny < 0 || nz < 0 || nx >= size as i32 || ny >= size as i32 || nz
                    >= size as i32) {
                    let ux = nx as u32;
                    let uy = ny as u32;
                    let uz = nz as u32;
                    let voxel = chunk.get_voxel(ux, uy, uz);
                    let props = BlockProperties::get(voxel.voxel_type);
                    let blocked = match ch {
                        LightChannel::Sun => !props.is_transparent && voxel.voxel_type
                            != VoxelType::Air,
                        LightChannel::Block => props.is_solid && !props.is_transparent,
                    };
                    if !blocked {
                        let (sun, blk) = chunk.get_light(ux, uy, uz);
                        let current = match ch {
                            LightChannel::Sun => sun,
                            LightChannel::Block => blk,
                        };
                        if new_level > current {
                            let ghost before = *chunk;
                            match ch {
                                LightChannel::Sun => chunk.set_light(ux, uy, uz, new_level, blk),
                                LightChannel::Block => chunk.set_light(ux, uy, uz, sun, new_level),
                            }
                            let ghost q_prev = queue@;
                            queue.push_back((ux, uy, uz, new_level));
                            proof {
                                assert(raised_at(before, *chunk, ch, qx, qy, qz, new_level as int));
                                assert forall|a: int, b: int, e: int|
                                    #[trigger] light_in(*chunk, other(ch), a, b, e) == light_in(
                                        c0,
                                        other(ch),
                                        a,
                                        b,
                                        e,
                                    ) by {
                                    assert(light_in(*chunk, other(ch), a, b, e) == light_in(
                                        before,
                                        other(ch),
                                        a,
                                        b,
                                        e,
                                    ));
                                }
                                assert(adjacent(px, py, pz, qx, qy, qz));
                                lemma_raise_covered(
                                    before,
                                    *chunk,
                                    ch,
                                    init,
                                    source,
                                    q_prev,
                                    qx,
                                    qy,
                                    qz,
                                    new_level as int,
                                    px,
                                    py,
                                    pz,
                                    level as int,
                                    d as int,
                                );
                                lemma_raise_bound(
                                    before,
                                    *chunk,
                                    ch,
                                    init,
                                    source,
                                    px,
                                    py,
                                    pz,
                                    level as int,
                                    qx,
                                    qy,
                                    qz,
                                );
                                assert forall|k: int| 0 <= k < queue@.len() implies entry_ok(
                                    *chunk,
                                    ch,
                                    init,
                                    source,
                                    #[trigger] queue@[k],
                                ) by {
                                    if k < q_prev.len() {
                                        assert(queue@[k] == q_prev[k]);
                                        assert(entry_ok(before, ch, init, source, q_prev[k]));
                                    }
                                }
                                let idx = cell_index(before.side(), qx, qy, qz);
                                crate::chunk::lemma_cell_index_bounds(before.side(), qx, qy, qz);
                                lemma_byte_sum_update(
                                    before.light_seq(),
                                    deficit_weight(ch),
                                    idx,
                                    chunk.light_seq()[idx],
                                );
                                assert(chunk.light_seq() == before.light_seq().update(
                                    idx,
                                    chunk.light_seq()[idx],
                                ));
                            }
                        }
                    }
                }
                proof {
                    lemma_advance_exception(
                        *chunk,
                        ch,
                        init,
                        source,
                        queue@,
                        x as int,
                        y as int,
                        z as int,
                        level as int,
                        d as int,
                    );
                }
                d = d + 1;
            }
            proof {
                lemma_close_exception(*chunk, ch, init, source, queue@, x as int, y as int, z as int, level as int);
            }
        }
    }
    proof {
        assert forall|x1: int, y1: int, z1: int, x2: int, y2: int, z2: int|
            #[trigger] adjacent(x1, y1, z1, x2, y2, z2) && in_bounds(chunk.side(), x1, y1, z1)
                && in_bounds(chunk.side(), x2, y2, z2) && passable(
                ch,
                chunk.voxel_at(x2, y2, z2).voxel_type,
            ) && active(*chunk, ch, init, source, x1, y1, z1) && light_in(*chunk, ch, x1, y1, z1)
                > 1 implies light_in(*chunk, ch, x2, y2, z2) >= light_in(*chunk, ch, x1, y1, z1) - 1 by {
            lemma_adjacent_dir(x1, y1, z1, x2, y2, z2);
        }
    }
}

/// Sunlight left after passing down into a voxel from a level of `above`:
/// air and transparent non-liquids let it through, liquids dim it by one,
/// anything else blocks it.
pub open spec fn sun_step(vt: VoxelType, above: int) -> int {
    if vt == VoxelType::Air || (vt.spec_is_transparent() && !vt.spec_is_liquid()) {
        above
    } else if vt.spec_is_liquid() {
        if above > 0 { above - 1 } else { 0 }
    } else {
        0
    }
}

/// Sunlight reaching (x, y, z) straight down its column from the top of the
/// chunk, starting at full strength 15.
pub open spec fn column_sun(vox: Seq<Voxel>, s: int, x: int, y: int, z: int) -> int
    decreases s - y,
{
    if y >= s {
        15
    } else {
        sun_step(vox_at(vox, s, x, y, z).voxel_type, column_sun(vox, s, x, y + 1, z))
    }
}

/// Sunlight after the vertical pass: the column value inside the chunk,
/// full sunlight outside.
pub open spec fn vertical_sun(vox: Seq<Voxel>, s: int) -> spec_fn(int, int, int) -> int {
    |x: int, y: int, z: int| if in_bounds(s, x, y, z) { column_sun(vox, s, x, y, z) } else { 15 }
}

/// Cells whose sunlight may spread: those lit above level 1.
pub open spec fn sun_sources(init: spec_fn(int, int, int) -> int) -> spec_fn(int, int, int) -> bool {
    |x: int, y: int, z: int| init(x, y, z) > 1
}

/// Block light emitted by the voxel at a cell.
pub open spec fn emission_at(vox: Seq<Voxel>, s: int, x: int, y: int, z: int) -> int {
    vox_at(vox, s, x, y, z).voxel_type.spec_light_emission() as int
}

/// Cells holding a light-emitting block.
pub open spec fn emitters(vox: Seq<Voxel>, s: int) -> spec_fn(int, int, int) -> bool {
    |x: int, y: int, z: int| emission_at(vox, s, x, y, z) > 0
}

/// Block light after seeding: each emitter at its emission level, every
/// other cell keeps its block light.
pub open spec fn block_seed(c: Chunk) -> spec_fn(int, int, int) -> int {
    |x: int, y: int, z: int|
        if emission_at(c.voxel_seq(), c.side(), x, y, z) > 0 {
            emission_at(c.voxel_seq(), c.side(), x, y, z)
        } else {
            c.block_light_at(x, y, z) as int
        }
}

/// Block light from emitters alone: their emission level, zero elsewhere.
pub open spec fn emission_seed(vox: Seq<Voxel>, s: int) -> spec_fn(int, int, int) -> int {
    |x: int, y: int, z: int| emission_at(vox, s, x, y, z)
}

/// Whether (a, b, c) comes before (x, y, z) when scanning z, then y, then x.
pub open spec fn scanned_before(a: int, b: int, c: int, x: int, y: int, z: int) -> bool {
    c < z || (c == z && (b < y || (b == y && a < x)))
}

/// Whether column (a, c) comes before column (x, z) when scanning z, then x.
pub open spec fn column_before(a: int, c: int, x: int, z: int) -> bool {
    c < z || (c == z && a < x)
}

/// A channel's least-spread property depends only on the voxels and that
/// channel's levels.
pub proof fn lemma_least_spread_transfer(
    c1: Chunk,
    c2: Chunk,
    ch: LightChannel,
    init: spec_fn(int, int, int) -> int,
    source: spec_fn(int, int, int) -> bool,
)
    requires
        least_spread(c1, ch, init, source),
        c2.voxel_seq() == c1.voxel_seq(),
        c2.side() == c1.side(),
        forall|x: int, y: int, z: int| #[trigger] light_in(c2, ch, x, y, z) == light_in(c1, ch, x, y, z),
    ensures
        least_spread(c2, ch, init, source),
{
    assert forall|x: int, y: int, z: int|
        in_bounds(c2.side(), x, y, z) implies #[trigger] light_in(c2, ch, x, y, z) >= init(x, y, z) by {
        assert(light_in(c1, ch, x, y, z) >= init(x, y, z));
    }
    assert forall|x1: int, y1: int, z1: int, x2: int, y2: int, z2: int|
        #[trigger] adjacent(x1, y1, z1, x2, y2, z2) && in_bounds(c2.side(), x1, y1, z1) && in_bounds(
            c2.side(),
            x2,
            y2,
            z2,
        ) && passable(ch, c2.voxel_at(x2, y2, z2).voxel_type) && active(c2, ch, init, source, x1, y1, z1)
            && light_in(c2, ch, x1, y1, z1) > 1 implies light_in(c2, ch, x2, y2, z2) >= light_in(
        c2,
        ch,
        x1,
        y1,
        z1,
    ) - 1 by {
        assert(light_in(c2, ch, x1, y1, z1) == light_in(c1, ch, x1, y1, z1));
        assert(light_in(c2, ch, x2, y2, z2) == light_in(c1, ch, x2, y2, z2));
    }
    assert forall|l: spec_fn(int, int, int) -> int|
        #[trigger] is_light_bound(c2.voxel_seq(), c2.side(), ch, init, source, l) implies forall|
            x: int,
            y: int,
            z: int,
        | in_bounds(c2.side(), x, y, z) ==> #[trigger] light_in(c2, ch, x, y, z) <= l(x, y, z) by {
        assert forall|x: int, y: int, z: int| in_bounds(c2.side(), x, y, z) implies #[trigger] light_in(
            c2,
            ch,
            x,
            y,
            z,
        ) <= l(x, y, z) by {
            assert(light_in(c1, ch, x, y, z) <= l(x, y, z));
        }
    }
}

/// The lighting engine computes and propagates light levels within chunks.
pub struct LightingEngine;

impl LightingEngine {
    /// Queue every cell whose sunlight exceeds 1 (scanning z, y, x), then
    /// spread sunlight sideways and down into neighbouring passable cells.
    fn spread_sunlight_horizontal(chunk: &mut Chunk)
        requires
            old(chunk).wf(),
        ensures
            final(chunk).wf(),
            final(chunk).voxel_seq() == old(chunk).voxel_seq(),
            final(chunk).side() == old(chunk).side(),
            final(chunk).coord_of() == old(chunk).coord_of(),
            final(chunk).dirty_flag() == old(chunk).dirty_flag(),
            final(chunk).generated_flag() == old(chunk).generated_flag(),
            final(chunk).mesh_version_of() == old(chunk).mesh_version_of(),
            forall|x: int, y: int, z: int|
                #[trigger] final(chunk).block_light_at(x, y, z) == old(chunk).block_light_at(x, y, z),
            least_spread(
                *final(chunk),
                LightChannel::Sun,
                levels_of(*old(chunk), LightChannel::Sun),
                sun_sources(levels_of(*old(chunk), LightChannel::Sun)),
            ),
    {
        let ghost c0 = *chunk;
        let ghost init = levels_of(*chunk, LightChannel::Sun);
        let ghost source = sun_sources(init);
        proof {
            lemma_side_small(chunk.side());
        }
        let size = chunk.size();
        let mut queue: VecDeque<LightEntry> = VecDeque::new();
        let mut z: u32 = 0;
        while z < size
            invariant
                z <= size,
                size == chunk.side(),
                size <= 1625,
                *chunk == c0,
                chunk.wf(),
                init == levels_of(c0, LightChannel::Sun),
                source == sun_sources(init),
                forall|k: int|
                    0 <= k < queue@.len() ==> entry_ok(*chunk, LightChannel::Sun, init, source, #[trigger] queue@[k]),
                forall|a: int, b: int, c: int|
                    in_bounds(size as int, a, b, c) && c < z && #[trigger] light_in(*chunk, LightChannel::Sun, a, b, c) > 1
                        ==> queued(queue@, a, b, c, light_in(*chunk, LightChannel::Sun, a, b, c)),
            decreases size - z,
        {
            let mut y: u32 = 0;
            while y < size
                invariant
                    z < size,
                    y <= size,
                    size == chunk.side(),
                    size <= 1625,
                    *chunk == c0,
                    chunk.wf(),
                    init == levels_of(c0, LightChannel::Sun),
                    source == sun_sources(init),
                    forall|k: int|
                        0 <= k < queue@.len() ==> entry_ok(*chunk, LightChannel::Sun, init, source, #[trigger] queue@[k]),
                    forall|a: int, b: int, c: int|
                        in_bounds(size as int, a, b, c) && (c < z || (c == z && b < y)) && #[trigger] light_in(*chunk, LightChannel::Sun, a, b, c) > 1
                            ==> queued(queue@, a, b, c, light_in(*chunk, LightChannel::Sun, a, b, c)),
                decreases size - y,
            {
                let mut x: u32 = 0;
                while x < size
                    invariant
                        z < size,
                        y < size,
                        x <= size,
                        size == chunk.side(),
                        size <= 1625,
                        *chunk == c0,
                        chunk.wf(),
                        init == levels_of(c0, LightChannel::Sun),
                        source == sun_sources(init),
                        forall|k: int|
                            0 <= k < queue@.len() ==> entry_ok(*chunk, LightChannel::Sun, init, source, #[trigger] queue@[k]),
                        forall|a: int, b: int, c: int|
                            in_bounds(size as int, a, b, c) && scanned_before(a, b, c, x as int, y as int, z as int)
                                && #[trigger] light_in(*chunk, LightChannel::Sun, a, b, c) > 1
                                ==> queued(queue@, a, b, c, light_in(*chunk, LightChannel::Sun, a, b, c)),
                    decreases size - x,
                {
                    let (sun, _) = chunk.get_light(x, y, z);
                    if sun > 1 {
                        let ghost q_prev = queue@;
                        queue.push_back((x, y, z, sun));
                        proof {
                            assert(queue@[q_prev.len() as int] == (x, y, z, sun));
                            assert forall|k: int| 0 <= k < queue@.len() implies entry_ok(
                                *chunk,
                                LightChannel::Sun,
                                init,
                                source,
                                #[trigger] queue@[k],
                            ) by {
                                if k < q_prev.len() {
                                    assert(queue@[k] == q_prev[k]);
                                }
                            }
                            assert forall|a: int, b: int, c: int|
                                in_bounds(size as int, a, b, c) && scanned_before(a, b, c, x + 1, y as int, z as int)
                                    && #[trigger] light_in(*chunk, LightChannel::Sun, a, b, c) > 1
                                    implies queued(queue@, a, b, c, light_in(*chunk, LightChannel::Sun, a, b, c)) by {
                                if a == x && b == y && c == z {
                                } else {
                                    let k = choose|k: int|
                                        0 <= k < q_prev.len() && #[trigger] q_prev[k] == (
                                            a as u32,
                                            b as u32,
                                            c as u32,
                                            light_in(*chunk, LightChannel::Sun, a, b, c) as u8,
                                        );
                                    assert(queue@[k] == q_prev[k]);
                                }
                            }
                        }
                    }
                    x = x + 1;
                }
                y = y + 1;
            }
            z = z + 1;
        }
        proof {
            assert forall|x1: int, y1: int, z1: int, x2: int, y2: int, z2: int|
                #[trigger] adjacent(x1, y1, z1, x2, y2, z2) && in_bounds(chunk.side(), x1, y1, z1)
                    && in_bounds(chunk.side(), x2, y2, z2) && passable(
                    LightChannel::Sun,
                    chunk.voxel_at(x2, y2, z2).voxel_type,
                ) && active(*chunk, LightChannel::Sun, init, source, x1, y1, z1) && light_in(
                    *chunk,
                    LightChannel::Sun,
                    x1,
                    y1,
                    z1,
                ) > 1 && light_in(*chunk, LightChannel::Sun, x2, y2, z2) < light_in(
                    *chunk,
                    LightChannel::Sun,
                    x1,
                    y1,
                    z1,
                ) - 1 implies queued(queue@, x1, y1, z1, light_in(*chunk, LightChannel::Sun, x1, y1, z1))
                || (x1 == 0 && y1 == 0 && z1 == 0 && light_in(*chunk, LightChannel::Sun, x1, y1, z1) == 0
                && dir_index(x2 - x1, y2 - y1, z2 - z1) >= 6) by {
            }
        }
        flood(chunk, &mut queue, LightChannel::Sun, Ghost(source));
        proof {
            assert(other(LightChannel::Sun) == LightChannel::Block);
            assert forall|x: int, y: int, z: int| #[trigger] chunk.block_light_at(x, y, z) == c0.block_light_at(
                x,
                y,
                z,
            ) by {
                assert(light_in(*chunk, other(LightChannel::Sun), x, y, z) == light_in(
                    c0,
                    other(LightChannel::Sun),
                    x,
                    y,
                    z,
                ));
            }
        }
    }

    /// Sunlight pass: every column is lit from the top down (full sunlight
    /// through air and transparent blocks, one level lost per liquid block,
    /// none below an opaque block), then sunlight spreads sideways.
    /// Block light is left as it was.
    pub fn propagate_sunlight(chunk: &mut Chunk)
        requires
            old(chunk).wf(),
        ensures
            final(chunk).wf(),
            final(chunk).voxel_seq() == old(chunk).voxel_seq(),
            final(chunk).side() == old(chunk).side(),
            final(chunk).coord_of() == old(chunk).coord_of(),
            final(chunk).dirty_flag() == old(chunk).dirty_flag(),
            final(chunk).generated_flag() == old(chunk).generated_flag(),
            final(chunk).mesh_version_of() == old(chunk).mesh_version_of(),
            forall|x: int, y: int, z: int|
                #[trigger] final(chunk).block_light_at(x, y, z) == old(chunk).block_light_at(x, y, z),
            least_spread(
                *final(chunk),
                LightChannel::Sun,
                vertical_sun(old(chunk).voxel_seq(), old(chunk).side()),
                sun_sources(vertical_sun(old(chunk).voxel_seq(), old(chunk).side())),
            ),
    {
        let ghost c0 = *chunk;
        let ghost vox = chunk.voxel_seq();
        let ghost sd = chunk.side();
        let size = chunk.size();
        let mut z: u32 = 0;
        while z < size
            invariant
                z <= size,
                size == sd,
                chunk.wf(),
                chunk.voxel_seq() == vox,
                chunk.side() == sd,
                vox == c0.voxel_seq(),
                sd == c0.side(),
                chunk.coord_of() == c0.coord_of(),
                chunk.dirty_flag() == c0.dirty_flag(),
                chunk.generated_flag() == c0.generated_flag(),
                chunk.mesh_version_of() == c0.mesh_version_of(),
                forall|a: int, b: int, c: int|
                    #[trigger] chunk.block_light_at(a, b, c) == c0.block_light_at(a, b, c),
                forall|a: int, b: int, c: int|
                    in_bounds(sd, a, b, c) && c < z ==> #[trigger] chunk.sun_at(a, b, c) == column_sun(
                        vox,
                        sd,
                        a,
                        b,
                        c,
                    ),
            decreases size - z,
        {
            let mut x: u32 = 0;
            while x < size
                invariant
                    z < size,
                    x <= size,
                    size == sd,
                    chunk.wf(),
                    chunk.voxel_seq() == vox,
                    chunk.side() == sd,
                    vox == c0.voxel_seq(),
                    sd == c0.side(),
                    chunk.coord_of() == c0.coord_of(),
                    chunk.dirty_flag() == c0.dirty_flag(),
                    chunk.generated_flag() == c0.generated_flag(),
                    chunk.mesh_version_of() == c0.mesh_version_of(),
                    forall|a: int, b: int, c: int|
                        #[trigger] chunk.block_light_at(a, b, c) == c0.block_light_at(a, b, c),
                    forall|a: int, b: int, c: int|
                        in_bounds(sd, a, b, c) && column_before(a, c, x as int, z as int)
                            ==> #[trigger] chunk.sun_at(a, b, c) == column_sun(vox, sd, a, b, c),
                decreases size - x,
            {
                let mut sun_level: u8 = 15;
                let mut yy: u32 = size;
                while yy > 0
                    invariant
                        z < size,
                        x < size,
                        yy <= size,
                        size == sd,
                        chunk.wf(),
                        chunk.voxel_seq() == vox,
                        chunk.side() == sd,
                        vox == c0.voxel_seq(),
                        sd == c0.side(),
                        chunk.coord_of() == c0.coord_of(),
                        chunk.dirty_flag() == c0.dirty_flag(),
                        chunk.generated_flag() == c0.generated_flag(),
                        chunk.mesh_version_of() == c0.mesh_version_of(),
                        sun_level == column_sun(vox, sd, x as int, yy as int, z as int),
                        sun_level <= 15,
                        forall|a: int, b: int, c: int|
                            #[trigger] chunk.block_light_at(a, b, c) == c0.block_light_at(a, b, c),
                        forall|a: int, b: int, c: int|
                            in_bounds(sd, a, b, c) && (column_before(a, c, x as int, z as int) || (a
                                == x && c == z && b >= yy)) ==> #[trigger] chunk.sun_at(a, b, c)
                                == column_sun(vox, sd, a, b, c),
                    decreases yy,
                {
                    yy = yy - 1;
                    let y = yy;
                    let voxel = chunk.get_voxel(x, y, z);
                    let props = BlockProperties::get(voxel.voxel_type);
                    if voxel.voxel_type == VoxelType::Air || (props.is_transparent && !props.is_liquid) {
                        let (_, block) = chunk.get_light(x, y, z);
                        chunk.set_light(x, y, z, sun_level, block);
                    } else if props.is_liquid {
                        if sun_level > 0 {
                            sun_level = sun_level - 1;
                        }
                        let (_, block) = chunk.get_light(x, y, z);
                        chunk.set_light(x, y, z, sun_level, block);
                    } else {
                        sun_level = 0;
                        let (_, block) = chunk.get_light(x, y, z);
                        chunk.set_light(x, y, z, 0, block);
                    }
                    assert(sun_level == column_sun(vox, sd, x as int, y as int, z as int));
                    assert(chunk.sun_at(x as int, y as int, z as int) == sun_level);
                }
                x = x + 1;
            }
            z = z + 1;
        }
        proof {
            assert(levels_of(*chunk, LightChannel::Sun) =~= vertical_sun(vox, sd)) by {
                assert forall|a: int, b: int, c: int|
                    #[trigger] levels_of(*chunk, LightChannel::Sun)(a, b, c) == vertical_sun(vox, sd)(
                        a,
                        b,
                        c,
                    ) by {
                    if in_bounds(sd, a, b, c) {
                        assert(chunk.sun_at(a, b, c) == column_sun(vox, sd, a, b, c));
                    }
                }
            }
        }
        let ghost c1 = *chunk;
        Self::spread_sunlight_horizontal(chunk);
        proof {
            assert forall|a: int, b: int, c: int|
                #[trigger] chunk.block_light_at(a, b, c) == c0.block_light_at(a, b, c) by {
                assert(chunk.block_light_at(a, b, c) == c1.block_light_at(a, b, c));
            }
        }
    }

    /// Block-light pass: every emitting block is set to its emission level
    /// and queued (scanning z, y, x), then block light floods out through
    /// every block that is not opaque and solid. Sunlight is left as it was.
    pub fn propagate_block_light(chunk: &mut Chunk)
        requires
            old(chunk).wf(),
        ensures
            final(chunk).wf(),
            final(chunk).voxel_seq() == old(chunk).voxel_seq(),
            final(chunk).side() == old(chunk).side(),
            final(chunk).coord_of() == old(chunk).coord_of(),
            final(chunk).dirty_flag() == old(chunk).dirty_flag(),
            final(chunk).generated_flag() == old(chunk).generated_flag(),
            final(chunk).mesh_version_of() == old(chunk).mesh_version_of(),
            forall|x: int, y: int, z: int|
                #[trigger] final(chunk).sun_at(x, y, z) == old(chunk).sun_at(x, y, z),
            least_spread(
                *final(chunk),
                LightChannel::Block,
                block_seed(*old(chunk)),
                emitters(old(chunk).voxel_seq(), old(chunk).side()),
            ),
    {
        let ghost c0 = *chunk;
        let ghost vox = chunk.voxel_seq();
        let ghost sd = chunk.side();
        let ghost init = block_seed(c0);
        let ghost source = emitters(vox, sd);
        proof {
            lemma_side_small(chunk.side());
        }
        let size = chunk.size();
        let mut queue: VecDeque<LightEntry> = VecDeque::new();
        let mut z: u32 = 0;
        while z < size
            invariant
                z <= size,
                size == sd,
                size <= 1625,
                chunk.wf(),
                chunk.voxel_seq() == vox,
                chunk.side() == sd,
                vox == c0.voxel_seq(),
                sd == c0.side(),
                chunk.coord_of() == c0.coord_of(),
                chunk.dirty_flag() == c0.dirty_flag(),
                chunk.generated_flag() == c0.generated_flag(),
                chunk.mesh_version_of() == c0.mesh_version_of(),
                init == block_seed(c0),
                source == emitters(vox, sd),
                forall|a: int, b: int, c: int| #[trigger] chunk.sun_at(a, b, c) == c0.sun_at(a, b, c),
                forall|a: int, b: int, c: int|
                    #[trigger] light_in(*chunk, LightChannel::Block, a, b, c) == if in_bounds(sd, a, b, c) && c < z {
                        init(a, b, c)
                    } else {
                        light_in(c0, LightChannel::Block, a, b, c)
                    },
                forall|k: int|
                    0 <= k < queue@.len() ==> entry_ok(*chunk, LightChannel::Block, init, source, #[trigger] queue@[k]),
                forall|k: int|
                    0 <= k < queue@.len() ==> (#[trigger] queue@[k]).2 < z,
                forall|a: int, b: int, c: int|
                    in_bounds(sd, a, b, c) && c < z && #[trigger] source(a, b, c)
                        ==> queued(queue@, a, b, c, light_in(*chunk, LightChannel::Block, a, b, c)),
            decreases size - z,
        {
            let mut y: u32 = 0;
            while y < size
                invariant
                    z < size,
                    y <= size,
                    size == sd,
                    size <= 1625,
                    chunk.wf(),
                    chunk.voxel_seq() == vox,
                    chunk.side() == sd,
                    vox == c0.voxel_seq(),
                    sd == c0.side(),
                    chunk.coord_of() == c0.coord_of(),
                    chunk.dirty_flag() == c0.dirty_flag(),
                    chunk.generated_flag() == c0.generated_flag(),
                    chunk.mesh_version_of() == c0.mesh_version_of(),
                    init == block_seed(c0),
                    source == emitters(vox, sd),
                    forall|a: int, b: int, c: int| #[trigger] chunk.sun_at(a, b, c) == c0.sun_at(a, b, c),
                    forall|a: int, b: int, c: int|
                        #[trigger] light_in(*chunk, LightChannel::Block, a, b, c) == if in_bounds(sd, a, b, c) && (c < z || (c == z && b < y)) {
                            init(a, b, c)
                        } else {
                            light_in(c0, LightChannel::Block, a, b, c)
                        },
                    forall|k: int|
                        0 <= k < queue@.len() ==> entry_ok(*chunk, LightChannel::Block, init, source, #[trigger] queue@[k]),
                    forall|k: int|
                        0 <= k < queue@.len() ==> ((#[trigger] queue@[k]).2 < z || (queue@[k].2 == z && queue@[k].1 < y)),
                    forall|a: int, b: int, c: int|
                        in_bounds(sd, a, b, c) && (c < z || (c == z && b < y)) && #[trigger] source(a, b, c)
                            ==> queued(queue@, a, b, c, light_in(*chunk, LightChannel::Block, a, b, c)),
                decreases size - y,
            {
                let mut x: u32 = 0;
                while x < size
                    invariant
                        z < size,
                        y < size,
                        x <= size,
                        size == sd,
                        size <= 1625,
                        chunk.wf(),
                        chunk.voxel_seq() == vox,
                        chunk.side() == sd,
                        vox == c0.voxel_seq(),
                        sd == c0.side(),
                        chunk.coord_of() == c0.coord_of(),
                        chunk.dirty_flag() == c0.dirty_flag(),
                        chunk.generated_flag() == c0.generated_flag(),
                        chunk.mesh_version_of() == c0.mesh_version_of(),
                        init == block_seed(c0),
                        source == emitters(vox, sd),
                        forall|a: int, b: int, c: int| #[trigger] chunk.sun_at(a, b, c) == c0.sun_at(a, b, c),
                        forall|a: int, b: int, c: int|
                            #[trigger] light_in(*chunk, LightChannel::Block, a, b, c) == if in_bounds(sd, a, b, c) && scanned_before(a, b, c, x as int, y as int, z as int) {
                                init(a, b, c)
                            } else {
                                light_in(c0, LightChannel::Block, a, b, c)
                            },
                        forall|k: int|
                            0 <= k < queue@.len() ==> entry_ok(*chunk, LightChannel::Block, init, source, #[trigger] queue@[k]),
                        forall|k: int|
                            0 <= k < queue@.len() ==> scanned_before((#[trigger] queue@[k]).0 as int, queue@[k].1 as int, queue@[k].2 as int, x as int, y as int, z as int),
                        forall|a: int, b: int, c: int|
                            in_bounds(sd, a, b, c) && scanned_before(a, b, c, x as int, y as int, z as int)
                                && #[trigger] source(a, b, c)
                                ==> queued(queue@, a, b, c, light_in(*chunk, LightChannel::Block, a, b, c)),
                    decreases size - x,
                {
                    let voxel = chunk.get_voxel(x, y, z);
                    let props = BlockProperties::get(voxel.voxel_type);
                    assert(props.light_level == emission_at(vox, sd, x as int, y as int, z as int));
                    if props.light_level > 0 {
                        let ghost before = *chunk;
                        let (sun, _) = chunk.get_light(x, y, z);
                        chunk.set_light(x, y, z, sun, props.light_level);
                        let ghost q_prev = queue@;
                        queue.push_back((x, y, z, props.light_level));
                        proof {
                            assert(chunk.block_light_at(x as int, y as int, z as int) == props.light_level);
                            assert(light_in(*chunk, LightChannel::Block, x as int, y as int, z as int) == init(x as int, y as int, z as int));
                            assert forall|a: int, b: int, c: int|
                                #[trigger] light_in(*chunk, LightChannel::Block, a, b, c) == if in_bounds(sd, a, b, c)
                                    && scanned_before(a, b, c, x + 1, y as int, z as int) {
                                    init(a, b, c)
                                } else {
                                    light_in(c0, LightChannel::Block, a, b, c)
                                } by {
                                if !(a == x && b == y && c == z) {
                                    assert(chunk.block_light_at(a, b, c) == before.block_light_at(a, b, c));
                                    assert(light_in(before, LightChannel::Block, a, b, c) == if in_bounds(sd, a, b, c)
                                        && scanned_before(a, b, c, x as int, y as int, z as int) {
                                        init(a, b, c)
                                    } else {
                                        light_in(c0, LightChannel::Block, a, b, c)
                                    });
                                }
                            }
                            assert(queue@[q_prev.len() as int] == (x, y, z, props.light_level));
                            assert forall|k: int| 0 <= k < queue@.len() implies entry_ok(
                                *chunk,
                                LightChannel::Block,
                                init,
                                source,
                                #[trigger] queue@[k],
                            ) by {
                                if k < q_prev.len() {
                                    assert(queue@[k] == q_prev[k]);
                                    assert(entry_ok(before, LightChannel::Block, init, source, q_prev[k]));
                                    assert(scanned_before(q_prev[k].0 as int, q_prev[k].1 as int, q_prev[k].2 as int, x as int, y as int, z as int));
                                }
                            }
                            assert forall|a: int, b: int, c: int|
                                in_bounds(sd, a, b, c) && scanned_before(a, b, c, x + 1, y as int, z as int)
                                    && #[trigger] source(a, b, c)
                                    implies queued(queue@, a, b, c, light_in(*chunk, LightChannel::Block, a, b, c)) by {
                                if a == x && b == y && c == z {
                                } else {
                                    assert(light_in(*chunk, LightChannel::Block, a, b, c) == light_in(before, LightChannel::Block, a, b, c));
                                    let k = choose|k: int|
                                        0 <= k < q_prev.len() && #[trigger] q_prev[k] == (
                                            a as u32,
                                            b as u32,
                                            c as u32,
                                            light_in(before, LightChannel::Block, a, b, c) as u8,
                                        );
                                    assert(queue@[k] == q_prev[k]);
                                }
                            }
                        }
                    }
                    else {
                        assert(light_in(*chunk, LightChannel::Block, x as int, y as int, z as int) == init(x as int, y as int, z as int));
                    }
                    x = x + 1;
                }
                y = y + 1;
            }
            z = z + 1;
        }
        proof {
            assert(levels_of(*chunk, LightChannel::Block) =~= init) by {
                assert forall|a: int, b: int, c: int|
                    #[trigger] levels_of(*chunk, LightChannel::Block)(a, b, c) == init(a, b, c) by {
                    assert(light_in(*chunk, LightChannel::Block, a, b, c) == if in_bounds(sd, a, b, c) && a < 0 {
                        0
                    } else if in_bounds(sd, a, b, c) {
                        init(a, b, c)
                    } else {
                        light_in(c0, LightChannel::Block, a, b, c)
                    });
                }
            }
            assert forall|x1: int, y1: int, z1: int, x2: int, y2: int, z2: int|
                #[trigger] adjacent(x1, y1, z1, x2, y2, z2) && in_bounds(chunk.side(), x1, y1, z1)
                    && in_bounds(chunk.side(), x2, y2, z2) && passable(
                    LightChannel::Block,
                    chunk.voxel_at(x2, y2, z2).voxel_type,
                ) && active(*chunk, LightChannel::Block, init, source, x1, y1, z1) && light_in(
                    *chunk,
                    LightChannel::Block,
                    x1,
                    y1,
                    z1,
                ) > 1 && light_in(*chunk, LightChannel::Block, x2, y2, z2) < light_in(
                    *chunk,
                    LightChannel::Block,
                    x1,
                    y1,
                    z1,
                ) - 1 implies queued(queue@, x1, y1, z1, light_in(*chunk, LightChannel::Block, x1, y1, z1))
                || (x1 == 0 && y1 == 0 && z1 == 0 && light_in(*chunk, LightChannel::Block, x1, y1, z1) == 0
                && dir_index(x2 - x1, y2 - y1, z2 - z1) >= 6) by {
                assert(source(x1, y1, z1));
            }
        }
        let ghost c1 = *chunk;
        flood(chunk, &mut queue, LightChannel::Block, Ghost(source));
        proof {
            assert(other(LightChannel::Block) == LightChannel::Sun);
            assert forall|a: int, b: int, c: int| #[trigger] chunk.sun_at(a, b, c) == c0.sun_at(a, b, c) by {
                assert(light_in(*chunk, other(LightChannel::Block), a, b, c) == light_in(
                    c1,
                    other(LightChannel::Block),
                    a,
                    b,
                    c,
                ));
                assert(c1.sun_at(a, b, c) == c0.sun_at(a, b, c));
            }
        }
    }
    /// Compute all lighting for a chunk from scratch: clear every level,
    /// run the sunlight pass, then the block-light pass.
    pub fn compute_lighting(chunk: &mut Chunk)
        requires
            old(chunk).wf(),
        ensures
            final(chunk).wf(),
            final(chunk).voxel_seq() == old(chunk).voxel_seq(),
            final(chunk).side() == old(chunk).side(),
            final(chunk).coord_of() == old(chunk).coord_of(),
            final(chunk).dirty_flag() == old(chunk).dirty_flag(),
            final(chunk).generated_flag() == old(chunk).generated_flag(),
            final(chunk).mesh_version_of() == old(chunk).mesh_version_of(),
            least_spread(
                *final(chunk),
                LightChannel::Sun,
                vertical_sun(old(chunk).voxel_seq(), old(chunk).side()),
                sun_sources(vertical_sun(old(chunk).voxel_seq(), old(chunk).side())),
            ),
            least_spread(
                *final(chunk),
                LightChannel::Block,
                emission_seed(old(chunk).voxel_seq(), old(chunk).side()),
                emitters(old(chunk).voxel_seq(), old(chunk).side()),
            ),
    {
        let ghost vox = chunk.voxel_seq();
        let ghost sd = chunk.side();
        chunk.clear_light();
        let ghost c1 = *chunk;
        Self::propagate_sunlight(chunk);
        let ghost c2 = *chunk;
        proof {
            assert(block_seed(c2) =~= emission_seed(vox, sd)) by {
                assert forall|a: int, b: int, c: int| #[trigger] block_seed(c2)(a, b, c) == emission_seed(
                    vox,
                    sd,
                )(a, b, c) by {
                    if in_bounds(sd, a, b, c) {
                        assert(c1.block_light_at(a, b, c) == 0);
                        assert(c2.block_light_at(a, b, c) == c1.block_light_at(a, b, c));
                    }
                }
            }
        }
        Self::propagate_block_light(chunk);
        proof {
            assert forall|x: int, y: int, z: int| #[trigger] light_in(*chunk, LightChannel::Sun, x, y, z)
                == light_in(c2, LightChannel::Sun, x, y, z) by {
                assert(chunk.sun_at(x, y, z) == c2.sun_at(x, y, z));
            }
            lemma_least_spread_transfer(
                c2,
                *chunk,
                LightChannel::Sun,
                vertical_sun(vox, sd),
                sun_sources(vertical_sun(vox, sd)),
            );
        }
    }

    /// Recompute lighting after a block change (a full recomputation).
    pub fn recompute_lighting(chunk: &mut Chunk)
        requires
            old(chunk).wf(),
        ensures
            final(chunk).wf(),
            final(chunk).voxel_seq() == old(chunk).voxel_seq(),
            final(chunk).side() == old(chunk).side(),
            final(chunk).coord_of() == old(chunk).coord_of(),
            final(chunk).dirty_flag() == old(chunk).dirty_flag(),
            final(chunk).generated_flag() == old(chunk).generated_flag(),
            final(chunk).mesh_version_of() == old(chunk).mesh_version_of(),
            least_spread(
                *final(chunk),
                LightChannel::Sun,
                vertical_sun(old(chunk).voxel_seq(), old(chunk).side()),
                sun_sources(vertical_sun(old(chunk).voxel_seq(), old(chunk).side())),
            ),
            least_spread(
                *final(chunk),
                LightChannel::Block,
                emission_seed(old(chunk).voxel_seq(), old(chunk).side()),
                emitters(old(chunk).voxel_seq(), old(chunk).side()),
            ),
    {
        Self::compute_lighting(chunk);
    }
}

/// Combined light level (the brighter of sunlight and block light, 0-15) at
/// local cell (x, y, z) of the chunk at `coord`; 0 when that chunk is not
/// loaded or the cell lies outside it.
pub fn light_level_in_chunk(chunk_manager: &ChunkManager, coord: &ChunkCoord, x: i32, y: i32, z: i32) -> (r: u8)
    requires
        chunk_manager.wf(),
    ensures
        r == if chunk_manager.loaded().contains_key(coord_key(*coord)) && in_bounds(
            chunk_manager.loaded()[coord_key(*coord)].side(),
            x as int,
            y as int,
            z as int,
        ) {
            let c = chunk_manager.loaded()[coord_key(*coord)];
            if c.sun_at(x as int, y as int, z as int) >= c.block_light_at(x as int, y as int, z as int) {
                c.sun_at(x as int, y as int, z as int)
            } else {
                c.block_light_at(x as int, y as int, z as int)
            }
        } else {
            0
        },
{
    match chunk_manager.get_chunk(coord) {
        Some(chunk) => {
            let cs = chunk.size();
            if x >= 0 && y >= 0 && z >= 0 && (x as u32) < cs && (y as u32) < cs && (z as u32) < cs {
                let (sun, block) = chunk.get_light(x as u32, y as u32, z as u32);
                if sun >= block {
                    sun
                } else {
                    block
                }
            } else {
                0
            }
        },
        None => 0,
    }
}

} // verus!
