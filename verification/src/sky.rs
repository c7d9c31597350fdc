//! Index layout of the sky's sun mesh: a disk fan plus a glow ring.
use vstd::prelude::*;

verus! {

/// Number of segments around the sun's disk and glow ring.
pub const SUN_SEGMENTS: u32 = 48;

/// Number of sun vertices for `segments` segments: the centre, the rim ring
/// and the glow ring.
pub open spec fn sun_vertex_count(segments: int) -> int {
    1 + 2 * segments
}

/// Index `k` (0..9) of segment `s` out of `segments`: the fan triangle
/// (centre, rim s, rim next) then the glow quad as two triangles
/// (rim s, glow s, glow next) and (rim s, glow next, rim next).
pub open spec fn sun_index(segments: int, s: int, k: int) -> int {
    let next = (s + 1) % segments;
    let rim_s = 1 + s;
    let rim_n = 1 + next;
    let glow_s = 1 + segments + s;
    let glow_n = 1 + segments + next;
    if k == 0 {
        0
    } else if k == 1 {
        rim_s
    } else if k == 2 {
        rim_n
    } else if k == 3 {
        rim_s
    } else if k == 4 {
        glow_s
    } else if k == 5 {
        glow_n
    } else if k == 6 {
        rim_s
    } else if k == 7 {
        glow_n
    } else {
        rim_n
    }
}

/// The sun's triangle index list: nine indices per segment, segment by segment.
pub fn sun_fan_indices(segments: u32) -> (r: Vec<u32>)
    requires
        sun_vertex_count(segments as int) <= u32::MAX,
    ensures
        r.len() == 9 * segments,
        forall|s: int, k: int|
            0 <= s < segments && 0 <= k < 9 ==> #[trigger] r@[9 * s + k] == sun_index(segments as int, s, k),
{
    let mut indices: Vec<u32> = Vec::new();
    let mut s: u32 = 0;
    while s < segments
        invariant
            s <= segments,
            sun_vertex_count(segments as int) <= u32::MAX,
            indices.len() == 9 * s,
            forall|t: int, k: int|
                0 <= t < s && 0 <= k < 9 ==> #[trigger] indices@[9 * t + k] == sun_index(segments as int, t, k),
        decreases segments - s,
    {
        let next = (s + 1) % segments;
        let rim_s = 1 + s;
        let rim_n = 1 + next;
        let glow_s = 1 + segments + s;
        let glow_n = 1 + segments + next;
        let ghost before = indices@;
        indices.push(0);
        indices.push(rim_s);
        indices.push(rim_n);
        indices.push(rim_s);
        indices.push(glow_s);
        indices.push(glow_n);
        indices.push(rim_s);
        indices.push(glow_n);
        indices.push(rim_n);
        proof {
            assert forall|t: int, k: int| 0 <= t < s + 1 && 0 <= k < 9 implies #[trigger] indices@[9 * t + k]
                == sun_index(segments as int, t, k) by {
                if t < s {
                    assert(indices@[9 * t + k] == before[9 * t + k]);
                }
            }
        }
        s = s + 1;
    }
    indices
}

/// Every index of the sun mesh names one of its vertices.
pub proof fn lemma_sun_indices_in_range(segments: int, s: int, k: int)
    requires
        0 <= s < segments,
        0 <= k < 9,
    ensures
        0 <= sun_index(segments, s, k) < sun_vertex_count(segments),
{
}

} // verus!
