//! Index layout of the shadow-square panels that orbit between the sun and
//! the ring.
use vstd::prelude::*;

verus! {

/// Arc segments per square panel (so the panel hugs its orbit circle).
pub const PANEL_ARC_SEGMENTS: u32 = 8;

/// Vertices per panel: two (one per axial edge) at each of the segment ends.
pub open spec fn verts_per_panel() -> int {
    (PANEL_ARC_SEGMENTS + 1) * 2
}

/// Index `j` (0..6) of strip segment `s` of panel `k`: the two triangles
/// (a, b, c) and (c, b, d) over the segment's four corners, where a and b
/// are the segment's start and c and d its end.
pub open spec fn panel_index(k: int, s: int, j: int) -> int {
    let a = k * verts_per_panel() + s * 2;
    if j == 0 {
        a
    } else if j == 1 {
        a + 1
    } else if j == 2 {
        a + 2
    } else if j == 3 {
        a + 2
    } else if j == 4 {
        a + 1
    } else {
        a + 3
    }
}

/// Position of index `j` of segment `s` of panel `k` in the index list.
pub open spec fn panel_slot(k: int, s: int, j: int) -> int {
    (k * PANEL_ARC_SEGMENTS + s) * 6 + j
}

/// Triangle indices for `count` panels, panel by panel and segment by segment.
pub fn shadow_panel_indices(count: u32) -> (r: Vec<u32>)
    requires
        count * verts_per_panel() <= u32::MAX,
    ensures
        r.len() == count * PANEL_ARC_SEGMENTS * 6,
        forall|k: int, s: int, j: int|
            0 <= k < count && 0 <= s < PANEL_ARC_SEGMENTS && 0 <= j < 6 ==> #[trigger] r@[panel_slot(k, s, j)]
                == panel_index(k, s, j),
{
    let mut idx: Vec<u32> = Vec::new();
    let verts = (PANEL_ARC_SEGMENTS + 1) * 2;
    let mut k: u32 = 0;
    while k < count
        invariant
            k <= count,
            verts == verts_per_panel(),
            count * verts_per_panel() <= u32::MAX,
            idx.len() == k * PANEL_ARC_SEGMENTS * 6,
            forall|k2: int, s: int, j: int|
                0 <= k2 < k && 0 <= s < PANEL_ARC_SEGMENTS && 0 <= j < 6 ==> #[trigger] idx@[panel_slot(k2, s, j)]
                    == panel_index(k2, s, j),
        decreases count - k,
    {
        assert(k * verts + verts <= count * verts) by (nonlinear_arith)
            requires
                k < count,
                verts > 0,
        ;
        let base = k * verts;
        let mut s: u32 = 0;
        while s < PANEL_ARC_SEGMENTS
            invariant
                k < count,
                s <= PANEL_ARC_SEGMENTS,
                verts == verts_per_panel(),
                base == k * verts,
                base + verts <= u32::MAX,
                idx.len() == (k * PANEL_ARC_SEGMENTS + s) * 6,
                forall|k2: int, s2: int, j: int|
                    0 <= k2 < k && 0 <= s2 < PANEL_ARC_SEGMENTS && 0 <= j < 6 ==> #[trigger] idx@[panel_slot(k2, s2, j)]
                        == panel_index(k2, s2, j),
                forall|s2: int, j: int|
                    0 <= s2 < s && 0 <= j < 6 ==> #[trigger] idx@[panel_slot(k as int, s2, j)] == panel_index(
                        k as int,
                        s2,
                        j,
                    ),
            decreases PANEL_ARC_SEGMENTS - s,
        {
            let a = base + s * 2;
            let b = a + 1;
            let c = a + 2;
            let d = a + 3;
            let ghost before = idx@;
            idx.push(a);
            idx.push(b);
            idx.push(c);
            idx.push(c);
            idx.push(b);
            idx.push(d);
            proof {
                assert forall|k2: int, s2: int, j: int|
                    0 <= k2 < k && 0 <= s2 < PANEL_ARC_SEGMENTS && 0 <= j < 6 implies #[trigger] idx@[panel_slot(
                        k2,
                        s2,
                        j,
                    )] == panel_index(k2, s2, j) by {
                    assert(panel_slot(k2, s2, j) < (k * PANEL_ARC_SEGMENTS) * 6) by (nonlinear_arith)
                        requires
                            0 <= k2 < k,
                            0 <= s2 < 8,
                            0 <= j < 6,
                    ;
                    assert(idx@[panel_slot(k2, s2, j)] == before[panel_slot(k2, s2, j)]);
                }
                assert forall|s2: int, j: int| 0 <= s2 < s + 1 && 0 <= j < 6 implies #[trigger] idx@[panel_slot(
                    k as int,
                    s2,
                    j,
                )] == panel_index(k as int, s2, j) by {
                    if s2 < s {
                        assert(idx@[panel_slot(k as int, s2, j)] == before[panel_slot(k as int, s2, j)]);
                    }
                }
            }
            s = s + 1;
        }
        k = k + 1;
    }
    idx
}

/// Every panel index names one of the panels' vertices.
pub proof fn lemma_panel_indices_in_range(count: int, k: int, s: int, j: int)
    requires
        0 <= k < count,
        0 <= s < PANEL_ARC_SEGMENTS,
        0 <= j < 6,
    ensures
        0 <= panel_index(k, s, j) < count * verts_per_panel(),
{
    assert(panel_index(k, s, j) < count * verts_per_panel()) by (nonlinear_arith)
        requires
            0 <= k < count,
            0 <= s < 8,
            0 <= j < 6,
            panel_index(k, s, j) <= k * 18 + s * 2 + 3,
            verts_per_panel() == 18,
    ;
}

} // verus!
