//! The save-file format: a versioned little-endian byte layout holding the
//! player's state, the shadow-square phase and the per-chunk edit overlay.
//!
//! Layout (all little-endian):
//!   magic     8 bytes  "RINGSAV" then the format version 1
//!   player    3 x u64  (theta, y, height) as IEEE-754 f64 bit patterns
//!   spawn     3 x u64  respawn point, likewise
//!   health    u32      f32 bit pattern
//!   hotbar    u8
//!   creative  u8 (0 or 1)
//!   phase     u64      f64 bit pattern of the shadow-square orbital phase
//!   inv_len   u32, then per slot: u8 present; if 1: u8 item_type, u32 count
//!   n_chunks  u32, then per chunk: u32 ring, u32 width, u32 height,
//!             u32 n_edits, then per edit: u16 local_index, u8 voxel_type
//!
//! Floating-point values are carried as their bit patterns, so a value
//! written is read back bit for bit.
use vstd::prelude::*;

verus! {

/// Largest inventory a save may hold.
pub const MAX_SAVED_SLOTS: u32 = 1024;

/// Largest number of edits a single chunk may hold (one per voxel of a
/// 16-voxel chunk).
pub const MAX_CHUNK_EDITS: u32 = 4096;

/// Byte offset of the inventory length, just past the fixed header.
pub const HEADER_LEN: usize = 74;

// ---------------------------------------------------------------------
// Little-endian integers
// ---------------------------------------------------------------------

/// The low `n` bytes of `v`, least significant first.
pub open spec fn le_bytes(v: nat, n: nat) -> Seq<u8>
    decreases n,
{
    if n == 0 {
        Seq::empty()
    } else {
        seq![(v % 256) as u8] + le_bytes(v / 256, (n - 1) as nat)
    }
}

/// The number whose little-endian bytes are `s`.
pub open spec fn le_value(s: Seq<u8>) -> nat
    decreases s.len(),
{
    if s.len() == 0 {
        0
    } else {
        s[0] as nat + 256 * le_value(s.drop_first())
    }
}

/// 256 to the power `n`.
pub open spec fn pow256(n: nat) -> nat
    decreases n,
{
    if n == 0 {
        1
    } else {
        256 * pow256((n - 1) as nat)
    }
}

/// Writing `n` bytes of a value below 256^n and reading them back gives the value.
pub proof fn lemma_le_round_trip(v: nat, n: nat)
    requires
        v < pow256(n),
    ensures
        le_bytes(v, n).len() == n,
        le_value(le_bytes(v, n)) == v,
    decreases n,
{
    if n > 0 {
        assert(v / 256 < pow256((n - 1) as nat));
        lemma_le_round_trip(v / 256, (n - 1) as nat);
        assert(le_bytes(v, n).drop_first() =~= le_bytes(v / 256, (n - 1) as nat));
    }
}

/// A byte string's value is below 256 to the power of its length.
pub proof fn lemma_le_value_bound(s: Seq<u8>)
    ensures
        le_value(s) < pow256(s.len()),
    decreases s.len(),
{
    if s.len() > 0 {
        lemma_le_value_bound(s.drop_first());
    }
}

/// The powers of 256 used by the format.
pub proof fn lemma_pow256_values()
    ensures
        pow256(1) == 0x100,
        pow256(2) == 0x1_0000,
        pow256(4) == 0x1_0000_0000,
        pow256(8) == 0x1_0000_0000_0000_0000,
{
    reveal_with_fuel(pow256, 9);
}

/// Little-endian bytes of a `u16`.
pub open spec fn enc_u16(v: u16) -> Seq<u8> {
    le_bytes(v as nat, 2)
}

/// Little-endian bytes of a `u32`.
pub open spec fn enc_u32(v: u32) -> Seq<u8> {
    le_bytes(v as nat, 4)
}

/// Little-endian bytes of a `u64`.
pub open spec fn enc_u64(v: u64) -> Seq<u8> {
    le_bytes(v as nat, 8)
}

// ---------------------------------------------------------------------
// The saved value and its encoding
// ---------------------------------------------------------------------

/// What a save holds, with its lists as sequences.
pub struct WorldSaveView {
    pub player_position: (u64, u64, u64),
    pub spawn_position: (u64, u64, u64),
    pub health: u32,
    pub hotbar_index: u8,
    pub creative_mode: bool,
    pub shadow_phase: u64,
    pub inventory: Seq<Option<(u8, u32)>>,
    pub edits: Seq<((u32, u32, u32), Seq<(u16, u8)>)>,
}

/// The format's magic number: "RINGSAV" and the format version.
pub open spec fn magic_bytes() -> Seq<u8> {
    seq![0x52u8, 0x49, 0x4E, 0x47, 0x53, 0x41, 0x56, 0x01]
}

/// One inventory slot: a presence byte, then the item and count if present.
pub open spec fn enc_slot(s: Option<(u8, u32)>) -> Seq<u8> {
    match s {
        Some((item, count)) => seq![1u8, item] + enc_u32(count),
        None => seq![0u8],
    }
}

/// The slots, one after another.
pub open spec fn enc_slots(s: Seq<Option<(u8, u32)>>) -> Seq<u8>
    decreases s.len(),
{
    if s.len() == 0 {
        Seq::empty()
    } else {
        enc_slots(s.drop_last()) + enc_slot(s.last())
    }
}

/// One edit: its local voxel index, then the voxel type code.
pub open spec fn enc_edit(e: (u16, u8)) -> Seq<u8> {
    enc_u16(e.0) + seq![e.1]
}

/// The edits, one after another.
pub open spec fn enc_edits(l: Seq<(u16, u8)>) -> Seq<u8>
    decreases l.len(),
{
    if l.len() == 0 {
        Seq::empty()
    } else {
        enc_edits(l.drop_last()) + enc_edit(l.last())
    }
}

/// One chunk's overlay: its coordinate, the edit count, then the edits.
pub open spec fn enc_chunk(c: ((u32, u32, u32), Seq<(u16, u8)>)) -> Seq<u8> {
    enc_u32(c.0.0) + enc_u32(c.0.1) + enc_u32(c.0.2) + enc_u32(c.1.len() as u32) + enc_edits(c.1)
}

/// The chunk overlays, one after another.
pub open spec fn enc_chunks(l: Seq<((u32, u32, u32), Seq<(u16, u8)>)>) -> Seq<u8>
    decreases l.len(),
{
    if l.len() == 0 {
        Seq::empty()
    } else {
        enc_chunks(l.drop_last()) + enc_chunk(l.last())
    }
}

/// The fixed-size part of a save, up to and including the inventory length.
pub open spec fn enc_header(m: WorldSaveView) -> Seq<u8> {
    magic_bytes() + enc_u64(m.player_position.0) + enc_u64(m.player_position.1) + enc_u64(
        m.player_position.2,
    ) + enc_u64(m.spawn_position.0) + enc_u64(m.spawn_position.1) + enc_u64(m.spawn_position.2)
        + enc_u32(m.health) + seq![m.hotbar_index] + seq![
        if m.creative_mode {
            1u8
        } else {
            0u8
        },
    ] + enc_u64(m.shadow_phase) + enc_u32(m.inventory.len() as u32)
}

/// The bytes a save is written as.
pub open spec fn encode_view(m: WorldSaveView) -> Seq<u8> {
    enc_header(m) + enc_slots(m.inventory) + enc_u32(m.edits.len() as u32) + enc_chunks(m.edits)
}

// ---------------------------------------------------------------------
// Reading
// ---------------------------------------------------------------------

/// An `n`-byte little-endian number at position `p`, and the position after it.
pub open spec fn read_le(b: Seq<u8>, p: int, n: nat) -> Option<(nat, int)> {
    if 0 <= p && p + n <= b.len() {
        Some((le_value(b.subrange(p, p + n)), p + n))
    } else {
        None
    }
}

/// An inventory slot at position `p`: present when its first byte is 1,
/// empty for any other byte.
pub open spec fn parse_slot(b: Seq<u8>, p: int) -> Option<(Option<(u8, u32)>, int)> {
    if 0 <= p < b.len() {
        if b[p] == 1 {
            if p + 6 <= b.len() {
                Some((Some((b[p + 1], le_value(b.subrange(p + 2, p + 6)) as u32)), p + 6))
            } else {
                None
            }
        } else {
            Some((None, p + 1))
        }
    } else {
        None
    }
}

/// `k` inventory slots from position `p`.
pub open spec fn parse_slots(b: Seq<u8>, p: int, k: nat) -> Option<(Seq<Option<(u8, u32)>>, int)>
    decreases k,
{
    if k == 0 {
        Some((Seq::empty(), p))
    } else {
        match parse_slots(b, p, (k - 1) as nat) {
            Some((s, q)) => match parse_slot(b, q) {
                Some((x, q2)) => Some((s.push(x), q2)),
                None => None,
            },
            None => None,
        }
    }
}

/// An edit at position `p`.
pub open spec fn parse_edit(b: Seq<u8>, p: int) -> Option<((u16, u8), int)> {
    if 0 <= p && p + 3 <= b.len() {
        Some(((le_value(b.subrange(p, p + 2)) as u16, b[p + 2]), p + 3))
    } else {
        None
    }
}

/// `k` edits from position `p`.
pub open spec fn parse_edits(b: Seq<u8>, p: int, k: nat) -> Option<(Seq<(u16, u8)>, int)>
    decreases k,
{
    if k == 0 {
        Some((Seq::empty(), p))
    } else {
        match parse_edits(b, p, (k - 1) as nat) {
            Some((s, q)) => match parse_edit(b, q) {
                Some((x, q2)) => Some((s.push(x), q2)),
                None => None,
            },
            None => None,
        }
    }
}

/// A chunk overlay at position `p`; more than `MAX_CHUNK_EDITS` edits is refused.
pub open spec fn parse_chunk(b: Seq<u8>, p: int) -> Option<(((u32, u32, u32), Seq<(u16, u8)>), int)> {
    if 0 <= p && p + 16 <= b.len() {
        let n = le_value(b.subrange(p + 12, p + 16));
        if n > MAX_CHUNK_EDITS {
            None
        } else {
            match parse_edits(b, p + 16, n) {
                Some((l, q)) => Some(
                    (
                        (
                            (
                                le_value(b.subrange(p, p + 4)) as u32,
                                le_value(b.subrange(p + 4, p + 8)) as u32,
                                le_value(b.subrange(p + 8, p + 12)) as u32,
                            ),
                            l,
                        ),
                        q,
                    ),
                ),
                None => None,
            }
        }
    } else {
        None
    }
}

/// `k` chunk overlays from position `p`.
pub open spec fn parse_chunks(b: Seq<u8>, p: int, k: nat) -> Option<(Seq<((u32, u32, u32), Seq<(u16, u8)>)>, int)>
    decreases k,
{
    if k == 0 {
        Some((Seq::empty(), p))
    } else {
        match parse_chunks(b, p, (k - 1) as nat) {
            Some((s, q)) => match parse_chunk(b, q) {
                Some((x, q2)) => Some((s.push(x), q2)),
                None => None,
            },
            None => None,
        }
    }
}

/// The `u64` stored at byte `p`.
pub open spec fn u64_at(b: Seq<u8>, p: int) -> u64 {
    le_value(b.subrange(p, p + 8)) as u64
}

/// The whole save read from `b`, and where reading stopped; `None` for a bad
/// magic number, a truncated save, more than `MAX_SAVED_SLOTS` slots, or a
/// chunk with too many edits. Bytes after the last chunk are ignored.
pub open spec fn parse_save_at(b: Seq<u8>) -> Option<(WorldSaveView, int)> {
    if b.len() < 8 || b.subrange(0, 8) != magic_bytes() || b.len() < HEADER_LEN {
        None
    } else {
        let inv_len = le_value(b.subrange(70, 74));
        if inv_len > MAX_SAVED_SLOTS {
            None
        } else {
            match parse_slots(b, HEADER_LEN as int, inv_len) {
                None => None,
                Some((inv, p)) => match read_le(b, p, 4) {
                    None => None,
                    Some((nc, q)) => match parse_chunks(b, q, nc) {
                        None => None,
                        Some((edits, end)) => Some(
                            (
                                WorldSaveView {
                                    player_position: (u64_at(b, 8), u64_at(b, 16), u64_at(b, 24)),
                                    spawn_position: (u64_at(b, 32), u64_at(b, 40), u64_at(b, 48)),
                                    health: le_value(b.subrange(56, 60)) as u32,
                                    hotbar_index: b[60],
                                    creative_mode: b[61] != 0,
                                    shadow_phase: u64_at(b, 62),
                                    inventory: inv,
                                    edits,
                                },
                                end,
                            ),
                        ),
                    },
                },
            }
        }
    }
}

/// The save that `b` decodes to, if any.
pub open spec fn parse_save(b: Seq<u8>) -> Option<WorldSaveView> {
    match parse_save_at(b) {
        Some((m, _)) => Some(m),
        None => None,
    }
}

/// Whether a save fits the format's limits: at most `MAX_SAVED_SLOTS`
/// slots, at most `MAX_CHUNK_EDITS` edits per chunk, and a chunk count that
/// fits its `u32` field.
pub open spec fn save_fits(m: WorldSaveView) -> bool {
    &&& m.inventory.len() <= MAX_SAVED_SLOTS
    &&& m.edits.len() <= u32::MAX
    &&& forall|i: int| 0 <= i < m.edits.len() ==> (#[trigger] m.edits[i]).1.len() <= MAX_CHUNK_EDITS
}

// ---------------------------------------------------------------------
// Round trip
// ---------------------------------------------------------------------

/// The bytes of `enc` placed after `pre` and before `post` are found again
/// at offset `pre.len()`.
proof fn lemma_subrange_middle(pre: Seq<u8>, enc: Seq<u8>, post: Seq<u8>)
    ensures
        (pre + enc + post).subrange(pre.len() as int, (pre.len() + enc.len()) as int) =~= enc,
        (pre + enc + post).len() == pre.len() + enc.len() + post.len(),
{
}

/// A little-endian number written between two byte strings reads back.
proof fn lemma_read_le_in(pre: Seq<u8>, v: nat, n: nat, post: Seq<u8>)
    requires
        v < pow256(n),
    ensures
        read_le(pre + le_bytes(v, n) + post, pre.len() as int, n) == Some((v, (pre.len() + n) as int)),
{
    lemma_le_round_trip(v, n);
    lemma_subrange_middle(pre, le_bytes(v, n), post);
}

/// A slot written between two byte strings reads back.
proof fn lemma_slot_in(pre: Seq<u8>, s: Option<(u8, u32)>, post: Seq<u8>)
    ensures
        parse_slot(pre + enc_slot(s) + post, pre.len() as int) == Some((s, (pre.len() + enc_slot(s).len()) as int)),
{
    lemma_pow256_values();
    let b = pre + enc_slot(s) + post;
    let p = pre.len() as int;
    match s {
        Some((item, count)) => {
            lemma_le_round_trip(count as nat, 4);
            assert(enc_slot(s).len() == 6);
            lemma_subrange_middle(pre, enc_slot(s), post);
            assert(b[p] == 1);
            assert(b[p + 1] == item);
            assert(b.subrange(p + 2, p + 6) =~= enc_u32(count));
        },
        None => {
            assert(b[p] == 0);
        },
    }
}

/// Slots written between two byte strings read back.
proof fn lemma_slots_in(pre: Seq<u8>, s: Seq<Option<(u8, u32)>>, post: Seq<u8>)
    ensures
        parse_slots(pre + enc_slots(s) + post, pre.len() as int, s.len()) == Some(
            (s, (pre.len() + enc_slots(s).len()) as int),
        ),
    decreases s.len(),
{
    if s.len() > 0 {
        let init = s.drop_last();
        let x = s.last();
        let b = pre + enc_slots(s) + post;
        assert(b =~= pre + enc_slots(init) + (enc_slot(x) + post));
        lemma_slots_in(pre, init, enc_slot(x) + post);
        assert(b =~= (pre + enc_slots(init)) + enc_slot(x) + post);
        lemma_slot_in(pre + enc_slots(init), x, post);
        assert(init.push(x) =~= s);
    }
}

/// An edit written between two byte strings reads back.
proof fn lemma_edit_in(pre: Seq<u8>, e: (u16, u8), post: Seq<u8>)
    ensures
        parse_edit(pre + enc_edit(e) + post, pre.len() as int) == Some((e, (pre.len() + 3) as int)),
        enc_edit(e).len() == 3,
{
    lemma_pow256_values();
    lemma_le_round_trip(e.0 as nat, 2);
    lemma_subrange_middle(pre, enc_edit(e), post);
    let b = pre + enc_edit(e) + post;
    let p = pre.len() as int;
    assert(b.subrange(p, p + 2) =~= enc_u16(e.0));
    assert(b[p + 2] == e.1);
}

/// Edits written between two byte strings read back.
proof fn lemma_edits_in(pre: Seq<u8>, l: Seq<(u16, u8)>, post: Seq<u8>)
    ensures
        parse_edits(pre + enc_edits(l) + post, pre.len() as int, l.len()) == Some(
            (l, (pre.len() + enc_edits(l).len()) as int),
        ),
    decreases l.len(),
{
    if l.len() > 0 {
        let init = l.drop_last();
        let x = l.last();
        let b = pre + enc_edits(l) + post;
        assert(b =~= pre + enc_edits(init) + (enc_edit(x) + post));
        lemma_edits_in(pre, init, enc_edit(x) + post);
        assert(b =~= (pre + enc_edits(init)) + enc_edit(x) + post);
        lemma_edit_in(pre + enc_edits(init), x, post);
        assert(init.push(x) =~= l);
    }
}

/// A chunk overlay of at most `MAX_CHUNK_EDITS` edits written between two
/// byte strings reads back.
proof fn lemma_chunk_in(pre: Seq<u8>, c: ((u32, u32, u32), Seq<(u16, u8)>), post: Seq<u8>)
    requires
        c.1.len() <= MAX_CHUNK_EDITS,
    ensures
        parse_chunk(pre + enc_chunk(c) + post, pre.len() as int) == Some((c, (pre.len() + enc_chunk(c).len()) as int)),
{
    lemma_pow256_values();
    let p = pre.len() as int;
    let b = pre + enc_chunk(c) + post;
    lemma_le_round_trip(c.0.0 as nat, 4);
    lemma_le_round_trip(c.0.1 as nat, 4);
    lemma_le_round_trip(c.0.2 as nat, 4);
    lemma_le_round_trip((c.1.len() as u32) as nat, 4);
    let head = enc_u32(c.0.0) + enc_u32(c.0.1) + enc_u32(c.0.2) + enc_u32(c.1.len() as u32);
    assert(head.len() == 16);
    assert(b =~= (pre + head) + enc_edits(c.1) + post);
    assert(b.subrange(p, p + 4) =~= enc_u32(c.0.0));
    assert(b.subrange(p + 4, p + 8) =~= enc_u32(c.0.1));
    assert(b.subrange(p + 8, p + 12) =~= enc_u32(c.0.2));
    assert(b.subrange(p + 12, p + 16) =~= enc_u32(c.1.len() as u32));
    lemma_edits_in(pre + head, c.1, post);
}

/// Chunk overlays that each fit the limit, written between two byte strings,
/// read back.
proof fn lemma_chunks_in(pre: Seq<u8>, l: Seq<((u32, u32, u32), Seq<(u16, u8)>)>, post: Seq<u8>)
    requires
        forall|i: int| 0 <= i < l.len() ==> (#[trigger] l[i]).1.len() <= MAX_CHUNK_EDITS,
    ensures
        parse_chunks(pre + enc_chunks(l) + post, pre.len() as int, l.len()) == Some(
            (l, (pre.len() + enc_chunks(l).len()) as int),
        ),
    decreases l.len(),
{
    if l.len() > 0 {
        let init = l.drop_last();
        let x = l.last();
        let b = pre + enc_chunks(l) + post;
        assert(b =~= pre + enc_chunks(init) + (enc_chunk(x) + post));
        assert forall|i: int| 0 <= i < init.len() implies (#[trigger] init[i]).1.len() <= MAX_CHUNK_EDITS by {
            assert(init[i] == l[i]);
        }
        lemma_chunks_in(pre, init, enc_chunk(x) + post);
        assert(b =~= (pre + enc_chunks(init)) + enc_chunk(x) + post);
        assert(x == l[l.len() - 1]);
        lemma_chunk_in(pre + enc_chunks(init), x, post);
        assert(init.push(x) =~= l);
    }
}

/// The header of a save reads back field by field.
proof fn lemma_header_fields(m: WorldSaveView, rest: Seq<u8>)
    ensures
        ({
            let b = enc_header(m) + rest;
            &&& enc_header(m).len() == HEADER_LEN
            &&& b.subrange(0, 8) == magic_bytes()
            &&& u64_at(b, 8) == m.player_position.0
            &&& u64_at(b, 16) == m.player_position.1
            &&& u64_at(b, 24) == m.player_position.2
            &&& u64_at(b, 32) == m.spawn_position.0
            &&& u64_at(b, 40) == m.spawn_position.1
            &&& u64_at(b, 48) == m.spawn_position.2
            &&& le_value(b.subrange(56, 60)) == m.health
            &&& b[60] == m.hotbar_index
            &&& (b[61] != 0) == m.creative_mode
            &&& u64_at(b, 62) == m.shadow_phase
            &&& le_value(b.subrange(70, 74)) == (m.inventory.len() as u32)
        }),
{
    lemma_pow256_values();
    lemma_le_round_trip(m.player_position.0 as nat, 8);
    lemma_le_round_trip(m.player_position.1 as nat, 8);
    lemma_le_round_trip(m.player_position.2 as nat, 8);
    lemma_le_round_trip(m.spawn_position.0 as nat, 8);
    lemma_le_round_trip(m.spawn_position.1 as nat, 8);
    lemma_le_round_trip(m.spawn_position.2 as nat, 8);
    lemma_le_round_trip(m.health as nat, 4);
    lemma_le_round_trip(m.shadow_phase as nat, 8);
    lemma_le_round_trip((m.inventory.len() as u32) as nat, 4);
    let b = enc_header(m) + rest;
    assert(b.subrange(0, 8) =~= magic_bytes());
    assert(b.subrange(8, 16) =~= enc_u64(m.player_position.0));
    assert(b.subrange(16, 24) =~= enc_u64(m.player_position.1));
    assert(b.subrange(24, 32) =~= enc_u64(m.player_position.2));
    assert(b.subrange(32, 40) =~= enc_u64(m.spawn_position.0));
    assert(b.subrange(40, 48) =~= enc_u64(m.spawn_position.1));
    assert(b.subrange(48, 56) =~= enc_u64(m.spawn_position.2));
    assert(b.subrange(56, 60) =~= enc_u32(m.health));
    assert(b[60] == m.hotbar_index);
    assert(b[61] == if m.creative_mode { 1u8 } else { 0u8 });
    assert(b.subrange(62, 70) =~= enc_u64(m.shadow_phase));
    assert(b.subrange(70, 74) =~= enc_u32(m.inventory.len() as u32));
}

/// The three variable-length parts of an encoded save read back where the
/// header `h` leaves off.
proof fn lemma_body_in(h: Seq<u8>, m: WorldSaveView)
    requires
        save_fits(m),
    ensures
        ({
            let b = h + (enc_slots(m.inventory) + enc_u32(m.edits.len() as u32) + enc_chunks(m.edits));
            let p = h.len() + enc_slots(m.inventory).len();
            &&& parse_slots(b, h.len() as int, m.inventory.len()) == Some((m.inventory, p as int))
            &&& read_le(b, p as int, 4) == Some((m.edits.len(), (p + 4) as int))
            &&& parse_chunks(b, (p + 4) as int, m.edits.len()) == Some((m.edits, b.len() as int))
        }),
{
    lemma_pow256_values();
    let slots = enc_slots(m.inventory);
    let count = enc_u32(m.edits.len() as u32);
    let chunks = enc_chunks(m.edits);
    let b = h + (slots + count + chunks);
    assert(b =~= h + slots + (count + chunks));
    lemma_slots_in(h, m.inventory, count + chunks);
    assert(b =~= (h + slots) + count + chunks);
    assert((m.edits.len() as u32) as nat == m.edits.len());
    lemma_read_le_in(h + slots, m.edits.len(), 4, chunks);
    lemma_le_round_trip((m.edits.len() as u32) as nat, 4);
    assert(count == le_bytes(m.edits.len(), 4));
    assert(b =~= (h + slots + count) + chunks + Seq::<u8>::empty());
    lemma_chunks_in(h + slots + count, m.edits, Seq::<u8>::empty());
}

/// Reading back a written save gives the same save, and reading stops
/// exactly at the end of what was written, for every save within the
/// format's limits.
#[verifier::spinoff_prover]
pub proof fn lemma_save_round_trip(m: WorldSaveView)
    requires
        save_fits(m),
    ensures
        parse_save_at(encode_view(m)) == Some((m, encode_view(m).len() as int)),
        parse_save(encode_view(m)) == Some(m),
{
    let b = encode_view(m);
    let h = enc_header(m);
    let rest = enc_slots(m.inventory) + enc_u32(m.edits.len() as u32) + enc_chunks(m.edits);
    assert(b =~= h + rest);
    lemma_header_fields(m, rest);
    lemma_body_in(h, m);
    assert(le_value(b.subrange(70, 74)) == m.inventory.len());
    let r = WorldSaveView {
        player_position: (u64_at(b, 8), u64_at(b, 16), u64_at(b, 24)),
        spawn_position: (u64_at(b, 32), u64_at(b, 40), u64_at(b, 48)),
        health: le_value(b.subrange(56, 60)) as u32,
        hotbar_index: b[60],
        creative_mode: b[61] != 0,
        shadow_phase: u64_at(b, 62),
        inventory: m.inventory,
        edits: m.edits,
    };
    assert(r == m);
}

// ---------------------------------------------------------------------
// Truncation
// ---------------------------------------------------------------------

/// Whatever reads successfully from the first `len` bytes of `b` reads the
/// same from all of `b`, and stops within those bytes.
proof fn lemma_read_le_prefix(b: Seq<u8>, len: int, p: int, n: nat)
    requires
        0 <= len <= b.len(),
    ensures
        read_le(b.take(len), p, n) matches Some((v, q)) ==> q <= len && read_le(b, p, n) == Some((v, q)),
{
    if read_le(b.take(len), p, n) is Some {
        assert(b.take(len).subrange(p, p + n) =~= b.subrange(p, p + n));
    }
}

proof fn lemma_slot_prefix(b: Seq<u8>, len: int, p: int)
    requires
        0 <= len <= b.len(),
    ensures
        parse_slot(b.take(len), p) matches Some((v, q)) ==> q <= len && parse_slot(b, p) == Some((v, q)),
{
    if parse_slot(b.take(len), p) is Some {
        assert(b.take(len)[p] == b[p]);
        if b[p] == 1 {
            assert(b.take(len)[p + 1] == b[p + 1]);
            assert(b.take(len).subrange(p + 2, p + 6) =~= b.subrange(p + 2, p + 6));
        }
    }
}

proof fn lemma_slots_prefix(b: Seq<u8>, len: int, p: int, k: nat)
    requires
        0 <= len <= b.len(),
    ensures
        parse_slots(b.take(len), p, k) matches Some((v, q)) ==> (p <= len ==> q <= len) && parse_slots(
            b,
            p,
            k,
        ) == Some((v, q)),
    decreases k,
{
    if k > 0 {
        lemma_slots_prefix(b, len, p, (k - 1) as nat);
        if let Some((_, q)) = parse_slots(b.take(len), p, (k - 1) as nat) {
            lemma_slot_prefix(b, len, q);
        }
    }
}

proof fn lemma_edit_prefix(b: Seq<u8>, len: int, p: int)
    requires
        0 <= len <= b.len(),
    ensures
        parse_edit(b.take(len), p) matches Some((v, q)) ==> q <= len && parse_edit(b, p) == Some((v, q)),
{
    if parse_edit(b.take(len), p) is Some {
        assert(b.take(len).subrange(p, p + 2) =~= b.subrange(p, p + 2));
        assert(b.take(len)[p + 2] == b[p + 2]);
    }
}

proof fn lemma_edits_prefix(b: Seq<u8>, len: int, p: int, k: nat)
    requires
        0 <= len <= b.len(),
    ensures
        parse_edits(b.take(len), p, k) matches Some((v, q)) ==> (p <= len ==> q <= len) && parse_edits(
            b,
            p,
            k,
        ) == Some((v, q)),
    decreases k,
{
    if k > 0 {
        lemma_edits_prefix(b, len, p, (k - 1) as nat);
        if let Some((_, q)) = parse_edits(b.take(len), p, (k - 1) as nat) {
            lemma_edit_prefix(b, len, q);
        }
    }
}

proof fn lemma_chunk_prefix(b: Seq<u8>, len: int, p: int)
    requires
        0 <= len <= b.len(),
    ensures
        parse_chunk(b.take(len), p) matches Some((v, q)) ==> q <= len && parse_chunk(b, p) == Some((v, q)),
{
    if parse_chunk(b.take(len), p) is Some {
        let t = b.take(len);
        assert(t.subrange(p, p + 4) =~= b.subrange(p, p + 4));
        assert(t.subrange(p + 4, p + 8) =~= b.subrange(p + 4, p + 8));
        assert(t.subrange(p + 8, p + 12) =~= b.subrange(p + 8, p + 12));
        assert(t.subrange(p + 12, p + 16) =~= b.subrange(p + 12, p + 16));
        lemma_edits_prefix(b, len, p + 16, le_value(b.subrange(p + 12, p + 16)));
    }
}

proof fn lemma_chunks_prefix(b: Seq<u8>, len: int, p: int, k: nat)
    requires
        0 <= len <= b.len(),
    ensures
        parse_chunks(b.take(len), p, k) matches Some((v, q)) ==> (p <= len ==> q <= len) && parse_chunks(
            b,
            p,
            k,
        ) == Some((v, q)),
    decreases k,
{
    if k > 0 {
        lemma_chunks_prefix(b, len, p, (k - 1) as nat);
        if let Some((_, q)) = parse_chunks(b.take(len), p, (k - 1) as nat) {
            lemma_chunk_prefix(b, len, q);
        }
    }
}

/// A save read from the first `len` bytes of `b` is read the same from all
/// of `b`, stopping within those bytes.
proof fn lemma_save_prefix(b: Seq<u8>, len: int)
    requires
        0 <= len <= b.len(),
    ensures
        parse_save_at(b.take(len)) matches Some((m, e)) ==> e <= len && parse_save_at(b) == Some((m, e)),
{
    let t = b.take(len);
    if parse_save_at(t) is Some {
        assert(t.subrange(0, 8) =~= b.subrange(0, 8));
        assert(t.subrange(70, 74) =~= b.subrange(70, 74));
        assert(t.subrange(8, 16) =~= b.subrange(8, 16));
        assert(t.subrange(16, 24) =~= b.subrange(16, 24));
        assert(t.subrange(24, 32) =~= b.subrange(24, 32));
        assert(t.subrange(32, 40) =~= b.subrange(32, 40));
        assert(t.subrange(40, 48) =~= b.subrange(40, 48));
        assert(t.subrange(48, 56) =~= b.subrange(48, 56));
        assert(t.subrange(56, 60) =~= b.subrange(56, 60));
        assert(t.subrange(62, 70) =~= b.subrange(62, 70));
        assert(t[60] == b[60] && t[61] == b[61]);
        let inv_len = le_value(b.subrange(70, 74));
        lemma_slots_prefix(b, len, HEADER_LEN as int, inv_len);
        let (_, p) = parse_slots(t, HEADER_LEN as int, inv_len).unwrap();
        lemma_read_le_prefix(b, len, p, 4);
        let (nc, q) = read_le(t, p, 4).unwrap();
        lemma_chunks_prefix(b, len, q, nc);
    }
}

/// Whether every count the format writes as a `u32` (slots, chunks, and
/// each chunk's edits) fits that field, so that none is written wrapped.
pub open spec fn counts_fit_fields(m: WorldSaveView) -> bool {
    &&& m.inventory.len() <= u32::MAX
    &&& m.edits.len() <= u32::MAX
    &&& forall|i: int| 0 <= i < m.edits.len() ==> (#[trigger] m.edits[i]).1.len() <= u32::MAX
}

/// A chunk overlay with more than `MAX_CHUNK_EDITS` edits, written between
/// two byte strings, is refused where it starts.
proof fn lemma_chunk_too_long(pre: Seq<u8>, c: ((u32, u32, u32), Seq<(u16, u8)>), post: Seq<u8>)
    requires
        MAX_CHUNK_EDITS < c.1.len() <= u32::MAX,
    ensures
        parse_chunk(pre + enc_chunk(c) + post, pre.len() as int) is None,
{
    lemma_pow256_values();
    let p = pre.len() as int;
    let b = pre + enc_chunk(c) + post;
    lemma_le_round_trip(c.0.0 as nat, 4);
    lemma_le_round_trip(c.0.1 as nat, 4);
    lemma_le_round_trip(c.0.2 as nat, 4);
    lemma_le_round_trip((c.1.len() as u32) as nat, 4);
    let head = enc_u32(c.0.0) + enc_u32(c.0.1) + enc_u32(c.0.2) + enc_u32(c.1.len() as u32);
    assert(head.len() == 16);
    assert(b =~= (pre + head) + enc_edits(c.1) + post);
    assert(b.subrange(p + 12, p + 16) =~= enc_u32(c.1.len() as u32));
}

/// Chunk overlays of which one has more than `MAX_CHUNK_EDITS` edits,
/// written between two byte strings, are refused.
proof fn lemma_chunks_too_long(pre: Seq<u8>, l: Seq<((u32, u32, u32), Seq<(u16, u8)>)>, post: Seq<u8>)
    requires
        forall|i: int| 0 <= i < l.len() ==> (#[trigger] l[i]).1.len() <= u32::MAX,
        exists|i: int| 0 <= i < l.len() && (#[trigger] l[i]).1.len() > MAX_CHUNK_EDITS,
    ensures
        parse_chunks(pre + enc_chunks(l) + post, pre.len() as int, l.len()) is None,
    decreases l.len(),
{
    let init = l.drop_last();
    let x = l.last();
    let b = pre + enc_chunks(l) + post;
    assert(b =~= pre + enc_chunks(init) + (enc_chunk(x) + post));
    assert forall|i: int| 0 <= i < init.len() implies (#[trigger] init[i]).1.len() <= u32::MAX by {
        assert(init[i] == l[i]);
    }
    if exists|i: int| 0 <= i < init.len() && (#[trigger] init[i]).1.len() > MAX_CHUNK_EDITS {
        let i = choose|i: int| 0 <= i < init.len() && (#[trigger] init[i]).1.len() > MAX_CHUNK_EDITS;
        assert(init[i] == l[i]);
        lemma_chunks_too_long(pre, init, enc_chunk(x) + post);
    } else {
        assert forall|i: int| 0 <= i < init.len() implies (#[trigger] init[i]).1.len() <= MAX_CHUNK_EDITS by {
            assert(init[i] == l[i]);
        }
        lemma_chunks_in(pre, init, enc_chunk(x) + post);
        assert(x == l[l.len() - 1]);
        assert(x.1.len() > MAX_CHUNK_EDITS) by {
            let i = choose|i: int| 0 <= i < l.len() && (#[trigger] l[i]).1.len() > MAX_CHUNK_EDITS;
            if i < init.len() {
                assert(init[i] == l[i]);
            }
        }
        assert(b =~= (pre + enc_chunks(init)) + enc_chunk(x) + post);
        lemma_chunk_too_long(pre + enc_chunks(init), x, post);
    }
}

/// A save beyond the format's limits is written as bytes that do not read
/// back: its slot count or one of its edit counts is over the limit the
/// reader enforces.
pub proof fn lemma_oversized_save_refused(m: WorldSaveView)
    requires
        counts_fit_fields(m),
        !save_fits(m),
    ensures
        parse_save_at(encode_view(m)) is None,
{
    lemma_pow256_values();
    let b = encode_view(m);
    let h = enc_header(m);
    let slots = enc_slots(m.inventory);
    let count = enc_u32(m.edits.len() as u32);
    let chunks = enc_chunks(m.edits);
    let rest = slots + count + chunks;
    assert(b =~= h + rest);
    lemma_header_fields(m, rest);
    if m.inventory.len() <= MAX_SAVED_SLOTS {
        assert(b =~= h + slots + (count + chunks));
        lemma_slots_in(h, m.inventory, count + chunks);
        assert(b =~= (h + slots) + count + chunks);
        lemma_read_le_in(h + slots, m.edits.len(), 4, chunks);
        lemma_le_round_trip((m.edits.len() as u32) as nat, 4);
        assert(count == le_bytes(m.edits.len(), 4));
        assert(b =~= (h + slots + count) + chunks + Seq::<u8>::empty());
        lemma_chunks_too_long(h + slots + count, m.edits, Seq::<u8>::empty());
    }
}

/// An encoded save cut short at any length is refused, for every save whose
/// counts fit their `u32` fields.
pub proof fn lemma_truncated_save_rejected(m: WorldSaveView, len: int)
    requires
        counts_fit_fields(m),
        0 <= len < encode_view(m).len(),
    ensures
        parse_save(encode_view(m).take(len)) is None,
{
    let b = encode_view(m);
    if save_fits(m) {
        lemma_save_round_trip(m);
    } else {
        lemma_oversized_save_refused(m);
    }
    lemma_save_prefix(b, len);
}

// ---------------------------------------------------------------------
// Executable encoding and decoding
// ---------------------------------------------------------------------

/// A saved world: player state, the shadow-square phase, the inventory and
/// the per-chunk edit overlay. Floating-point values are held as their
/// IEEE-754 bit patterns.
#[derive(Debug, PartialEq)]
pub struct WorldSave {
    /// Player body-centre ring position as (theta, y, height), f64 bits.
    pub player_position: (u64, u64, u64),
    /// Respawn point as (theta, y, height), f64 bits.
    pub spawn_position: (u64, u64, u64),
    /// Player health, f32 bits.
    pub health: u32,
    pub hotbar_index: u8,
    pub creative_mode: bool,
    /// Shadow-square orbital phase in radians, f64 bits.
    pub shadow_phase: u64,
    /// One entry per inventory slot: `None` = empty, `Some((type code, count))`.
    pub inventory: Vec<Option<(u8, u32)>>,
    /// Per-chunk edit overlay: ((ring, width, height), [(local index, type code)]).
    pub edits: Vec<((u32, u32, u32), Vec<(u16, u8)>)>,
}

/// A chunk overlay with its edit list as a sequence.
pub open spec fn chunk_view(e: ((u32, u32, u32), Vec<(u16, u8)>)) -> ((u32, u32, u32), Seq<(u16, u8)>) {
    (e.0, e.1@)
}

impl View for WorldSave {
    type V = WorldSaveView;

    open spec fn view(&self) -> WorldSaveView {
        WorldSaveView {
            player_position: self.player_position,
            spawn_position: self.spawn_position,
            health: self.health,
            hotbar_index: self.hotbar_index,
            creative_mode: self.creative_mode,
            shadow_phase: self.shadow_phase,
            inventory: self.inventory@,
            edits: self.edits@.map_values(|e: ((u32, u32, u32), Vec<(u16, u8)>)| chunk_view(e)),
        }
    }
}

/// Powers of 256 up to the eighth stay within `u64` range.
proof fn lemma_pow256_small(k: nat)
    requires
        k <= 8,
    ensures
        pow256(k) <= 0x1_0000_0000_0000_0000,
        k < 8 ==> 256 * pow256(k) <= 0x1_0000_0000_0000_0000,
{
    reveal_with_fuel(pow256, 10);
}

/// Append the low `n` bytes of `v`, least significant first.
fn push_le(out: &mut Vec<u8>, v: u64, n: usize)
    requires
        n <= 8,
    ensures
        final(out)@ == old(out)@ + le_bytes(v as nat, n as nat),
{
    let ghost start = out@;
    let mut cur = v;
    let mut i: usize = 0;
    while i < n
        invariant
            i <= n,
            out@ + le_bytes(cur as nat, (n - i) as nat) == start + le_bytes(v as nat, n as nat),
        decreases n - i,
    {
        let ghost before = out@;
        out.push((cur % 256) as u8);
        assert(before + le_bytes(cur as nat, (n - i) as nat) =~= out@ + le_bytes(
            (cur / 256) as nat,
            (n - i - 1) as nat,
        ));
        cur = cur / 256;
        i = i + 1;
    }
    assert(le_bytes(cur as nat, 0) =~= Seq::<u8>::empty());
    assert(out@ =~= out@ + le_bytes(cur as nat, 0));
}

/// The `n`-byte little-endian number at `p`.
fn le_at(bytes: &[u8], p: usize, n: usize) -> (r: u64)
    requires
        n <= 8,
        p + n <= bytes@.len(),
    ensures
        r == le_value(bytes@.subrange(p as int, p + n)),
        r < pow256(n as nat),
{
    let mut v: u64 = 0;
    let mut i: usize = n;
    proof {
        assert(bytes@.subrange((p + n) as int, (p + n) as int) =~= Seq::<u8>::empty());
    }
    while i > 0
        invariant
            i <= n <= 8,
            p + n <= bytes@.len(),
            p + n <= bytes.len(),
            v == le_value(bytes@.subrange((p + i) as int, (p + n) as int)),
            v < pow256((n - i) as nat),
        decreases i,
    {
        proof {
            lemma_pow256_small((n - i) as nat);
        }
        let byte = bytes[p + i - 1];
        proof {
            let s = bytes@.subrange((p + i - 1) as int, (p + n) as int);
            assert(s.drop_first() =~= bytes@.subrange((p + i) as int, (p + n) as int));
            assert(pow256((n - i + 1) as nat) == 256 * pow256((n - i) as nat));
        }
        v = v * 256 + byte as u64;
        i = i - 1;
    }
    v
}

/// Once `k` slots fail to read, so does any longer run.
proof fn lemma_slots_fail(b: Seq<u8>, p: int, k: nat, k2: nat)
    requires
        parse_slots(b, p, k) is None,
        k <= k2,
    ensures
        parse_slots(b, p, k2) is None,
    decreases k2,
{
    if k2 > k {
        lemma_slots_fail(b, p, k, (k2 - 1) as nat);
    }
}

/// Once `k` edits fail to read, so does any longer run.
proof fn lemma_edits_fail(b: Seq<u8>, p: int, k: nat, k2: nat)
    requires
        parse_edits(b, p, k) is None,
        k <= k2,
    ensures
        parse_edits(b, p, k2) is None,
    decreases k2,
{
    if k2 > k {
        lemma_edits_fail(b, p, k, (k2 - 1) as nat);
    }
}

/// Once `k` chunk overlays fail to read, so does any longer run.
proof fn lemma_chunks_fail(b: Seq<u8>, p: int, k: nat, k2: nat)
    requires
        parse_chunks(b, p, k) is None,
        k <= k2,
    ensures
        parse_chunks(b, p, k2) is None,
    decreases k2,
{
    if k2 > k {
        lemma_chunks_fail(b, p, k, (k2 - 1) as nat);
    }
}

impl WorldSave {
    /// The save's bytes in the format described at the top of this module.
    pub fn encode(&self) -> (r: Vec<u8>)
        ensures
            r@ == encode_view(self@),
    {
        let mut out: Vec<u8> = Vec::new();
        out.push(0x52);
        out.push(0x49);
        out.push(0x4E);
        out.push(0x47);
        out.push(0x53);
        out.push(0x41);
        out.push(0x56);
        out.push(0x01);
        assert(out@ =~= magic_bytes());
        push_le(&mut out, self.player_position.0, 8);
        push_le(&mut out, self.player_position.1, 8);
        push_le(&mut out, self.player_position.2, 8);
        push_le(&mut out, self.spawn_position.0, 8);
        push_le(&mut out, self.spawn_position.1, 8);
        push_le(&mut out, self.spawn_position.2, 8);
        push_le(&mut out, self.health as u64, 4);
        out.push(self.hotbar_index);
        out.push(if self.creative_mode { 1 } else { 0 });
        push_le(&mut out, self.shadow_phase, 8);
        push_le(&mut out, (self.inventory.len() as u32) as u64, 4);
        let ghost header = out@;
        assert(header =~= enc_header(self@));
        let mut i: usize = 0;
        while i < self.inventory.len()
            invariant
                i <= self.inventory.len(),
                out@ == header + enc_slots(self.inventory@.take(i as int)),
            decreases self.inventory.len() - i,
        {
            let ghost before = out@;
            match self.inventory[i] {
                Some((item, count)) => {
                    out.push(1);
                    out.push(item);
                    push_le(&mut out, count as u64, 4);
                },
                None => {
                    out.push(0);
                },
            }
            proof {
                let t = self.inventory@.take(i + 1);
                assert(t.drop_last() =~= self.inventory@.take(i as int));
                assert(out@ =~= before + enc_slot(self.inventory@[i as int]));
            }
            i = i + 1;
        }
        assert(self.inventory@.take(i as int) =~= self.inventory@);
        push_le(&mut out, (self.edits.len() as u32) as u64, 4);
        let ghost mid = out@;
        let ghost ev = self@.edits;
        let mut c: usize = 0;
        while c < self.edits.len()
            invariant
                c <= self.edits.len(),
                ev == self@.edits,
                ev.len() == self.edits.len(),
                out@ == mid + enc_chunks(ev.take(c as int)),
            decreases self.edits.len() - c,
        {
            let ghost before = out@;
            let coord = self.edits[c].0;
            let list = &self.edits[c].1;
            push_le(&mut out, coord.0 as u64, 4);
            push_le(&mut out, coord.1 as u64, 4);
            push_le(&mut out, coord.2 as u64, 4);
            push_le(&mut out, (list.len() as u32) as u64, 4);
            let ghost head = out@;
            let mut j: usize = 0;
            while j < list.len()
                invariant
                    j <= list.len(),
                    out@ == head + enc_edits(list@.take(j as int)),
                decreases list.len() - j,
            {
                let ghost before_edit = out@;
                let (idx, vt) = list[j];
                push_le(&mut out, idx as u64, 2);
                out.push(vt);
                proof {
                    let t = list@.take(j + 1);
                    assert(t.drop_last() =~= list@.take(j as int));
                    assert(out@ =~= before_edit + enc_edit(list@[j as int]));
                }
                j = j + 1;
            }
            proof {
                assert(list@.take(j as int) =~= list@);
                assert(ev[c as int] == chunk_view(self.edits@[c as int]));
                assert(out@ =~= before + enc_chunk(ev[c as int]));
                let t = ev.take(c + 1);
                assert(t.drop_last() =~= ev.take(c as int));
            }
            c = c + 1;
        }
        assert(ev.take(c as int) =~= ev);
        out
    }

    /// Read a save back from its bytes: `None` on a bad magic number, a
    /// truncated save, more than `MAX_SAVED_SLOTS` slots or a chunk with
    /// more than `MAX_CHUNK_EDITS` edits, so a corrupt file means a fresh
    /// world rather than a crash. Bytes after the last chunk are ignored.
    pub fn decode(bytes: &[u8]) -> (r: Option<WorldSave>)
        ensures
            match r {
                Some(s) => parse_save(bytes@) == Some(s@),
                None => parse_save(bytes@) is None,
            },
    {
        proof {
            lemma_pow256_values();
        }
        let len = bytes.len();
        if len < 8 {
            return None;
        }
        if bytes[0] != 0x52 || bytes[1] != 0x49 || bytes[2] != 0x4E || bytes[3] != 0x47 || bytes[4] != 0x53
            || bytes[5] != 0x41 || bytes[6] != 0x56 || bytes[7] != 0x01 {
            proof {
                let m = bytes@.subrange(0, 8);
                assert(m[0] == bytes@[0] && m[1] == bytes@[1] && m[2] == bytes@[2] && m[3] == bytes@[3]);
                assert(m[4] == bytes@[4] && m[5] == bytes@[5] && m[6] == bytes@[6] && m[7] == bytes@[7]);
                assert(m != magic_bytes());
            }
            return None;
        }
        assert(bytes@.subrange(0, 8) =~= magic_bytes());
        if len < HEADER_LEN {
            return None;
        }
        let player_position = (le_at(bytes, 8, 8), le_at(bytes, 16, 8), le_at(bytes, 24, 8));
        let spawn_position = (le_at(bytes, 32, 8), le_at(bytes, 40, 8), le_at(bytes, 48, 8));
        let health = le_at(bytes, 56, 4) as u32;
        let hotbar_index = bytes[60];
        let creative_mode = bytes[61] != 0;
        let shadow_phase = le_at(bytes, 62, 8);
        let inv_len = le_at(bytes, 70, 4);
        if inv_len > MAX_SAVED_SLOTS as u64 {
            return None;
        }
        let ghost b = bytes@;
        let mut pos: usize = HEADER_LEN;
        let mut inventory: Vec<Option<(u8, u32)>> = Vec::new();
        let mut i: u64 = 0;
        while i < inv_len
            invariant
                b == bytes@,
                len == bytes.len(),
                len >= HEADER_LEN,
                b.subrange(0, 8) == magic_bytes(),
                inv_len == le_value(b.subrange(70, 74)),
                inv_len <= MAX_SAVED_SLOTS,
                i <= inv_len,
                pos <= len,
                parse_slots(b, HEADER_LEN as int, i as nat) == Some((inventory@, pos as int)),
            decreases inv_len - i,
        {
            if pos >= len {
                proof {
                    lemma_slots_fail(b, HEADER_LEN as int, (i + 1) as nat, inv_len as nat);
                }
                return None;
            }
            if bytes[pos] == 1 {
                if len - pos < 6 {
                    proof {
                        lemma_slots_fail(b, HEADER_LEN as int, (i + 1) as nat, inv_len as nat);
                    }
                    return None;
                }
                let item = bytes[pos + 1];
                let count = le_at(bytes, pos + 2, 4) as u32;
                inventory.push(Some((item, count)));
                pos = pos + 6;
            } else {
                inventory.push(None);
                pos = pos + 1;
            }
            i = i + 1;
        }
        if len - pos < 4 {
            return None;
        }
        let ghost slots_end = pos as int;
        let ghost inv_view = inventory@;
        let n_chunks = le_at(bytes, pos, 4);
        pos = pos + 4;
        let ghost chunks_start = pos as int;
        assert(read_le(b, slots_end, 4) == Some((n_chunks as nat, chunks_start)));
        let mut edits: Vec<((u32, u32, u32), Vec<(u16, u8)>)> = Vec::new();
        let mut c: u64 = 0;
        while c < n_chunks
            invariant
                b == bytes@,
                len == bytes.len(),
                len >= HEADER_LEN,
                b.subrange(0, 8) == magic_bytes(),
                inv_len == le_value(b.subrange(70, 74)),
                inv_len <= MAX_SAVED_SLOTS,
                parse_slots(b, HEADER_LEN as int, inv_len as nat) == Some((inv_view, slots_end)),
                read_le(b, slots_end, 4) == Some((n_chunks as nat, chunks_start)),
                inventory@ == inv_view,
                c <= n_chunks,
                pos <= len,
                parse_chunks(b, chunks_start, c as nat) == Some(
                    (edits@.map_values(|e: ((u32, u32, u32), Vec<(u16, u8)>)| chunk_view(e)), pos as int),
                ),
            decreases n_chunks - c,
        {
            if len - pos < 16 {
                proof {
                    lemma_chunks_fail(b, chunks_start, (c + 1) as nat, n_chunks as nat);
                }
                return None;
            }
            let coord = (le_at(bytes, pos, 4) as u32, le_at(bytes, pos + 4, 4) as u32, le_at(bytes, pos + 8, 4) as u32);
            let n = le_at(bytes, pos + 12, 4);
            if n > MAX_CHUNK_EDITS as u64 {
                proof {
                    lemma_chunks_fail(b, chunks_start, (c + 1) as nat, n_chunks as nat);
                }
                return None;
            }
            let ghost list_start = pos + 16;
            let mut q: usize = pos + 16;
            let mut list: Vec<(u16, u8)> = Vec::new();
            let mut j: u64 = 0;
            while j < n
                invariant
                    b == bytes@,
                    len == bytes.len(),
                    len >= HEADER_LEN,
                    b.subrange(0, 8) == magic_bytes(),
                    inv_len == le_value(b.subrange(70, 74)),
                    inv_len <= MAX_SAVED_SLOTS,
                    parse_slots(b, HEADER_LEN as int, inv_len as nat) == Some((inv_view, slots_end)),
                    read_le(b, slots_end, 4) == Some((n_chunks as nat, chunks_start)),
                    c < n_chunks,
                    pos + 16 <= len,
                    list_start == pos + 16,
                    n == le_value(b.subrange(pos + 12, pos + 16)),
                    n <= MAX_CHUNK_EDITS,
                    parse_chunks(b, chunks_start, c as nat) == Some(
                        (edits@.map_values(|e: ((u32, u32, u32), Vec<(u16, u8)>)| chunk_view(e)), pos as int),
                    ),
                    j <= n,
                    q <= len,
                    parse_edits(b, list_start as int, j as nat) == Some((list@, q as int)),
                decreases n - j,
            {
                if len - q < 3 {
                    proof {
                        lemma_edits_fail(b, list_start as int, (j + 1) as nat, n as nat);
                        assert(parse_chunk(b, pos as int) is None);
                        assert(parse_chunks(b, chunks_start, (c + 1) as nat) is None);
                        lemma_chunks_fail(b, chunks_start, (c + 1) as nat, n_chunks as nat);
                    }
                    return None;
                }
                let idx = le_at(bytes, q, 2) as u16;
                let vt = bytes[q + 2];
                list.push((idx, vt));
                q = q + 3;
                j = j + 1;
            }
            let ghost before = edits@;
            edits.push((coord, list));
            proof {
                assert(edits@.map_values(|e: ((u32, u32, u32), Vec<(u16, u8)>)| chunk_view(e)) =~= before.map_values(
                    |e: ((u32, u32, u32), Vec<(u16, u8)>)| chunk_view(e),
                ).push(chunk_view(edits@[edits@.len() - 1])));
            }
            pos = q;
            c = c + 1;
        }
        let r = WorldSave {
            player_position,
            spawn_position,
            health,
            hotbar_index,
            creative_mode,
            shadow_phase,
            inventory,
            edits,
        };
        Some(r)
    }
}

} // verus!
