use ring_world::persistence::WorldSave;

fn sample() -> WorldSave {
    WorldSave {
        player_position: (1.25f64.to_bits(), (-3.5f64).to_bits(), 12.0f64.to_bits()),
        spawn_position: (0.5f64.to_bits(), 2.0f64.to_bits(), 40.0f64.to_bits()),
        health: 17.5f32.to_bits(),
        hotbar_index: 4,
        creative_mode: true,
        shadow_phase: 2.71828f64.to_bits(),
        inventory: vec![Some((1, 64)), None, Some((29, 1)), None],
        edits: vec![((3, 1, 2), vec![(0, 1), (4095, 26)]), ((255, 0, 0), vec![(100, 0)])],
    }
}

#[test]
fn encode_decode_round_trips() {
    let save = sample();
    let decoded = WorldSave::decode(&save.encode()).expect("decode failed");
    assert_eq!(decoded, save);
}

#[test]
fn empty_collections_round_trip() {
    let save = WorldSave { inventory: vec![], edits: vec![], ..sample() };
    let decoded = WorldSave::decode(&save.encode()).expect("decode failed");
    assert_eq!(decoded, save);
}

#[test]
fn bad_magic_is_rejected() {
    let mut bytes = sample().encode();
    bytes[0] = b'X';
    assert!(WorldSave::decode(&bytes).is_none());
}

#[test]
fn truncation_is_rejected_at_every_length() {
    let bytes = sample().encode();
    for len in 0..bytes.len() {
        assert!(WorldSave::decode(&bytes[..len]).is_none(), "truncated save of {} bytes decoded", len);
    }
}

#[test]
fn oversized_saves_do_not_read_back() {
    let too_many_slots = WorldSave { inventory: vec![None; 1025], ..sample() };
    let bytes = too_many_slots.encode();
    assert!(WorldSave::decode(&bytes).is_none());
    for len in 0..bytes.len() {
        assert!(WorldSave::decode(&bytes[..len]).is_none());
    }
    let too_many_edits = WorldSave { edits: vec![((0, 0, 0), vec![(0, 1); 4097])], ..sample() };
    let bytes = too_many_edits.encode();
    assert!(WorldSave::decode(&bytes).is_none());
    for len in (0..bytes.len()).step_by(97) {
        assert!(WorldSave::decode(&bytes[..len]).is_none());
    }
    let at_the_limits =
        WorldSave { inventory: vec![None; 1024], edits: vec![((0, 0, 0), vec![(0, 1); 4096])], ..sample() };
    assert_eq!(WorldSave::decode(&at_the_limits.encode()), Some(at_the_limits));
}

#[test]
fn encoding_layout_is_little_endian() {
    let save = WorldSave {
        player_position: (1, 2, 3),
        spawn_position: (4, 5, 6),
        health: 0x0102_0304,
        hotbar_index: 7,
        creative_mode: false,
        shadow_phase: 0x1122_3344_5566_7788,
        inventory: vec![Some((9, 0x0A0B_0C0D)), None],
        edits: vec![((1, 2, 3), vec![(0x0102, 5)])],
    };
    let bytes = save.encode();
    assert_eq!(&bytes[0..8], b"RINGSAV\x01");
    assert_eq!(&bytes[8..16], &[1, 0, 0, 0, 0, 0, 0, 0]);
    assert_eq!(&bytes[56..60], &[4, 3, 2, 1]);
    assert_eq!(bytes[60], 7);
    assert_eq!(bytes[61], 0);
    assert_eq!(&bytes[62..70], &[0x88, 0x77, 0x66, 0x55, 0x44, 0x33, 0x22, 0x11]);
    assert_eq!(&bytes[70..74], &[2, 0, 0, 0]);
    assert_eq!(&bytes[74..81], &[1, 9, 0x0D, 0x0C, 0x0B, 0x0A, 0]);
    assert_eq!(&bytes[81..85], &[1, 0, 0, 0]);
    assert_eq!(&bytes[85..101], &[1, 0, 0, 0, 2, 0, 0, 0, 3, 0, 0, 0, 1, 0, 0, 0]);
    assert_eq!(&bytes[101..104], &[0x02, 0x01, 5]);
    assert_eq!(bytes.len(), 104);
}

#[test]
fn trailing_bytes_are_ignored_and_odd_flags_decode_leniently() {
    let save = sample();
    let mut bytes = save.encode();
    bytes.extend_from_slice(&[9, 9, 9]);
    assert_eq!(WorldSave::decode(&bytes).expect("decode failed"), save);
    // A creative byte of 2 still reads as creative; a presence byte of 7 as an empty slot.
    let plain = WorldSave { creative_mode: false, inventory: vec![None], edits: vec![], ..sample() };
    let mut bytes = plain.encode();
    bytes[61] = 2;
    bytes[74] = 7;
    let decoded = WorldSave::decode(&bytes).expect("decode failed");
    assert!(decoded.creative_mode);
    assert_eq!(decoded.inventory, vec![None]);
}

#[test]
fn oversized_counts_are_refused() {
    let mut bytes = WorldSave { inventory: vec![], edits: vec![], ..sample() }.encode();
    bytes[70..74].copy_from_slice(&1025u32.to_le_bytes());
    assert!(WorldSave::decode(&bytes).is_none());
    let save = WorldSave { inventory: vec![], edits: vec![((0, 0, 0), vec![])], ..sample() };
    let mut bytes = save.encode();
    bytes[90..94].copy_from_slice(&4097u32.to_le_bytes());
    assert!(WorldSave::decode(&bytes).is_none());
}
