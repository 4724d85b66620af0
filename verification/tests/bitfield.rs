use sigil_frontend_emp::eval::bitfield::{pack_bitfield, unknown_field_message, BitfieldField, BitfieldIssue};

fn layout() -> Vec<BitfieldField> {
    vec![
        BitfieldField { name: "pri".into(), bits: 1, lsb: 15 },
        BitfieldField { name: "pal".into(), bits: 2, lsb: 13 },
        BitfieldField { name: "tile".into(), bits: 11, lsb: 0 },
    ]
}

fn read(p: i128, f: &BitfieldField) -> i128 {
    (p >> f.lsb) & ((1i128 << f.bits) - 1)
}

#[test]
fn fields_pack_at_their_offsets() {
    let l = layout();
    let packed = pack_bitfield(&l, &[("pal".into(), 3), ("tile".into(), 0x123), ("pri".into(), 1)]).unwrap();
    assert_eq!(packed, 0x8000 | (3 << 13) | 0x123);
    assert_eq!(read(packed, &l[0]), 1);
    assert_eq!(read(packed, &l[1]), 3);
    assert_eq!(read(packed, &l[2]), 0x123);
    // Omitted fields are 0.
    let only = pack_bitfield(&l, &[("pal".into(), 2)]).unwrap();
    assert_eq!(only, 2 << 13);
    assert_eq!(read(only, &l[0]), 0);
    assert_eq!(read(only, &l[2]), 0);
    assert_eq!(pack_bitfield(&l, &[]), Ok(0));
}

#[test]
fn every_bad_field_is_reported() {
    let l = layout();
    let r = pack_bitfield(
        &l,
        &[("pal".into(), 4), ("tile".into(), 1), ("hflip".into(), 1), ("pri".into(), -1), ("tile".into(), 0x800)],
    );
    assert_eq!(
        r,
        Err(vec![
            BitfieldIssue::OutOfRange(0),
            BitfieldIssue::UnknownField(2),
            BitfieldIssue::OutOfRange(3),
            BitfieldIssue::OutOfRange(4),
        ])
    );
    assert_eq!(pack_bitfield(&l, &[("tile".into(), 0x7FF)]), Ok(0x7FF));
    assert_eq!(unknown_field_message("Tile", "hflip"), "bitfield Tile has no field `hflip`");
}
