use sigil_frontend_emp::eval::emit::{
    ascii_bytes, pointer_int_cell, prim_bounds, prim_cell, range_check, str_byte_array,
    struct_shape_errors,
};
use sigil_frontend_emp::value::Cell;

fn names(v: &[&str]) -> Vec<String> {
    v.iter().map(|s| s.to_string()).collect()
}

#[test]
fn prim_bounds_are_the_natural_ranges() {
    assert_eq!(prim_bounds(1, false), (0, 255));
    assert_eq!(prim_bounds(1, true), (-128, 127));
    assert_eq!(prim_bounds(2, false), (0, 65535));
    assert_eq!(prim_bounds(2, true), (-32768, 32767));
    assert_eq!(prim_bounds(4, false), (0, 4294967295));
    assert_eq!(prim_bounds(4, true), (-2147483648, 2147483647));
    assert_eq!(prim_bounds(8, true), (i64::MIN as i128, i64::MAX as i128));
}

#[test]
fn range_check_reports_value_type_and_range() {
    assert!(range_check(255, 0, 255, "u8").is_none());
    assert_eq!(
        range_check(256, 0, 255, "u8").unwrap(),
        "[emit.out-of-range] 256 does not fit u8 (0..=255)"
    );
    assert_eq!(
        range_check(-129, -128, 127, "i8").unwrap(),
        "[emit.out-of-range] -129 does not fit i8 (-128..=127)"
    );
}

#[test]
fn prim_cell_emits_even_out_of_range() {
    let (cell, report) = prim_cell(70000, 2, false, true, "u16le");
    assert_eq!(cell, Cell::Scalar { value: 70000, width: 2, signed: false, le: true });
    assert_eq!(report.unwrap(), "[emit.out-of-range] 70000 does not fit u16le (0..=65535)");
    let (cell, report) = prim_cell(-1, 1, true, false, "i8");
    assert_eq!(cell, Cell::Scalar { value: -1, width: 1, signed: true, le: false });
    assert!(report.is_none());
}

#[test]
fn pointer_slot_integers_are_four_byte_unsigned() {
    let (cell, report) = pointer_int_cell(0);
    assert_eq!(cell, Cell::Scalar { value: 0, width: 4, signed: false, le: false });
    assert!(report.is_none());
    let (_, report) = pointer_int_cell(0x1_0000_0000);
    assert_eq!(
        report.unwrap(),
        "[emit.out-of-range] 4294967296 does not fit *u8 (absolute pointer cell) (0..=4294967295)"
    );
    assert!(pointer_int_cell(-1).1.is_some());
}

#[test]
fn ascii_bytes_are_raw_and_stop_at_non_ascii() {
    assert_eq!(ascii_bytes("HI!\n").unwrap(), vec![b'H', b'I', b'!', b'\n']);
    assert_eq!(
        ascii_bytes("caf\u{e9}").unwrap_err(),
        "[emit.non-ascii] string byte must be ASCII; '\u{e9}' is not — use a numeric literal or an escape"
    );
}

#[test]
fn string_against_byte_array_checks_length_exactly() {
    let (cell, report) = str_byte_array("HELLO", 5).unwrap();
    assert_eq!(cell, Cell::Bytes(b"HELLO".to_vec()));
    assert!(report.is_none());
    let (_, report) = str_byte_array("HELLO", 6).unwrap();
    assert_eq!(report.unwrap(), "array length mismatch: expected 6 element(s), got 5");
    assert!(str_byte_array("\u{263a}", 1).is_err());
}

#[test]
fn struct_shape_reports_missing_then_unknown() {
    let errs = struct_shape_errors("Point", &names(&["x", "y", "z"]), &names(&["y", "w"]));
    assert_eq!(
        errs,
        vec![
            "[struct.missing-field] struct Point: field `x` was not provided".to_string(),
            "[struct.missing-field] struct Point: field `z` was not provided".to_string(),
            "[struct.unknown-field] struct Point has no field `w`".to_string(),
        ]
    );
    assert!(struct_shape_errors("P", &names(&["a", "b"]), &names(&["b", "a"])).is_empty());
}
