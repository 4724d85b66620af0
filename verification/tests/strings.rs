use sigil_frontend_emp::eval::strings::{
    byte_cell, bytes_cell, check_arity, not_on_string_message, str_find, str_len, str_slice, winptr_cell,
};
use sigil_frontend_emp::value::Cell;

#[test]
fn string_builtins_count_characters() {
    assert_eq!(str_len(""), 0);
    assert_eq!(str_len("héllo"), 5);
    assert_eq!(str_find("hello world", "o"), 4);
    assert_eq!(str_find("hello world", "world"), 6);
    assert_eq!(str_find("héllo", "l"), 2);
    assert_eq!(str_find("abc", ""), 0);
    assert_eq!(str_find("abc", "abcd"), -1);
    assert_eq!(str_find("aab", "ab"), 1);
    assert_eq!(str_find("abc", "x"), -1);
    assert_eq!(str_slice("héllo", 1, 3), Ok("él".to_string()));
    assert_eq!(str_slice("abc", 0, 3), Ok("abc".to_string()));
    assert_eq!(str_slice("abc", 2, 2), Ok(String::new()));
    assert_eq!(
        str_slice("abc", 2, 1),
        Err("slice [2..1] out of range for string of length 3".to_string())
    );
    assert_eq!(
        str_slice("abc", -1, 2),
        Err("slice [-1..2] out of range for string of length 3".to_string())
    );
    assert_eq!(
        str_slice("abc", 0, 4),
        Err("slice [0..4] out of range for string of length 3".to_string())
    );
    assert_eq!(check_arity("find", 1, 1), None);
    assert_eq!(check_arity("slice", 2, 1), Some("`slice` expects 2 argument(s), got 1".to_string()));
    assert_eq!(not_on_string_message("map"), "`map` is not defined on string");
}

#[test]
fn byte_data_constructors() {
    match byte_cell(-5) {
        Ok(Cell::Scalar { value: 251, width: 1, signed: false, le: false }) => {}
        other => panic!("{other:?}"),
    }
    match byte_cell(255) {
        Ok(Cell::Scalar { value: 255, width: 1, signed: false, le: false }) => {}
        other => panic!("{other:?}"),
    }
    assert_eq!(byte_cell(256).unwrap_err(), "byte value 256 does not fit 8 bits (-128..=255)");
    assert_eq!(byte_cell(-129).unwrap_err(), "byte value -129 does not fit 8 bits (-128..=255)");
    match bytes_cell(&[1, -1, 255, -128]) {
        Ok(Cell::Bytes(b)) => assert_eq!(b, vec![1, 255, 255, 128]),
        other => panic!("{other:?}"),
    }
    match bytes_cell(&[]) {
        Ok(Cell::Bytes(b)) => assert!(b.is_empty()),
        other => panic!("{other:?}"),
    }
    match bytes_cell(&[1, 300, 2, -200]) {
        Err(ms) => assert_eq!(
            ms,
            vec![
                "byte value 300 does not fit 8 bits (-128..=255)".to_string(),
                "byte value -200 does not fit 8 bits (-128..=255)".to_string(),
            ]
        ),
        other => panic!("{other:?}"),
    }
    match winptr_cell("SndBank".to_string()) {
        Cell::SymRef { name, width: 2, windowed: true } => assert_eq!(name, "SndBank"),
        other => panic!("{other:?}"),
    }
}
