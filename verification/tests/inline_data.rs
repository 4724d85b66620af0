use sigil_frontend_emp::ast::{Expr, Operand, Path, TextOrSplice};
use sigil_frontend_emp::eval::addressing::field_overrun;
use sigil_frontend_emp::eval::inline_data::{dc_element_expr, dc_int_cell, dc_str_cell, dc_width};
use sigil_frontend_emp::value::{Cell, Span, Width};

fn sp() -> Span {
    Span { source: 0, start: 0, end: 0 }
}

#[test]
fn dc_width_and_shape() {
    assert_eq!(dc_width(Some(Width::B), 1), Ok(1));
    assert_eq!(dc_width(Some(Width::W), 3), Ok(2));
    assert_eq!(dc_width(Some(Width::L), 1), Ok(4));
    assert_eq!(
        dc_width(None, 1),
        Err("[dc.missing-size] `dc` needs an explicit width — `dc.b`, `dc.w`, or `dc.l`".to_string())
    );
    assert_eq!(
        dc_width(Some(Width::S), 1),
        Err("[dc.missing-size] `.s` is a branch width — `dc` takes `.b`, `.w`, or `.l`".to_string())
    );
    assert_eq!(dc_width(Some(Width::W), 0), Err("[dc.empty] `dc` needs at least one element".to_string()));
    assert_eq!(
        dc_width(None, 0),
        Err("[dc.missing-size] `dc` needs an explicit width — `dc.b`, `dc.w`, or `dc.l`".to_string())
    );
}

#[test]
fn dc_elements_are_plain_expressions() {
    let e = Expr::Int(5, sp());
    let plain = Operand::Plain { expr: Expr::Int(5, sp()), size: None, span: sp() };
    assert!(matches!(dc_element_expr(&plain), Ok(Expr::Int(5, _))));
    assert!(matches!(dc_element_expr(&Operand::Splice(e)), Ok(Expr::Int(5, _))));
    let sized = Operand::Plain { expr: Expr::Int(5, sp()), size: Some(TextOrSplice::Text("w".into())), span: sp() };
    let msg = "[dc.operand] `dc` elements are plain comptime expressions — addressing-mode operands have no meaning here";
    assert_eq!(dc_element_expr(&sized).unwrap_err(), msg);
    assert_eq!(dc_element_expr(&Operand::Imm(Expr::Int(5, sp()))).unwrap_err(), msg);
    let path = Expr::Path(Path { segments: vec!["a0".into()], span: sp() });
    assert_eq!(dc_element_expr(&Operand::Ind { parts: vec![(path, None)], size: None, span: sp() }).unwrap_err(), msg);
}

#[test]
fn dc_integer_elements_are_range_checked() {
    match dc_int_cell(-128, 1) {
        Ok(Cell::Scalar { value: -128, width: 1, signed: true, le: false }) => {}
        other => panic!("{other:?}"),
    }
    match dc_int_cell(255, 1) {
        Ok(Cell::Scalar { value: 255, width: 1, signed: false, le: false }) => {}
        other => panic!("{other:?}"),
    }
    match dc_int_cell(0xFFFF_FFFF, 4) {
        Ok(Cell::Scalar { value: 0xFFFF_FFFF, width: 4, signed: false, le: false }) => {}
        other => panic!("{other:?}"),
    }
    assert_eq!(
        dc_int_cell(256, 1).unwrap_err(),
        "[dc.range] 256 does not fit a 1-byte `dc` element (allowed -128..=255)"
    );
    assert_eq!(
        dc_int_cell(-32769, 2).unwrap_err(),
        "[dc.range] -32769 does not fit a 2-byte `dc` element (allowed -32768..=65535)"
    );
    assert_eq!(
        dc_int_cell(0x1_0000_0000, 4).unwrap_err(),
        "[dc.range] 4294967296 does not fit a 4-byte `dc` element (allowed -2147483648..=4294967295)"
    );
}

#[test]
fn dc_strings_are_bytes_only() {
    match dc_str_cell("Hi", 1) {
        Ok(Cell::Bytes(b)) => assert_eq!(b, b"Hi".to_vec()),
        other => panic!("{other:?}"),
    }
    match dc_str_cell("é", 1) {
        Ok(Cell::Bytes(b)) => assert_eq!(b, vec![0xC3, 0xA9]),
        other => panic!("{other:?}"),
    }
    assert_eq!(
        dc_str_cell("Hi", 2).unwrap_err(),
        "[dc.string-width] string elements are `dc.b`-only (a string is a run of bytes; it has no word/long reading)"
    );
}

#[test]
fn field_overrun_compares_access_to_field_size() {
    assert_eq!(field_overrun("x", 2, Some(Width::W)), None);
    assert_eq!(field_overrun("x", 2, Some(Width::B)), None);
    assert_eq!(field_overrun("x", 1, None), None);
    assert_eq!(field_overrun("x", 1, Some(Width::S)), None);
    assert_eq!(
        field_overrun("hp", 2, Some(Width::L)),
        Some("[operand.field-overrun] .l access reads 4 bytes but field `hp` is 2 bytes".to_string())
    );
    assert_eq!(
        field_overrun("flag", 1, Some(Width::W)),
        Some("[operand.field-overrun] .w access reads 2 bytes but field `flag` is 1 byte".to_string())
    );
}
