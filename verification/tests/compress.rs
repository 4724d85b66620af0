use sigil_frontend_emp::ast::{Arg, Expr};
use sigil_frontend_emp::eval::compress::{s4lz_args, s4lz_exclusive};
use sigil_frontend_emp::eval::compress::{
    classic_input, flatten_cells, flatten_message, lzss_error_message, moduled_module_size,
    nemesis_error_message, s4lz_dict_input, s4lz_error_message, s4lz_input, zx0_frame, zx0_input,
    FlattenError, LzssError, NemesisError, S4lzError, MAX_MODULE_SIZE,
};
use sigil_frontend_emp::value::Cell;

fn scalar(value: i128, width: u8) -> Cell {
    Cell::Scalar { value, width, signed: false, le: false }
}

#[test]
fn s4lz_from_data_too_large_input_errors() {
    let r = s4lz_input(&[Cell::Bytes(vec![0u8; 0x10000])]);
    let m = r.unwrap_err();
    assert!(m.contains("[s4lz.too-large]"));
}

#[test]
fn s4lz_from_data_multibyte_scalar_errors() {
    let r = s4lz_input(&[scalar(0x1234, 2)]);
    assert!(r.unwrap_err().contains("[s4lz.byte-order]"));
}

#[test]
fn s4lz_from_data_byte_range_errors() {
    let r = s4lz_input(&[scalar(999, 1)]);
    assert!(r.unwrap_err().contains("[s4lz.byte-range]"));
}

#[test]
fn kosinski_from_data_symbolic_cell_errors() {
    let cells = [Cell::SymRef { name: "Foo".into(), width: 2, windowed: false }];
    let r = classic_input("kosinski", &cells);
    assert!(r.unwrap_err().contains("[kosinski.symbolic]"));
}

#[test]
fn zx0_from_data_too_large_input_errors() {
    let r = zx0_input(&[Cell::Bytes(vec![0u8; 0x10000])]);
    assert!(r.unwrap_err().contains("[zx0.too-large]"));
}

#[test]
fn zx0_from_data_multibyte_scalar_errors() {
    let r = zx0_input(&[scalar(0x1234, 2)]);
    assert!(r.unwrap_err().contains("[zx0.byte-order]"));
}

#[test]
fn zx0_from_data_byte_range_errors() {
    let r = zx0_input(&[scalar(999, 1)]);
    assert!(r.unwrap_err().contains("[zx0.byte-range]"));
}

#[test]
fn zx0_input_boundary_and_header() {
    let ok = zx0_input(&[Cell::Bytes(vec![7u8; 0xFFFF])]).unwrap();
    assert_eq!(ok.len(), 0xFFFF);
    assert_eq!(&zx0_frame(0xFFFF, &[9, 8])[..], &[0xFF, 0xFF, 0x00, 0x02, 9, 8]);
    assert_eq!(&zx0_frame(0, &[])[..], &[0x00, 0x00, 0x00, 0x02]);
    assert_eq!(&zx0_frame(0x0105, &[1])[..], &[0x01, 0x05, 0x00, 0x02, 1]);
    let mixed = zx0_input(&[scalar(5, 1), Cell::Bytes(vec![5, 5, 5, 5])]).unwrap();
    assert_eq!(mixed, vec![5, 5, 5, 5, 5]);
    assert_eq!(
        zx0_input(&[Cell::Bytes(vec![0u8; 0x10000])]).unwrap_err(),
        "[zx0.too-large] zx0 input is 65536 bytes, exceeds the 65535-byte u16 size field"
    );
}

#[test]
fn flatten_reads_bytes_and_one_byte_scalars_in_order() {
    let cells = [
        Cell::Bytes(vec![1, 2]),
        scalar(-1, 1),
        scalar(255, 1),
        scalar(-128, 1),
        Cell::Bytes(vec![]),
        Cell::Bytes(vec![3]),
    ];
    assert_eq!(flatten_cells(&cells), Ok(vec![1, 2, 0xFF, 0xFF, 0x80, 3]));
    assert_eq!(flatten_cells(&[]), Ok(vec![]));
}

#[test]
fn flatten_first_refusal_decides() {
    let cells = [
        Cell::Bytes(vec![1]),
        scalar(256, 1),
        Cell::RelOffset,
        Cell::Expr { width: 2, le: false },
    ];
    assert_eq!(flatten_cells(&cells), Err(FlattenError::ByteRange(256)));
    assert_eq!(flatten_cells(&[scalar(-129, 1)]), Err(FlattenError::ByteRange(-129)));
    assert_eq!(flatten_cells(&[Cell::RelOffset, scalar(300, 1)]), Err(FlattenError::RelOffset));
    assert_eq!(flatten_cells(&[Cell::Expr { width: 4, le: true }]), Err(FlattenError::Expr));
    assert_eq!(flatten_cells(&[scalar(1, 4)]), Err(FlattenError::ByteOrder));
}

#[test]
fn flatten_messages_name_tag_and_subject() {
    assert_eq!(
        flatten_message("s4lz.dict", "s4lz", FlattenError::ByteRange(-300)),
        "[s4lz.dict.byte-range] s4lz input byte -300 does not fit 8 bits"
    );
    assert_eq!(
        flatten_message("zx0", "zx0", FlattenError::ByteRange(i128::MIN)),
        "[zx0.byte-range] zx0 input byte -170141183460469231731687303715884105728 does not fit 8 bits"
    );
    assert_eq!(
        flatten_message("rocket", "rocket", FlattenError::ByteOrder),
        "[rocket.byte-order] rocket input has a multi-byte scalar with no committed byte order — build it from raw bytes (embed/bytes)"
    );
    assert_eq!(
        flatten_message("zx0", "zx0", FlattenError::SymRef),
        "[zx0.symbolic] zx0 input has an unresolved symbol reference"
    );
    assert_eq!(
        flatten_message("kosinski", "kosinski", FlattenError::RelOffset),
        "[kosinski.symbolic] kosinski input has an unresolved offset-table entry"
    );
    assert_eq!(
        flatten_message("nemesis", "nemesis", FlattenError::Expr),
        "[nemesis.symbolic] nemesis input has an unresolved link-expr value"
    );
}

#[test]
fn s4lz_dictionary_must_be_word_even() {
    assert_eq!(s4lz_dict_input(&[Cell::Bytes(vec![1, 2, 3, 4])]), Ok(vec![1, 2, 3, 4]));
    assert_eq!(
        s4lz_dict_input(&[Cell::Bytes(vec![1, 2, 3])]).unwrap_err(),
        "[s4lz.dict-odd] s4lz dict length 3 must be word-even (mirrors s4lz.py's ValueError)"
    );
    assert_eq!(
        s4lz_dict_input(&[scalar(7, 2)]).unwrap_err(),
        "[s4lz.dict.byte-order] s4lz input has a multi-byte scalar with no committed byte order — build it from raw bytes (embed/bytes)"
    );
}

#[test]
fn module_size_defaults_and_bounds() {
    assert_eq!(moduled_module_size("kosinski_m", None), Ok(MAX_MODULE_SIZE));
    assert_eq!(moduled_module_size("kosinski_m", Some(0x100)), Ok(0x100));
    assert_eq!(moduled_module_size("kosinski_m", Some(1)), Ok(1));
    assert_eq!(moduled_module_size("kosinski_m", Some(0x1000)), Ok(0x1000));
    assert_eq!(
        moduled_module_size("kosinski_m", Some(0x1001)).unwrap_err(),
        "[kosinski_m.module-size] kosinski_m module_size 0x1001 must be in 1..=0x1000 (0 is not a valid module size; the 12-bit moduled header cannot represent more than 0x1000)"
    );
    assert_eq!(
        moduled_module_size("kosplus_m", Some(0)).unwrap_err(),
        "[kosplus_m.module-size] kosplus_m module_size 0x0 must be in 1..=0x1000 (0 is not a valid module size; the 12-bit moduled header cannot represent more than 0x1000)"
    );
    let neg = moduled_module_size("kosplus_m", Some(-1)).unwrap_err();
    assert!(neg.contains(&format!("module_size {:#x} must", -1i128)));
    assert!(neg.contains("0xffffffffffffffffffffffffffffffff"));
}

#[test]
fn compressor_refusals_map_to_their_own_codes() {
    assert_eq!(
        lzss_error_message("kosinski_m", LzssError::ModuleSizeTooLarge { requested: 0x2000, max: 0x1000 }),
        "[kosinski_m.module-size] kosinski_m module_size 0x2000 exceeds the maximum 0x1000 representable by the moduled header"
    );
    assert_eq!(
        lzss_error_message("kosplus_m", LzssError::ModuleSizeZero),
        "[kosplus_m.module-size] kosplus_m module_size 0 is not a valid module size"
    );
    assert_eq!(
        lzss_error_message("kosinski_m", LzssError::DataTooLargeForModuled { len: 70000, max: 65535 }),
        "[kosinski_m.data-too-large] kosinski_m input is 70000 bytes — the 16-bit moduled header cannot represent more than 65535 bytes at this module_size"
    );
    assert_eq!(
        lzss_error_message("saxman", LzssError::CompressedSizeExceedsU16 { actual: 70012 }),
        "[saxman.too-large] saxman compressed output is 70012 bytes, exceeds the 65535-byte u16 header field"
    );
    assert_eq!(
        lzss_error_message("enigma", LzssError::NotWordEven { len: 3 }),
        "[enigma.word-even] enigma input is 3 bytes — must be word-even (a multiple of 2)"
    );
    assert_eq!(lzss_error_message("comper", LzssError::Overflow), "[comper.overflow] comper compression failed");
    assert_eq!(
        nemesis_error_message(NemesisError::NotTileAligned { len: 33 }),
        "[nemesis.tile-granularity] nemesis input is 33 bytes — must be a multiple of $20 (one 8x8 4bpp tile)"
    );
    assert_eq!(
        nemesis_error_message(NemesisError::TooManyTiles { tiles: 32768, max_tiles: 32767 }),
        "[nemesis.too-many-tiles] nemesis input has 32768 tiles, exceeds the maximum 32767 representable by the 15-bit header field"
    );
    assert_eq!(nemesis_error_message(NemesisError::Overflow), "[nemesis.overflow] nemesis compression failed");
    assert_eq!(
        s4lz_error_message(S4lzError::DictTileDeltaExclusive),
        "[s4lz.dict-tile-delta-exclusive] s4lz cannot take both `dict:` and `tile_delta:`"
    );
    assert_eq!(
        s4lz_error_message(S4lzError::DictLengthOdd(5)),
        "[s4lz.dict-odd] s4lz dict length 5 must be word-even"
    );
    assert_eq!(
        s4lz_error_message(S4lzError::WindowExceeded { dict_len: 100, data_len: 32700 }),
        "[s4lz.too-large] s4lz dict+data 32800 bytes (dict 100 + data 32700) exceeds the 32766-byte window"
    );
}

#[test]
fn s4lz_arguments_are_sorted_and_checked() {
    let sp = sigil_frontend_emp::value::Span { source: 0, start: 0, end: 0 };
    let arg = |name: Option<&str>| Arg { name: name.map(|s| s.to_string()), value: Expr::Int(0, sp), span: sp };
    let (sorted, req) = s4lz_args(&[arg(Some("tile_delta")), arg(None), arg(Some("level"))]);
    let req = req.unwrap();
    assert_eq!((req.data, req.dict, req.tile_delta), (1, None, Some(0)));
    assert_eq!(sorted.diags[0].1, "unknown named argument `level` to `s4lz`");
    let (_, missing) = s4lz_args(&[arg(Some("dict"))]);
    assert_eq!(missing.err().unwrap(), "`s4lz` requires a data argument");
    assert!(s4lz_exclusive(true, true).unwrap().starts_with("[s4lz.dict-tile-delta-exclusive]"));
    assert!(s4lz_exclusive(false, true).is_none());
}
