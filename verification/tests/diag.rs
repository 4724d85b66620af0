use sigil_frontend_emp::eval::diag::{
    assert_message, encode_fstring, exit_flag_bytes, is_register_name, parse_num, resolve_param,
    FStringArg, Width,
};

#[test]
fn control_tokens_encode() {
    assert_eq!(
        encode_fstring("A%<endl>B%<pal2>C").unwrap().bytes,
        vec![b'A', 0xE0, b'B', 0xEC, b'C', 0x00]
    );
}

#[test]
fn rings_assert_message_vector() {
    let m = assert_message(Width::B, "d4", "eq", Some("#0"));
    let mut expect = Vec::new();
    expect.extend(b"Assertion failed:");
    expect.push(0xE0);
    expect.push(0xEC);
    expect.extend(b"> assert.b ");
    expect.push(0xE8);
    expect.extend(b"d4,");
    expect.push(0xEC);
    expect.extend(b"eq");
    expect.push(0xE8);
    expect.extend(b",#0");
    expect.push(0xE0);
    expect.push(0xEA);
    expect.extend(b"Got: ");
    expect.push(0x80); // %<.b src> descriptor: hex|width_bits(b=0)
    expect.push(0x00); // terminator
    assert_eq!(m, expect);
}

#[test]
fn core_long_message_vector() {
    let m = assert_message(Width::L, "a0", "hs", Some("#Object_RAM"));
    assert_eq!(*m.last().unwrap(), 0x00);
    assert_eq!(m[m.len() - 2], 0x83); // hex($80) | long(3)
}

#[test]
fn exit_flag_parity_both_ways() {
    // pad=true (flag at EVEN offset) -> $20|$80 + $00 pad (rings shape);
    // pad=false (flag at ODD offset) -> bare $20 (core `.l` shape).
    assert_eq!(exit_flag_bytes(/*pad=*/ true), vec![0xA0, 0x00]);
    assert_eq!(exit_flag_bytes(/*pad=*/ false), vec![0x20]);
}

#[test]
fn tst_form_message_omits_dest() {
    let m = assert_message(Width::W, "d1", "eq", None);
    let s = m.windows(2).position(|w| w == [0xE8, b',']);
    assert!(s.is_none());
}

#[test]
fn rings_full_message_matches_transliteration() {
    let m = assert_message(Width::B, "d4", "eq", Some("#0"));
    let mut expect = Vec::new();
    expect.extend(b"Assertion failed:");
    expect.extend([0xE0, 0xEC]);
    expect.extend(b"> assert.b ");
    expect.push(0xE8);
    expect.extend(b"d4,");
    expect.push(0xEC);
    expect.extend(b"eq");
    expect.push(0xE8);
    expect.extend(b",#0");
    expect.extend([0xE0, 0xEA]);
    expect.extend(b"Got: ");
    expect.extend([0x80, 0x00]);
    assert_eq!(m, expect);
}

#[test]
fn core_word_message_matches_transliteration() {
    let m = assert_message(Width::W, "d7", "lo", Some("#NUM_DYNAMIC"));
    let mut expect = Vec::new();
    expect.extend(b"Assertion failed:");
    expect.extend([0xE0, 0xEC]);
    expect.extend(b"> assert.w ");
    expect.push(0xE8);
    expect.extend(b"d7,");
    expect.push(0xEC);
    expect.extend(b"lo");
    expect.push(0xE8);
    expect.extend(b",#NUM_DYNAMIC");
    expect.extend([0xE0, 0xEA]);
    expect.extend(b"Got: ");
    expect.extend([0x81, 0x00]); // hex|word
    assert_eq!(m, expect);
}

#[test]
fn cond_is_lowercased() {
    let upper = assert_message(Width::L, "a0", "HS", Some("#Object_RAM"));
    let lower = assert_message(Width::L, "a0", "hs", Some("#Object_RAM"));
    assert_eq!(upper, lower);
}

#[test]
fn fstring_records_arg_and_descriptor() {
    let e = encode_fstring("Got: %<.b d4>").unwrap();
    // "Got: " then descriptor $80 then terminator.
    assert_eq!(e.bytes, {
        let mut v = b"Got: ".to_vec();
        v.push(0x80);
        v.push(0x00);
        v
    });
    assert_eq!(e.args.len(), 1);
    assert_eq!(
        e.args[0],
        FStringArg { width: Width::B, operand_spelling: "d4".into(), param: "hex".into() }
    );
}

#[test]
fn fstring_arg_widths_descriptors() {
    assert_eq!(encode_fstring("%<.b d0>").unwrap().bytes, vec![0x80, 0x00]);
    assert_eq!(encode_fstring("%<.w d0>").unwrap().bytes, vec![0x81, 0x00]);
    assert_eq!(encode_fstring("%<.l a0>").unwrap().bytes, vec![0x83, 0x00]);
}

#[test]
fn fstring_arg_param_variants() {
    // dec = $90, dec|width_bits; sym = $B0; hex+signed = $88.
    assert_eq!(encode_fstring("%<.w d0 dec>").unwrap().bytes, vec![0x91, 0x00]);
    assert_eq!(encode_fstring("%<.l a0 sym>").unwrap().bytes, vec![0xB3, 0x00]);
    assert_eq!(encode_fstring("%<.b d0 signed>").unwrap().bytes, vec![0x88, 0x00]);
    assert_eq!(encode_fstring("%<.l a0 sym+split>").unwrap().bytes, vec![0xBB, 0x00]);
}

#[test]
fn ordered_args_multiple() {
    let e = encode_fstring("x=%<.w d0> y=%<.l a1 sym>").unwrap();
    assert_eq!(e.args.len(), 2);
    assert_eq!(e.args[0].operand_spelling, "d0");
    assert_eq!(e.args[1].operand_spelling, "a1");
    assert_eq!(e.args[1].param, "sym");
}

#[test]
fn parametrized_control_token() {
    // setw ($F0) N ; N low byte follows.
    assert_eq!(encode_fstring("%<setw 40>").unwrap().bytes, vec![0xF0, 40, 0x00]);
    assert_eq!(encode_fstring("%<setx $10>").unwrap().bytes, vec![0xFA, 0x10, 0x00]);
}

#[test]
fn control_param_out_of_range_errors() {
    // Loud over silent: >255 must error, not truncate to the low byte.
    let e = encode_fstring("%<setw 400>");
    assert!(e.is_err());
    let msg = e.unwrap_err();
    assert!(msg.contains("setw") && msg.contains("400"), "names token+value: {msg}");
    // Boundary: 255 is the largest one-byte value and must succeed.
    assert_eq!(encode_fstring("%<setw 255>").unwrap().bytes, vec![0xF0, 0xFF, 0x00]);
}

#[test]
fn all_plain_control_tokens() {
    assert_eq!(encode_fstring("%<endl>").unwrap().bytes, vec![0xE0, 0x00]);
    assert_eq!(encode_fstring("%<cr>").unwrap().bytes, vec![0xE6, 0x00]);
    assert_eq!(encode_fstring("%<pal0>").unwrap().bytes, vec![0xE8, 0x00]);
    assert_eq!(encode_fstring("%<pal1>").unwrap().bytes, vec![0xEA, 0x00]);
    assert_eq!(encode_fstring("%<pal2>").unwrap().bytes, vec![0xEC, 0x00]);
    assert_eq!(encode_fstring("%<pal3>").unwrap().bytes, vec![0xEE, 0x00]);
}

#[test]
fn empty_fstring_is_just_terminator() {
    assert_eq!(encode_fstring("").unwrap().bytes, vec![0x00]);
}

#[test]
fn encode_fstring_ends_at_terminator_no_exit_flag() {
    for s in ["", "plain text", "Got: %<.l a0 sym>", "a%<endl>b%<setw 20>c"] {
        let bytes = encode_fstring(s).unwrap().bytes;
        // Exactly one $00 and it is the final byte: nothing (no exit flag)
        // follows the terminator.
        assert_eq!(*bytes.last().unwrap(), 0x00, "must end at terminator: {s:?}");
        assert_eq!(
            bytes.iter().filter(|&&b| b == 0x00).count(),
            1,
            "exactly one terminator, none embedded: {s:?}"
        );
    }
}

#[test]
fn unknown_token_errors() {
    assert!(encode_fstring("%<bogus>").is_err());
}

#[test]
fn unterminated_token_errors() {
    assert!(encode_fstring("%<endl").is_err());
}

#[test]
fn param_below_0x80_rejected() {
    // A bare flag (`signed`=8) alone would resolve < $80 without a base —
    // but `signed` is normalized to hex+signed, so probe a raw sub-$80
    // spelling via a flag-only expression that skips the normalization.
    assert!(resolve_param("forced").is_err());
    assert!(resolve_param("split").is_err());
}

#[test]
fn signed_normalizes_to_hex_signed() {
    assert_eq!(resolve_param("signed").unwrap(), 0x88);
}

#[test]
fn raise_error_style_message() {
    let e = encode_fstring("Bad path swap!%<endl>Got: %<.b d0>").unwrap();
    let mut expect = b"Bad path swap!".to_vec();
    expect.push(0xE0);
    expect.extend(b"Got: ");
    expect.push(0x80);
    expect.push(0x00);
    assert_eq!(e.bytes, expect);
    assert_eq!(e.args.len(), 1);
}

#[test]
fn flag_parity_follows_message_length() {
    // rings message (len 50, even) → padded.
    let even = assert_message(Width::B, "d4", "eq", Some("#0"));
    assert!(even.len() % 2 == 0);
    assert_eq!(exit_flag_bytes(even.len() % 2 == 0), vec![0xA0, 0x00]);
    // core `.l` message (odd) → bare $20.
    let odd = assert_message(Width::L, "a0", "hs", Some("#Object_RAM"));
    assert!(odd.len() % 2 != 0);
    assert_eq!(exit_flag_bytes(odd.len() % 2 == 0), vec![0x20]);
}

// --- error texts, one input per error ------------------------------------

#[test]
fn error_messages_name_the_offender() {
    assert_eq!(
        encode_fstring("%<endl").unwrap_err(),
        "unterminated `%<` token in FSTRING: `%<endl`"
    );
    assert_eq!(
        encode_fstring("caf\u{e9}").unwrap_err(),
        "non-ASCII character `\u{e9}` in FSTRING literal text"
    );
    assert_eq!(
        encode_fstring("%<.q d0>").unwrap_err(),
        "unknown FSTRING argument type `.q d0` (expected .b/.w/.l)"
    );
    assert_eq!(
        encode_fstring("%<.w>").unwrap_err(),
        "FSTRING argument token `%<.w...>` has no operand"
    );
    assert_eq!(
        encode_fstring("%<setw>").unwrap_err(),
        "FSTRING control token `%<setw>` requires a numeric argument"
    );
    assert_eq!(
        encode_fstring("%<setx zz>").unwrap_err(),
        "FSTRING control token `%<setx zz>`: `zz` is not a number"
    );
    assert_eq!(
        encode_fstring("%<setw 400>").unwrap_err(),
        "FSTRING control token `%<setw 400>`: value 400 does not fit one byte (0..=255)"
    );
    assert_eq!(
        encode_fstring("%< bogus >").unwrap_err(),
        "unknown FSTRING token `%<bogus>` (expected endl, cr, pal0..3, setw/setoff/setpat/setx N, \
         or .b/.w/.l operand [param])"
    );
    assert_eq!(
        encode_fstring("%<.b d0 hex+loud>").unwrap_err(),
        "unknown FSTRING param `loud` (expected hex, dec, bin, sym, symdisp, str, or a flag: \
         signed, split, forced, weak)"
    );
    assert_eq!(
        resolve_param(" forced ").unwrap_err(),
        "illegal FSTRING param `forced`: resolved byte $04 is < $80 (expected hex, dec, bin, \
         sym, str or their derivatives)"
    );
}

#[test]
fn first_error_left_to_right_wins() {
    // The unterminated tail is never reached: the bad token comes first.
    assert!(encode_fstring("%<bogus>%<endl").unwrap_err().starts_with("unknown FSTRING token"));
}

#[test]
fn param_spellings_resolve_to_their_bytes() {
    assert_eq!(resolve_param("").unwrap(), 0x80);
    assert_eq!(resolve_param("dec+signed").unwrap(), 0x98);
    assert_eq!(resolve_param("symdisp + weak").unwrap(), 0xC8);
    assert_eq!(resolve_param("sym+forced").unwrap(), 0xB4);
    assert_eq!(resolve_param("str").unwrap(), 0xD0);
    assert_eq!(resolve_param("bin").unwrap(), 0xA0);
    assert!(resolve_param("hex+").is_err());
}

#[test]
fn control_param_spellings() {
    assert_eq!(encode_fstring("%<setoff %101>").unwrap().bytes, vec![0xF4, 5, 0x00]);
    assert_eq!(encode_fstring("%<setpat 0x1F>").unwrap().bytes, vec![0xF8, 0x1F, 0x00]);
    assert_eq!(encode_fstring("%<setx +7>").unwrap().bytes, vec![0xFA, 7, 0x00]);
}

#[test]
fn arg_with_spaced_param_records_spelling() {
    let e = encode_fstring("%< .l  a2   dec+signed  >").unwrap();
    assert_eq!(e.bytes, vec![0x9B, 0x00]);
    assert_eq!(
        e.args[0],
        FStringArg { width: Width::L, operand_spelling: "a2".into(), param: "dec+signed".into() }
    );
}

#[test]
fn numeric_literals() {
    assert_eq!(parse_num(" $ff "), Some(255));
    assert_eq!(parse_num("0X10"), Some(16));
    assert_eq!(parse_num("%1010"), Some(10));
    assert_eq!(parse_num("42"), Some(42));
    assert_eq!(parse_num("+42"), Some(42));
    assert_eq!(parse_num("-1"), None);
    assert_eq!(parse_num("$"), None);
    assert_eq!(parse_num("18446744073709551615"), Some(u64::MAX));
    assert_eq!(parse_num("18446744073709551616"), None);
    assert_eq!(parse_num("12a"), None);
}

#[test]
fn width_bits_and_suffixes() {
    assert_eq!(Width::B.bits(), 0);
    assert_eq!(Width::W.bits(), 1);
    assert_eq!(Width::L.bits(), 3);
    assert_eq!(Width::L.suffix(), "l");
}

#[test]
fn register_names() {
    for r in ["d0", "d7", "a0", "a7", "sp"] {
        assert!(is_register_name(r), "{r}");
    }
    for r in ["d8", "a", "pc", "sr", "d00", ""] {
        assert!(!is_register_name(r), "{r}");
    }
}

#[test]
fn encoding_a_concatenation_joins_the_encodings() {
    let a = encode_fstring("x=%<.w d0> ").unwrap();
    let b = encode_fstring("y%<endl>").unwrap();
    let ab = encode_fstring("x=%<.w d0> y%<endl>").unwrap();
    let mut bytes = a.bytes[..a.bytes.len() - 1].to_vec();
    bytes.extend_from_slice(&b.bytes);
    assert_eq!(ab.bytes, bytes);
    assert_eq!(ab.args, [a.args, b.args].concat());
}

#[test]
fn assert_messages_ignore_condition_case_and_insert_the_destination() {
    assert_eq!(
        assert_message(Width::L, "a0", "HS", Some("#Object_RAM")),
        assert_message(Width::L, "a0", "hs", Some("#Object_RAM"))
    );
    let m0 = assert_message(Width::W, "d1", "eq", None);
    let m1 = assert_message(Width::W, "d1", "eq", Some("#5"));
    let k = 33 + 2 + 2;
    assert_eq!(m1, [&m0[..k], &[0xE8, b','], b"#5", &m0[k..]].concat());
}
