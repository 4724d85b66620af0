use sigil_frontend_emp::ast::{AsmStmt, Expr, Operand, Path, TextOrSplice};
use sigil_frontend_emp::eval::diag::{assert_message, encode_fstring, AssertParts, Width};
use sigil_frontend_emp::eval::expansion::{
    arg_push, build_assert_expansion, build_raise_error_expansion, fstring_arg_operand,
};
use sigil_frontend_emp::value::Span;

fn sp() -> Span {
    Span { source: 0, start: 0, end: 0 }
}

fn reg_op(name: &str) -> Operand {
    Operand::Plain {
        expr: Expr::Path(Path { segments: vec![name.to_string()], span: sp() }),
        size: None,
        span: sp(),
    }
}

fn parts(w: Width, src: &str, cond: &str, dest: Option<&str>) -> AssertParts {
    AssertParts {
        width: w,
        src: reg_op(src),
        src_spelling: src.to_string(),
        cond: cond.to_string(),
        dest: dest.map(|d| (Operand::Imm(Expr::Int(0, sp())), d.to_string())),
    }
}

fn text(t: &TextOrSplice) -> Option<&str> {
    match t {
        TextOrSplice::Text(s) => Some(s.as_str()),
        TextOrSplice::Splice(_) => None,
    }
}

/// The single mnemonic part of an instruction statement.
fn mnemonic(s: &AsmStmt) -> Option<&str> {
    match s {
        AsmStmt::Instr(i) if i.mnemonic.len() == 1 => text(&i.mnemonic[0]),
        _ => None,
    }
}

fn size(s: &AsmStmt) -> Option<&str> {
    match s {
        AsmStmt::Instr(i) => i.size.as_ref().and_then(text),
        _ => None,
    }
}

fn label_names(v: &[AsmStmt]) -> Vec<String> {
    v.iter()
        .filter_map(|s| if let AsmStmt::Label { name, .. } = s { Some(name.clone()) } else { None })
        .collect()
}

#[test]
fn assert_expansion_structure_cmp_form() {
    let stmts = build_assert_expansion(7, &parts(Width::B, "d4", "eq", Some("#0")), sp());
    // 1: move.w sr,-(sp)
    assert_eq!(mnemonic(&stmts[0]), Some("move"));
    // 2: cmp.b (cmp form, not tst)
    assert_eq!(mnemonic(&stmts[1]), Some("cmp"));
    assert_eq!(size(&stmts[1]), Some("b"));
    // 3: beq.w, the branch width pinned.
    assert_eq!(mnemonic(&stmts[2]), Some("beq"));
    assert_eq!(size(&stmts[2]), Some("w"), "branch width is pinned .w");
    let labels = label_names(&stmts);
    assert!(labels.contains(&"$diag7$raise".to_string()), "raise label is fresh: {labels:?}");
    assert!(labels.contains(&"$diag7$skip".to_string()), "skip label is fresh: {labels:?}");
}

#[test]
fn assert_expansion_structure_tst_form() {
    let stmts = build_assert_expansion(0, &parts(Width::W, "d1", "eq", None), sp());
    assert_eq!(mnemonic(&stmts[1]), Some("tst"));
    assert_eq!(size(&stmts[1]), Some("w"));
    let AsmStmt::Instr(op) = &stmts[1] else { panic!() };
    assert_eq!(op.operands.len(), 1, "tst form tests src alone");
}

#[test]
fn fresh_labels_per_instantiation() {
    let a = build_assert_expansion(1, &parts(Width::B, "d4", "eq", Some("#0")), sp());
    let b = build_assert_expansion(2, &parts(Width::B, "d4", "eq", Some("#0")), sp());
    for na in label_names(&a) {
        assert!(!label_names(&b).contains(&na), "label `{na}` collides across expansions");
    }
}

#[test]
fn raise_error_expansion_is_bare_tail() {
    let enc = encode_fstring("boom%<endl>Got: %<.b d0>").unwrap();
    let stmts = build_raise_error_expansion(3, &enc.bytes, vec![], sp());
    assert!(matches!(&stmts[0], AsmStmt::Label { name, .. } if name == "$diag3$raise"));
    assert_eq!(mnemonic(&stmts[1]), Some("pea"));
    for s in &stmts {
        if let Some(m) = mnemonic(s) {
            assert!(!m.starts_with('b') || m == "boom", "no branch in raise_error tail: {m}");
            assert_ne!(m, "cmp");
            assert_ne!(m, "tst");
        }
    }
}

#[test]
fn fstring_arg_operand_reg_and_imm_only() {
    assert!(fstring_arg_operand("d0", sp()).is_some());
    assert!(fstring_arg_operand("#$8000", sp()).is_some());
    assert!(fstring_arg_operand("#Object_RAM", sp()).is_some());
    assert!(fstring_arg_operand("(a0)", sp()).is_none());
    assert!(fstring_arg_operand("4(a0,d0.w)", sp()).is_none());
}

#[test]
fn the_whole_assert_expansion_in_order() {
    let stmts = build_assert_expansion(12, &parts(Width::L, "a0", "HS", Some("#Object_RAM")), sp());
    let shape: Vec<(Option<&str>, Option<&str>)> = stmts.iter().map(|s| (mnemonic(s), size(s))).collect();
    assert_eq!(
        shape,
        vec![
            (Some("move"), Some("w")),
            (Some("cmp"), Some("l")),
            (Some("bHS"), Some("w")),
            (None, None),
            (Some("pea"), None),
            (Some("move"), Some("w")),
            (Some("move"), Some("l")),
            (Some("jsr"), None),
            (Some("dc"), Some("b")),
            (Some("dc"), Some("b")),
            (Some("jmp"), None),
            (None, None),
            (Some("move"), Some("w")),
        ]
    );
    assert_eq!(label_names(&stmts), vec!["$diag12$raise".to_string(), "$diag12$skip".to_string()]);
    // The inline message is the auto-message, byte per operand; the odd-length
    // `.l` message takes the bare exit flag.
    let message = assert_message(Width::L, "a0", "HS", Some("#Object_RAM"));
    let AsmStmt::Instr(data) = &stmts[8] else { panic!() };
    assert_eq!(data.operands.len(), message.len());
    let AsmStmt::Instr(flag) = &stmts[9] else { panic!() };
    assert_eq!(flag.operands.len(), 1);
    assert!(matches!(&flag.operands[0], Operand::Plain { expr: Expr::Int(0x20, _), .. }));
    // The handler and page-controller entry points.
    let AsmStmt::Instr(jsr) = &stmts[7] else { panic!() };
    assert!(matches!(&jsr.operands[0], Operand::Ind { parts, size: Some(TextOrSplice::Text(l)), .. }
        if l == "l" && matches!(&parts[0].0, Expr::Path(p) if p.segments == vec!["MDDBG__ErrorHandler".to_string()])));
}

#[test]
fn byte_pushes_take_a_two_byte_slot() {
    let b = arg_push(Width::B, reg_op("d3"), sp());
    assert_eq!(b.len(), 2);
    assert_eq!(mnemonic(&b[0]), Some("subq"));
    assert_eq!(size(&b[0]), Some("w"));
    assert_eq!(mnemonic(&b[1]), Some("move"));
    assert_eq!(size(&b[1]), Some("b"));
    let AsmStmt::Instr(mv) = &b[1] else { panic!() };
    assert!(matches!(&mv.operands[1], Operand::DispInd { disp: Expr::Int(1, _), .. }));
    let w = arg_push(Width::W, reg_op("d3"), sp());
    assert_eq!(w.len(), 1);
    assert_eq!(size(&w[0]), Some("w"));
    let AsmStmt::Instr(mv) = &w[0] else { panic!() };
    assert!(matches!(&mv.operands[1], Operand::PreDec(_)));
}

#[test]
fn immediate_arguments_parse_numbers_and_bare_symbols() {
    assert!(matches!(fstring_arg_operand(" # $10 ", sp()), Some(Operand::Imm(Expr::Int(16, _)))));
    assert!(matches!(fstring_arg_operand("#%101", sp()), Some(Operand::Imm(Expr::Int(5, _)))));
    assert!(matches!(fstring_arg_operand("#_x1", sp()), Some(Operand::Imm(Expr::Path(_)))));
    assert!(fstring_arg_operand("#1x", sp()).is_none());
    assert!(fstring_arg_operand("#a.b", sp()).is_none());
    assert!(fstring_arg_operand("#", sp()).is_none());
    // A literal too wide for an i64 is refused, not read as a symbol.
    assert!(fstring_arg_operand("#$FFFFFFFFFFFFFFFF", sp()).is_none());
    assert!(matches!(fstring_arg_operand(" sp ", sp()), Some(Operand::Plain { .. })));
    assert!(fstring_arg_operand("d8", sp()).is_none());
}
