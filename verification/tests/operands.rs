use sigil_frontend_emp::ast::{AsmStmt, BinOp, Expr, Operand, Path, TextOrSplice};
use sigil_frontend_emp::eval::operands::{
    collect_labels, operand_span, operand_to_arg, bare_symbol_seg, flatten_reglist_expr, movem_reg_list, operand_is_register, pc_rel_shape,
    reg_from_name, reg_list_bit, single_segment_field, two_segment_field, width_from_text,
    PcRelShape, ReglistSep,
};
use sigil_frontend_emp::value::{Reg, Span, Width};

fn sp() -> Span {
    Span { source: 0, start: 0, end: 0 }
}
fn path(segs: &[&str]) -> Expr {
    Expr::Path(Path { segments: segs.iter().map(|s| s.to_string()).collect(), span: sp() })
}
fn name(s: &str) -> Expr {
    path(&[s])
}
fn bin(op: BinOp, lhs: Expr, rhs: Expr) -> Expr {
    Expr::Binary { op, lhs: Box::new(lhs), rhs: Box::new(rhs), span: sp() }
}
fn plain(expr: Expr) -> Operand {
    Operand::Plain { expr, size: None, span: sp() }
}

#[test]
fn size_suffixes_and_register_names() {
    assert_eq!(width_from_text("b"), Some(Width::B));
    assert_eq!(width_from_text("w"), Some(Width::W));
    assert_eq!(width_from_text("l"), Some(Width::L));
    assert_eq!(width_from_text("s"), Some(Width::S));
    assert_eq!(width_from_text("q"), None);
    assert_eq!(width_from_text("bb"), None);
    assert_eq!(reg_from_name("d3"), Some(Reg::D3));
    assert_eq!(reg_from_name("a7"), Some(Reg::A7));
    assert_eq!(reg_from_name("sp"), Some(Reg::A7));
    assert_eq!(reg_from_name("d8"), None);
    assert_eq!(reg_from_name("x0"), None);
    assert_eq!(reg_list_bit(Reg::D0), 0);
    assert_eq!(reg_list_bit(Reg::D7), 7);
    assert_eq!(reg_list_bit(Reg::A0), 8);
    assert_eq!(reg_list_bit(Reg::A7), 15);
}

#[test]
fn bare_symbols_exclude_register_words() {
    assert_eq!(bare_symbol_seg(&name("Table")), Some("Table"));
    assert_eq!(bare_symbol_seg(&name("d0")), None);
    assert_eq!(bare_symbol_seg(&name("sp")), None);
    assert_eq!(bare_symbol_seg(&name("sr")), None);
    assert_eq!(bare_symbol_seg(&name("ccr")), None);
    assert_eq!(bare_symbol_seg(&path(&["Obj", "x"])), None);
    assert_eq!(bare_symbol_seg(&Expr::Int(4, sp())), None);
}

#[test]
fn displacement_fields() {
    assert_eq!(single_segment_field(&name("x_pos")), Some("x_pos"));
    assert_eq!(single_segment_field(&name("a0")), None);
    assert_eq!(single_segment_field(&path(&["Obj", "x"])), None);
    assert_eq!(two_segment_field(&path(&["Obj", "x"])), Some(("Obj", "x")));
    assert_eq!(two_segment_field(&name("x")), None);
    assert_eq!(two_segment_field(&path(&["A", "B", "c"])), None);
}

#[test]
fn register_operands() {
    assert!(operand_is_register(&plain(name("d2"))));
    assert!(operand_is_register(&plain(name("sp"))));
    assert!(!operand_is_register(&plain(name("Table"))));
    assert!(!operand_is_register(&Operand::Plain {
        expr: name("d2"),
        size: Some(TextOrSplice::Text("w".to_string())),
        span: sp(),
    }));
    assert!(!operand_is_register(&Operand::Imm(Expr::Int(1, sp()))));
}

#[test]
fn movem_lists_re_linearize_precedence() {
    // `d0-d7/a0-a6` parses as `Sub(Sub(d0, Div(d7, a0)), a6)`.
    let tree = bin(BinOp::Sub, bin(BinOp::Sub, name("d0"), bin(BinOp::Div, name("d7"), name("a0"))), name("a6"));
    let mut items = Vec::new();
    assert_eq!(flatten_reglist_expr(&tree, &mut items), Some(()));
    assert_eq!(
        items,
        vec![
            (Reg::D0, ReglistSep::Union),
            (Reg::D7, ReglistSep::Range),
            (Reg::A0, ReglistSep::Union),
            (Reg::A6, ReglistSep::Range),
        ]
    );
    assert_eq!(movem_reg_list(&plain(tree)), Some(0x7fff));
}

#[test]
fn movem_masks() {
    assert_eq!(movem_reg_list(&plain(name("d0"))), Some(0x0001));
    assert_eq!(movem_reg_list(&plain(name("sp"))), Some(0x8000));
    assert_eq!(movem_reg_list(&plain(bin(BinOp::Div, name("a2"), name("d2")))), Some(0x0404));
    // A `d`-to-`a` crossing range covers both banks.
    assert_eq!(movem_reg_list(&plain(bin(BinOp::Sub, name("d6"), name("a1")))), Some(0x03c0));
    // A backwards range is not a register list.
    assert_eq!(movem_reg_list(&plain(bin(BinOp::Sub, name("d5"), name("d1")))), None);
    // A non-register leaf, another operator, or a sized operand is not one either.
    assert_eq!(movem_reg_list(&plain(bin(BinOp::Sub, name("d0"), name("Label")))), None);
    assert_eq!(movem_reg_list(&plain(bin(BinOp::Add, name("d0"), name("d1")))), None);
    assert_eq!(
        movem_reg_list(&Operand::Plain {
            expr: name("d0"),
            size: Some(TextOrSplice::Text("l".to_string())),
            span: sp(),
        }),
        None
    );
    assert_eq!(movem_reg_list(&Operand::Imm(name("d0"))), None);
}

#[test]
fn pc_relative_shapes() {
    let plain_pc = Operand::Ind { parts: vec![(name("pc"), None)], size: None, span: sp() };
    assert!(matches!(pc_rel_shape(&plain_pc), Some(PcRelShape::Plain)));
    let indexed = Operand::Ind {
        parts: vec![(name("pc"), None), (name("d0"), Some(TextOrSplice::Text("w".to_string())))],
        size: None,
        span: sp(),
    };
    match pc_rel_shape(&indexed) {
        Some(PcRelShape::Indexed { xn_expr, xn_size }) => {
            assert!(matches!(xn_expr, Expr::Path(p) if p.segments == vec!["d0".to_string()]));
            assert!(matches!(xn_size, Some(TextOrSplice::Text(t)) if t == "w"));
        }
        _ => panic!("expected an indexed PC-relative shape"),
    }
    let not_pc = Operand::Ind { parts: vec![(name("a0"), None)], size: None, span: sp() };
    assert!(pc_rel_shape(&not_pc).is_none());
    let sized_pc = Operand::Ind {
        parts: vec![(name("pc"), Some(TextOrSplice::Text("w".to_string())))],
        size: None,
        span: sp(),
    };
    assert!(pc_rel_shape(&sized_pc).is_none());
    assert!(pc_rel_shape(&plain(name("pc"))).is_none());
}

fn at(start: u32) -> Span {
    Span { source: 0, start, end: start + 1 }
}

#[test]
fn call_arguments_reverse_from_operands() {
    // A bare expression is its own positional argument.
    let a = operand_to_arg(&plain(Expr::Int(7, at(3)))).unwrap();
    assert!(a.name.is_none());
    assert!(matches!(a.value, Expr::Int(7, s) if s == at(3)));
    assert_eq!(a.span, at(3));
    // The folded call `inner(2, d0)` reverses to the call it came from.
    let folded = Operand::DispInd {
        disp: Expr::Path(Path { segments: vec!["inner".to_string()], span: at(1) }),
        inner: Box::new(Operand::Ind {
            parts: vec![(Expr::Int(2, at(7)), None), (name("d0"), None)],
            size: None,
            span: at(6),
        }),
        span: at(0),
    };
    let a = operand_to_arg(&folded).unwrap();
    assert!(a.name.is_none());
    assert_eq!(a.span, at(0));
    match a.value {
        Expr::Call { callee, args, span } => {
            assert_eq!(callee.segments, vec!["inner".to_string()]);
            assert_eq!(span, at(0));
            assert_eq!(args.len(), 2);
            assert!(matches!(args[0].value, Expr::Int(2, _)));
            assert_eq!(args[0].span, at(7));
            assert!(args.iter().all(|x| x.name.is_none()));
        }
        _ => panic!("expected a call"),
    }
    // Addressing-mode shapes are not call arguments.
    assert!(operand_to_arg(&Operand::Imm(Expr::Int(1, sp()))).is_none());
    assert!(operand_to_arg(&Operand::Plain {
        expr: name("d0"),
        size: Some(TextOrSplice::Text("w".to_string())),
        span: sp(),
    })
    .is_none());
    let sized_part = Operand::DispInd {
        disp: name("f"),
        inner: Box::new(Operand::Ind {
            parts: vec![(name("d0"), Some(TextOrSplice::Text("w".to_string())))],
            size: None,
            span: sp(),
        }),
        span: sp(),
    };
    assert!(operand_to_arg(&sized_part).is_none());
    let register_base = Operand::DispInd {
        disp: Expr::Int(4, sp()),
        inner: Box::new(Operand::Ind { parts: vec![(name("a0"), None)], size: None, span: sp() }),
        span: sp(),
    };
    assert!(operand_to_arg(&register_base).is_none());
}

#[test]
fn operand_spans_reach_through_pre_and_post_forms() {
    let ind = Operand::Ind { parts: vec![(name("a0"), None)], size: None, span: at(5) };
    assert_eq!(operand_span(&ind), at(5));
    assert_eq!(operand_span(&Operand::PreDec(Box::new(Operand::Ind {
        parts: vec![(name("sp"), None)],
        size: None,
        span: at(9),
    }))), at(9));
    assert_eq!(operand_span(&Operand::Imm(Expr::Int(1, at(2)))), at(2));
    assert_eq!(operand_span(&Operand::Splice(Expr::Int(1, at(4)))), at(4));
}

#[test]
fn labels_are_collected_through_both_comptime_arms() {
    let label = |n: &str, export: bool, start: u32| AsmStmt::Label { name: n.to_string(), export, span: at(start) };
    let body = vec![
        label(".a", false, 0),
        AsmStmt::If {
            cond: Expr::Int(1, sp()),
            then: vec![label(".b", true, 1), AsmStmt::If { cond: Expr::Int(0, sp()), then: vec![label(".c", false, 2)], els: None, span: sp() }],
            els: Some(vec![label(".b", false, 3)]),
            span: sp(),
        },
        label(".d", false, 4),
    ];
    let mut out = Vec::new();
    collect_labels(&body, &mut out);
    assert_eq!(
        out,
        vec![(".a", false, at(0)), (".b", true, at(1)), (".c", false, at(2)), (".b", false, at(3)), (".d", false, at(4))]
    );
}
