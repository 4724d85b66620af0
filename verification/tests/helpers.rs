use sigil_frontend_emp::ast::{BinOp, ConstDecl, Expr, Item, Path, SectionDecl, Type};
use sigil_frontend_emp::eval::builtins::{is_builtin, parse_emp_int};
use sigil_frontend_emp::eval::const_arity::{arity_check_targets, ast_ty_has_array, collect, ty_has_array};
use sigil_frontend_emp::eval::expr::{binop_symbol, overlay_name};
use sigil_frontend_emp::eval::typed::wrap_bits;
use sigil_frontend_emp::layout::Ty;
use sigil_frontend_emp::value::Span;

fn sp() -> Span {
    Span { source: 0, start: 0, end: 0 }
}
fn named(s: &str) -> Type {
    Type::Named(Path { segments: vec![s.to_string()], span: sp() })
}

#[test]
fn builtin_methods_are_a_closed_set() {
    for m in ["len", "map", "filter", "fold", "find", "slice", "val"] {
        assert!(is_builtin(m), "{m}");
    }
    assert!(!is_builtin("length"));
    assert!(!is_builtin(""));
    assert!(!is_builtin("Len"));
}

#[test]
fn emp_integer_literals() {
    assert_eq!(parse_emp_int("42"), Some(42));
    assert_eq!(parse_emp_int("  -17 "), Some(-17));
    assert_eq!(parse_emp_int("$FF"), Some(255));
    assert_eq!(parse_emp_int("0x1f"), Some(31));
    assert_eq!(parse_emp_int("0X1F"), Some(31));
    assert_eq!(parse_emp_int("0b101"), Some(5));
    assert_eq!(parse_emp_int("-$10"), Some(-16));
    assert_eq!(parse_emp_int("0"), Some(0));
    assert_eq!(parse_emp_int(""), None);
    assert_eq!(parse_emp_int("$"), None);
    assert_eq!(parse_emp_int("+5"), None);
    assert_eq!(parse_emp_int("$+5"), None);
    assert_eq!(parse_emp_int("$-5"), None);
    assert_eq!(parse_emp_int("--5"), None);
    assert_eq!(parse_emp_int("0b102"), None);
    assert_eq!(parse_emp_int("12a"), None);
    assert_eq!(
        parse_emp_int("170141183460469231731687303715884105727"),
        Some(i128::MAX)
    );
    assert_eq!(parse_emp_int("170141183460469231731687303715884105728"), None);
    assert_eq!(
        parse_emp_int("-170141183460469231731687303715884105727"),
        Some(-i128::MAX)
    );
}

#[test]
fn array_probes_descend_tuples_and_refinements() {
    let arr = Type::Array(Box::new(named("u8")), Box::new(Expr::Int(4, sp())));
    assert!(ast_ty_has_array(&arr));
    assert!(!ast_ty_has_array(&named("u8")));
    assert!(ast_ty_has_array(&Type::Tuple(vec![named("u8"), Type::Tuple(vec![arr])])));
    assert!(!ast_ty_has_array(&Type::Tuple(vec![named("u8"), named("u16")])));
    let refined = Type::Refined(
        Box::new(Type::Array(Box::new(named("u8")), Box::new(Expr::Int(2, sp())))),
        Box::new(Expr::Int(1, sp())),
    );
    assert!(ast_ty_has_array(&refined));
    assert!(!ast_ty_has_array(&Type::Ptr(Box::new(Type::Array(
        Box::new(named("u8")),
        Box::new(Expr::Int(2, sp()))
    )))));

    let prim = Ty::Prim { width: 1, signed: false, le: false };
    assert!(ty_has_array(&Ty::Array(Box::new(Ty::Poison), 3)));
    assert!(!ty_has_array(&prim));
    assert!(ty_has_array(&Ty::Struct("S".to_string())));
    assert!(ty_has_array(&Ty::Newtype("N".to_string())));
    assert!(ty_has_array(&Ty::Tuple(vec![Ty::Poison, Ty::Array(Box::new(Ty::Poison), 1)])));
    assert!(!ty_has_array(&Ty::Tuple(vec![Ty::Poison, Ty::Fixed { i: 8, f: 8 }])));
    assert!(ty_has_array(&Ty::Refined { inner: Box::new(Ty::Struct("S".to_string())) }));
    assert!(!ty_has_array(&Ty::Ptr(Box::new(Ty::Array(Box::new(Ty::Poison), 1)))));
    assert!(!ty_has_array(&Ty::Enum("E".to_string())));
}

#[test]
fn operator_spellings_and_overlay_names() {
    assert_eq!(binop_symbol(BinOp::Add), "+");
    assert_eq!(binop_symbol(BinOp::Shl), "<<");
    assert_eq!(binop_symbol(BinOp::Ne), "!=");
    assert_eq!(binop_symbol(BinOp::And), "&&");
    assert_eq!(binop_symbol(BinOp::Concat), "++");
    assert_eq!(overlay_name(&named("Player")), Some("Player".to_string()));
    assert_eq!(overlay_name(&Type::Named(Path { segments: vec!["A".to_string(), "B".to_string()], span: sp() })), None);
    assert_eq!(overlay_name(&Type::Ptr(Box::new(named("Player")))), None);
}

#[test]
fn wrapping_follows_the_underlying_width() {
    // A `u8` `200 + 100` wraps to 44; an `i8` `100 + 100` sign-extends to -56.
    assert_eq!(wrap_bits(300, 8, false), 44);
    assert_eq!(wrap_bits(200, 8, true), -56);
    assert_eq!(wrap_bits(-1, 8, false), 255);
    assert_eq!(wrap_bits(-1, 8, true), -1);
    assert_eq!(wrap_bits(-129, 8, true), 127);
    assert_eq!(wrap_bits(0x1_2345, 16, false), 0x2345);
    assert_eq!(wrap_bits(0x8000, 16, true), -0x8000);
    assert_eq!(wrap_bits(i128::MIN, 8, false), 0);
    assert_eq!(wrap_bits(i128::MIN, 126, true), 0);
    assert_eq!(wrap_bits(12345, 0, true), 12345);
    assert_eq!(wrap_bits(-5, 128, false), -5);
}

#[test]
fn binary_expressions_are_not_names() {
    let e = Expr::Binary {
        op: BinOp::Add,
        lhs: Box::new(Expr::Int(1, sp())),
        rhs: Box::new(Expr::Int(2, sp())),
        span: sp(),
    };
    assert!(sigil_frontend_emp::eval::operands::bare_symbol_seg(&e).is_none());
}

fn at(start: u32) -> Span {
    Span { source: 1, start, end: start + 5 }
}
fn konst(name: &str, ty: Option<Type>, span: Span) -> Item {
    Item::Const(ConstDecl { name: name.to_string(), ty, span })
}

#[test]
fn typed_consts_are_gathered_through_sections() {
    let items = vec![
        konst("A", Some(named("u8")), at(0)),
        konst("B", None, at(10)),
        Item::Other,
        Item::Section(SectionDecl {
            items: vec![
                konst("C", Some(named("u16")), at(20)),
                Item::Section(SectionDecl { items: vec![konst("D", Some(named("u32")), at(30))] }),
            ],
        }),
        konst("E", Some(named("u8")), at(40)),
    ];
    let mut out = Vec::new();
    collect(&items, &mut out);
    let names: Vec<&str> = out.iter().map(|t| t.0).collect();
    assert_eq!(names, vec!["A", "C", "D", "E"]);
    let spans: Vec<u32> = out.iter().map(|t| t.2.start).collect();
    assert_eq!(spans, vec![0, 20, 30, 40]);
    match out[1].1 {
        Type::Named(p) => assert_eq!(p.segments, vec!["u16".to_string()]),
        _ => panic!("annotation of C"),
    }
}

#[test]
fn collect_appends_after_what_is_there() {
    let items = vec![konst("A", Some(named("u8")), at(0))];
    let first = vec![konst("Z", Some(named("u8")), at(99))];
    let mut out = Vec::new();
    collect(&first, &mut out);
    collect(&items, &mut out);
    let names: Vec<&str> = out.iter().map(|t| t.0).collect();
    assert_eq!(names, vec!["Z", "A"]);
}

#[test]
fn a_declaration_cloned_in_twice_is_checked_once() {
    let items = vec![
        konst("K", Some(named("u8")), at(0)),
        konst("L", Some(named("u8")), at(10)),
        Item::Section(SectionDecl { items: vec![konst("K", Some(named("u8")), at(0))] }),
        konst("M", None, at(20)),
        konst("L2", Some(named("u8")), at(10)),
        konst("N", Some(named("u8")), Span { source: 2, start: 0, end: 5 }),
    ];
    let targets = arity_check_targets(&items);
    let names: Vec<&str> = targets.iter().map(|t| t.0).collect();
    assert_eq!(names, vec!["K", "L", "N"]);
    assert!(arity_check_targets(&[]).is_empty());
    assert!(arity_check_targets(&[konst("U", None, at(0))]).is_empty());
}
