use sigil_frontend_emp::ast::{AsmStmt, Expr, Operand, Path, TextOrSplice};
use sigil_frontend_emp::eval::diag::{AssertParts, Width};
use sigil_frontend_emp::eval::lowering::{
    assert_precheck, let_register, lower_trap, raise_error_expansion, TrapKind,
};
use sigil_frontend_emp::value::{CodeItem, Cpu, Reg, Span};

fn sp() -> Span {
    Span { source: 0, start: 3, end: 9 }
}

fn path_op(name: &str) -> Operand {
    Operand::Plain {
        expr: Expr::Path(Path { segments: vec![name.to_string()], span: sp() }),
        size: None,
        span: sp(),
    }
}

fn parts(src: Operand, spelling: &str, cond: &str) -> AssertParts {
    AssertParts {
        width: Width::W,
        src,
        src_spelling: spelling.to_string(),
        cond: cond.to_string(),
        dest: None,
    }
}

fn mnemonic(s: &AsmStmt) -> Option<String> {
    match s {
        AsmStmt::Instr(i) if i.mnemonic.len() == 1 => match &i.mnemonic[0] {
            TextOrSplice::Text(t) => Some(t.clone()),
            TextOrSplice::Splice(_) => None,
        },
        _ => None,
    }
}

#[test]
fn let_binds_registers_and_refuses_other_names() {
    assert_eq!(let_register("a0").unwrap(), Reg::A0);
    assert_eq!(let_register("d7").unwrap(), Reg::D7);
    assert_eq!(let_register("sp").unwrap(), Reg::A7);
    let e = let_register("x").unwrap_err();
    assert_eq!(
        e,
        "[asm.let-not-register] `x` is not a register; `let <reg>: <Type>` types an address/data register (aN/dN)"
    );
    assert!(let_register("a8").is_err());
}

#[test]
fn todo_warns_and_assembles_to_illegal() {
    let r = lower_trap(Some(Cpu::M68000), TrapKind::Todo, Some("finish the table"), sp());
    assert!(r.error.is_none());
    assert_eq!(r.warning.as_deref(), Some("[todo.present] todo!: finish the table"));
    match r.item {
        Some(CodeItem::Instr { mnemonic, ops, span }) => {
            assert_eq!(mnemonic, "illegal");
            assert!(ops.is_empty());
            assert_eq!(span, sp());
        }
        _ => panic!("expected the illegal instruction"),
    }
    let bare = lower_trap(None, TrapKind::Todo, None, sp());
    assert_eq!(bare.warning.as_deref(), Some("[todo.present] todo! left in the build"));
}

#[test]
fn unreachable_is_silent_and_z80_refuses_traps() {
    let r = lower_trap(Some(Cpu::M68000), TrapKind::Unreachable, None, sp());
    assert!(r.error.is_none() && r.warning.is_none() && r.item.is_some());
    let z = lower_trap(Some(Cpu::Z80), TrapKind::Todo, Some("m"), sp());
    assert!(z.warning.is_none() && z.item.is_none());
    assert!(z.error.unwrap().starts_with("[todo.non-68k] `todo!`/`unreachable!` are 68k-only in v1"));
}

#[test]
fn assert_precheck_accepts_a_known_condition_on_a_register() {
    for c in ["eq", "ne", "cs", "cc", "pl", "mi", "hi", "hs", "ls", "lo", "gt", "ge", "le", "lt", "vs", "vc"] {
        assert!(assert_precheck(&parts(path_op("d0"), "d0", c)).is_ok(), "{c}");
    }
}

#[test]
fn assert_precheck_refuses_unknown_condition_first() {
    let e = assert_precheck(&parts(Operand::Imm(Expr::Int(1, sp())), "#1", "xx")).unwrap_err();
    assert_eq!(
        e,
        "unknown assert condition `xx` — expected one of eq, ne, cs, cc, pl, mi, hi, hs, ls, lo, gt, ge, le, lt, vs, vc"
    );
}

#[test]
fn assert_precheck_refuses_a_memory_source() {
    let e = assert_precheck(&parts(path_op("Counter"), "Counter", "eq")).unwrap_err();
    assert!(e.starts_with("assert `src` must be a register (dn/an) in v1, got `Counter` — move the value"));
}

#[test]
fn raise_error_expands_with_reversed_pushes() {
    let out = raise_error_expansion(4, "a=%<.b d1> b=%<.w #5>", sp()).unwrap();
    // label, pea, move sr, then the .w push of #5 (one), then the .b push of d1 (two).
    assert!(matches!(&out[0], AsmStmt::Label { name, .. } if name == "$diag4$raise"));
    assert_eq!(mnemonic(&out[1]).as_deref(), Some("pea"));
    assert_eq!(mnemonic(&out[3]).as_deref(), Some("move"));
    match &out[3] {
        AsmStmt::Instr(i) => assert!(matches!(i.operands[0], Operand::Imm(Expr::Int(5, _)))),
        _ => panic!(),
    }
    assert_eq!(mnemonic(&out[4]).as_deref(), Some("subq"));
    assert_eq!(mnemonic(&out[5]).as_deref(), Some("move"));
    assert_eq!(out.len(), 3 + 7);
}

#[test]
fn raise_error_refuses_a_memory_argument() {
    let e = raise_error_expansion(0, "v=%<.w (a0)>", sp()).unwrap_err();
    assert_eq!(
        e,
        "raise_error argument `(a0)` must be a register or immediate in v1 (§5) — a memory/EA operand arg is a recorded extension"
    );
}

#[test]
fn raise_error_names_the_last_bad_argument() {
    let e = raise_error_expansion(0, "%<.w (a0)> %<.w (a1)>", sp()).unwrap_err();
    assert!(e.contains("`(a1)`"));
}

#[test]
fn raise_error_passes_encoding_errors_through() {
    assert!(raise_error_expansion(0, "%<.q d0>", sp()).is_err());
}
