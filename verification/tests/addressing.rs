use sigil_frontend_emp::ast::{BinOp, Expr, Operand, Path, TextOrSplice};
use sigil_frontend_emp::eval::addressing::{
    an_indexed_base, brief_displacement, index_size_long, movem_roles, pcrel_addend, peek_inner_reg,
    pinned_abs_address, pinned_abs_long, pinned_abs_name, size_from_text, MovemRoles,
};
use sigil_frontend_emp::value::{Reg, Span, Width};

fn sp() -> Span {
    Span { source: 0, start: 0, end: 0 }
}
fn name(s: &str) -> Expr {
    Expr::Path(Path { segments: vec![s.to_string()], span: sp() })
}
fn plain(expr: Expr) -> Operand {
    Operand::Plain { expr, size: None, span: sp() }
}
fn ind(parts: Vec<(Expr, Option<TextOrSplice>)>) -> Operand {
    Operand::Ind { parts, size: None, span: sp() }
}

#[test]
fn peeking_a_literal_base_register() {
    assert_eq!(peek_inner_reg(&ind(vec![(name("a0"), None)])), Some(Reg::A0));
    assert_eq!(peek_inner_reg(&ind(vec![(name("sp"), None)])), Some(Reg::A7));
    assert_eq!(peek_inner_reg(&ind(vec![(name("Base"), None)])), None);
    assert_eq!(peek_inner_reg(&ind(vec![(name("a0"), None), (name("d0"), None)])), None);
    assert_eq!(peek_inner_reg(&plain(name("a0"))), None);
}

#[test]
fn size_suffix_rules() {
    assert_eq!(size_from_text("w"), Ok(Width::W));
    assert_eq!(size_from_text("q"), Err("unknown size suffix `.q`".to_string()));
    assert_eq!(index_size_long(Some(Width::L), ""), Ok(true));
    assert_eq!(index_size_long(Some(Width::W), ""), Ok(false));
    assert_eq!(index_size_long(None, ""), Ok(false));
    assert_eq!(
        index_size_long(Some(Width::B), ""),
        Err("index size must be `.w` or `.l`, got `.b`".to_string())
    );
    assert_eq!(
        index_size_long(Some(Width::S), "`pc`-relative "),
        Err("`pc`-relative index size must be `.w` or `.l`, got `.s`".to_string())
    );
    assert_eq!(pinned_abs_long(Some(Width::L)), Ok(true));
    assert_eq!(pinned_abs_long(Some(Width::W)), Ok(false));
    assert_eq!(pinned_abs_long(None), Err("absolute width must be `.w` or `.l`".to_string()));
    assert_eq!(
        pinned_abs_long(Some(Width::B)),
        Err("absolute width must be `.w` or `.l`, got `.b`".to_string())
    );
}

#[test]
fn explicit_width_absolutes() {
    assert_eq!(pinned_abs_name("Sym"), Ok(()));
    assert_eq!(
        pinned_abs_name("a0"),
        Err("register indirect takes no size suffix — `(a0).w` is not a 68000 form".to_string())
    );
    assert_eq!(
        pinned_abs_name("sr"),
        Err("`(sr).w` is not a 68000 form — `sr` is the status-register operand, not an address".to_string())
    );
    assert_eq!(
        pinned_abs_name("ccr"),
        Err("`(ccr).w` is not a 68000 form — `ccr` is the status-register operand, not an address".to_string())
    );
    assert_eq!(pinned_abs_address(0x7FFF, false), Ok(()));
    assert_eq!(pinned_abs_address(0xFF8000, false), Ok(()));
    assert_eq!(pinned_abs_address(0xFFFF8000, false), Ok(()));
    assert_eq!(pinned_abs_address(-2, false), Ok(()));
    assert_eq!(
        pinned_abs_address(0x8000, false),
        Err("address 0x8000 has no abs.w spelling (the 24-bit address must sign-extend losslessly from 16 bits) — use `.l`".to_string())
    );
    assert_eq!(
        pinned_abs_address(0xC00004, false),
        Err(format!(
            "address {:#X} has no abs.w spelling (the 24-bit address must sign-extend losslessly from 16 bits) — use `.l`",
            0xC00004i128
        ))
    );
    assert_eq!(
        pinned_abs_address(-0x10000, false),
        Err(format!(
            "address {:#X} has no abs.w spelling (the 24-bit address must sign-extend losslessly from 16 bits) — use `.l`",
            -0x10000i128
        ))
    );
    assert_eq!(pinned_abs_address(0xC00004, true), Ok(()));
    assert_eq!(pinned_abs_address(u32::MAX as i128, true), Ok(()));
    assert_eq!(pinned_abs_address(i32::MIN as i128, true), Ok(()));
    assert_eq!(
        pinned_abs_address(u32::MAX as i128 + 1, true),
        Err("address out of range for abs.l: 4294967296".to_string())
    );
    assert_eq!(
        pinned_abs_address(i32::MIN as i128 - 1, true),
        Err("address out of range for abs.l: -2147483649".to_string())
    );
}

#[test]
fn indexed_forms() {
    assert_eq!(brief_displacement(-128), Ok(-128));
    assert_eq!(brief_displacement(127), Ok(127));
    assert_eq!(
        brief_displacement(128),
        Err("indexed-addressing displacement must fit the brief extension's 8-bit field (-128..=127), got 128".to_string())
    );
    assert_eq!(an_indexed_base(&(name("a0"), None)), Ok(()));
    assert_eq!(
        an_indexed_base(&(name("pc"), None)),
        Err("`pc` cannot be an indexed base without a target — pc-relative indexed addressing is spelled `Sym(pc,Xn.size)`".to_string())
    );
    assert_eq!(
        an_indexed_base(&(name("a0"), Some(TextOrSplice::Text("l".to_string())))),
        Err("the base register takes no size suffix in `(An,Xn)` addressing".to_string())
    );
    assert_eq!(pcrel_addend(4, false), Ok(4));
    assert_eq!(pcrel_addend(4, true), Ok(-4));
    assert_eq!(pcrel_addend(i64::MAX as i128, true), Ok(-i64::MAX));
    assert_eq!(
        pcrel_addend(i64::MAX as i128 + 1, false),
        Err("PC-relative target addend out of range".to_string())
    );
}

#[test]
fn movem_operand_roles() {
    let list = || plain(Expr::Binary { op: BinOp::Sub, lhs: Box::new(name("d0")), rhs: Box::new(name("d7")), span: sp() });
    let mem = || Operand::PreDec(Box::new(ind(vec![(name("sp"), None)])));
    assert_eq!(movem_roles(&[list(), mem()]), Ok(MovemRoles { mask: 0x00FF, list_first: true }));
    assert_eq!(movem_roles(&[mem(), plain(name("d3"))]), Ok(MovemRoles { mask: 0x0008, list_first: false }));
    assert_eq!(
        movem_roles(&[list(), list()]),
        Err("movem needs a memory EA operand, got two register lists".to_string())
    );
    assert_eq!(
        movem_roles(&[mem(), mem()]),
        Err("movem needs a register-list operand (e.g. `d0-d7/a0-a6`)".to_string())
    );
    assert_eq!(
        movem_roles(&[list()]),
        Err("movem needs two operands: a register list and a memory EA".to_string())
    );
}
