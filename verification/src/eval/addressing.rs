//! The addressing-mode rules an `asm` operand is held to once its parts are
//! known: size suffixes, the explicit-width absolute forms and their address
//! windows, the indexed forms' base and displacement, the PC-relative target
//! addend, and which `movem` operand is the register list.
use crate::ast::{Expr, Operand, TextOrSplice};
use crate::eval::operands::{movem_reg_list, movem_reg_list_spec, reg_from_name, single_segment, width_from_text, width_of_text};
use crate::eval::text::{push_signed_decimal, push_upper_hex, signed_dec, str_eq, upper_hex_digits};
use crate::value::{reg_named, Reg, Width};
use vstd::prelude::*;

verus! {

/// The register a one-part register-indirect `(aN)` inner spells literally,
/// read off the syntax alone (nothing is evaluated): `None` for any other
/// shape.
pub open spec fn peek_inner_reg_spec(inner: Operand) -> Option<Reg> {
    match inner {
        Operand::Ind { parts, .. } => if parts@.len() == 1 {
            match single_segment(parts@[0].0) {
                Some(seg) => reg_named(seg),
                None => None,
            }
        } else {
            None
        },
        _ => None,
    }
}

/// Peek the base register of a `(aN)` inner operand without evaluating
/// anything (see [`peek_inner_reg_spec`]).
pub fn peek_inner_reg(inner: &Operand) -> (r: Option<Reg>)
    ensures
        r == peek_inner_reg_spec(*inner),
{
    match inner {
        Operand::Ind { parts, .. } => {
            if parts.len() != 1 {
                return None;
            }
            match &parts[0].0 {
                Expr::Path(p) => {
                    if p.segments.len() == 1 {
                        reg_from_name(p.segments[0].as_str())
                    } else {
                        None
                    }
                },
                _ => None,
            }
        },
        _ => None,
    }
}

/// A literal size suffix: `b`, `w`, `l` or `s`, else ``[unknown size suffix
/// `.t`]``.
pub fn size_from_text(t: &str) -> (r: Result<Width, String>)
    ensures
        match width_of_text(t@) {
            Some(w) => r == Ok::<Width, String>(w),
            None => r matches Err(m) && m@ == "unknown size suffix `."@ + t@ + "`"@,
        },
{
    match width_from_text(t) {
        Some(w) => Ok(w),
        None => {
            let mut m = String::from_str("unknown size suffix `.");
            m.append(t);
            m.append("`");
            Err(m)
        },
    }
}

/// The one-letter spelling of a byte or short size.
pub open spec fn narrow_suffix(w: Width) -> Seq<char> {
    if w is B {
        "b"@
    } else {
        "s"@
    }
}

fn narrow_suffix_str(w: Width) -> (s: &'static str)
    requires
        w is B || w is S,
    ensures
        s@ == narrow_suffix(w),
{
    match w {
        Width::B => "b",
        _ => "s",
    }
}

/// Whether a brief-extension index register is long: `.l` is long, `.w` or
/// no suffix a sign-extended word; `.b`/`.s` is refused with `ctx` leading
/// the message (``"`pc`-relative "`` for the pc-indexed form).
pub fn index_size_long(w: Option<Width>, ctx: &str) -> (r: Result<bool, String>)
    ensures
        match w {
            Some(Width::L) => r == Ok::<bool, String>(true),
            Some(Width::W) => r == Ok::<bool, String>(false),
            None => r == Ok::<bool, String>(false),
            Some(x) => r matches Err(m) && m@ == ctx@ + "index size must be `.w` or `.l`, got `."@ + narrow_suffix(x)
                + "`"@,
        },
{
    match w {
        Some(Width::L) => Ok(true),
        Some(Width::W) | None => Ok(false),
        Some(x) => {
            let mut m = String::from_str(ctx);
            m.append("index size must be `.w` or `.l`, got `.");
            m.append(narrow_suffix_str(x));
            m.append("`");
            Err(m)
        },
    }
}

/// Whether an explicit-width absolute `(expr).w`/`(expr).l` is long; any
/// other suffix, or none, is refused.
pub fn pinned_abs_long(w: Option<Width>) -> (r: Result<bool, String>)
    ensures
        match w {
            Some(Width::L) => r == Ok::<bool, String>(true),
            Some(Width::W) => r == Ok::<bool, String>(false),
            None => r matches Err(m) && m@ == "absolute width must be `.w` or `.l`"@,
            Some(x) => r matches Err(m) && m@ == "absolute width must be `.w` or `.l`, got `."@ + narrow_suffix(x)
                + "`"@,
        },
{
    match w {
        Some(Width::L) => Ok(true),
        Some(Width::W) => Ok(false),
        None => Err(String::from_str("absolute width must be `.w` or `.l`")),
        Some(x) => {
            let mut m = String::from_str("absolute width must be `.w` or `.l`, got `.");
            m.append(narrow_suffix_str(x));
            m.append("`");
            Err(m)
        },
    }
}

/// The refusal of a sized register indirect.
pub open spec fn sized_register_message() -> Seq<char> {
    "register indirect takes no size suffix — `(a0).w` is not a 68000 form"@
}

/// The single-segment name of an explicit-width absolute `(name).w`: a
/// register name is a sized register indirect, not a 68000 form; `sr` and
/// `ccr` are the status-register operands, not addresses; any other name
/// is a symbol.
pub fn pinned_abs_name(seg: &str) -> (r: Result<(), String>)
    ensures
        reg_named(seg@) is Some ==> (r matches Err(m) && m@ == sized_register_message()),
        reg_named(seg@) is None && (seg@ == "sr"@ || seg@ == "ccr"@) ==> (r matches Err(m) && m@ == "`("@ + seg@
            + ").w` is not a 68000 form — `"@ + seg@ + "` is the status-register operand, not an address"@),
        reg_named(seg@) is None && seg@ != "sr"@ && seg@ != "ccr"@ ==> r is Ok,
{
    if reg_from_name(seg).is_some() {
        return Err(String::from_str("register indirect takes no size suffix — `(a0).w` is not a 68000 form"));
    }
    if str_eq(seg, "sr") || str_eq(seg, "ccr") {
        let mut m = String::from_str("`(");
        m.append(seg);
        m.append(").w` is not a 68000 form — `");
        m.append(seg);
        m.append("` is the status-register operand, not an address");
        return Err(m);
    }
    Ok(())
}

/// Whether an address has an `abs.w` spelling: its low 24 bits must
/// sign-extend losslessly from 16 bits (`0..=$7FFF` or `$FF8000..=$FFFFFF`).
pub open spec fn abs_w_ok(addr: i128) -> bool {
    (addr & 0xFF_FFFF) <= 0x7FFF || (addr & 0xFF_FFFF) >= 0xFF_8000
}

/// `{addr:#X}`: `0x` and the upper-case hex digits of the two's-complement
/// bits.
pub open spec fn alt_upper_hex(addr: i128) -> Seq<char> {
    "0x"@ + upper_hex_digits((addr as u128) as nat)
}

/// The address check of an explicit-width absolute integer address: `.w`
/// needs an `abs.w` spelling, `.l` an address in `i32::MIN..=u32::MAX`.
pub fn pinned_abs_address(addr: i128, long: bool) -> (r: Result<(), String>)
    ensures
        !long && abs_w_ok(addr) ==> r is Ok,
        !long && !abs_w_ok(addr) ==> (r matches Err(m) && m@ == "address "@ + alt_upper_hex(addr)
            + " has no abs.w spelling (the 24-bit address must sign-extend losslessly from 16 bits) — use `.l`"@),
        long && i32::MIN <= addr <= u32::MAX ==> r is Ok,
        long && !(i32::MIN <= addr <= u32::MAX) ==> (r matches Err(m) && m@ == "address out of range for abs.l: "@
            + signed_dec(addr as int)),
{
    if !long {
        let a: i128 = addr & 0xFF_FFFF;
        if !(a <= 0x7FFF || a >= 0xFF_8000) {
            let mut m = String::from_str("address ");
            m.append("0x");
            push_upper_hex(&mut m, addr as u128);
            m.append(" has no abs.w spelling (the 24-bit address must sign-extend losslessly from 16 bits) — use `.l`");
            return Err(m);
        }
        Ok(())
    } else if addr < i32::MIN as i128 || addr > u32::MAX as i128 {
        let mut m = String::from_str("address out of range for abs.l: ");
        push_signed_decimal(&mut m, addr);
        Err(m)
    } else {
        Ok(())
    }
}

/// The displacement of an An-indexed `d8(An,Xn)` must fit the brief
/// extension word's signed 8-bit field.
pub fn brief_displacement(disp: i128) -> (r: Result<i8, String>)
    ensures
        -128 <= disp <= 127 ==> r == Ok::<i8, String>(disp as i8),
        !(-128 <= disp <= 127) ==> (r matches Err(m) && m@
            == "indexed-addressing displacement must fit the brief extension's 8-bit field (-128..=127), got "@
            + signed_dec(disp as int)),
{
    if disp < -128 || disp > 127 {
        let mut m = String::from_str(
            "indexed-addressing displacement must fit the brief extension's 8-bit field (-128..=127), got ",
        );
        push_signed_decimal(&mut m, disp);
        Err(m)
    } else {
        Ok(disp as i8)
    }
}

/// The base part of a two-part `(An,Xn)` inner: a literal `pc` is the
/// pc-indexed form misspelled without its target; a base size suffix is
/// 68020 syntax, refused on the 68000.
pub fn an_indexed_base(base: &(Expr, Option<TextOrSplice>)) -> (r: Result<(), String>)
    ensures
        single_segment(base.0) == Some("pc"@) ==> (r matches Err(m) && m@
            == "`pc` cannot be an indexed base without a target — pc-relative indexed addressing is spelled `Sym(pc,Xn.size)`"@),
        single_segment(base.0) != Some("pc"@) && base.1 is Some ==> (r matches Err(m) && m@
            == "the base register takes no size suffix in `(An,Xn)` addressing"@),
        single_segment(base.0) != Some("pc"@) && base.1 is None ==> r is Ok,
{
    if let Expr::Path(p) = &base.0 {
        if p.segments.len() == 1 && str_eq(p.segments[0].as_str(), "pc") {
            return Err(String::from_str(
                "`pc` cannot be an indexed base without a target — pc-relative indexed addressing is spelled `Sym(pc,Xn.size)`",
            ));
        }
    }
    proof {
        reveal_strlit("pc");
    }
    if base.1.is_some() {
        return Err(String::from_str("the base register takes no size suffix in `(An,Xn)` addressing"));
    }
    Ok(())
}

/// The comptime addend of a `Sym±n(pc)` target: `n` must fit `i64`, and is
/// negated for `-`. Negating `i64::MIN` overflows, so `Sym - i64::MIN` is
/// excluded.
pub fn pcrel_addend(n: i128, subtract: bool) -> (r: Result<i64, String>)
    requires
        !(subtract && n == i64::MIN),
    ensures
        i64::MIN <= n <= i64::MAX ==> r == Ok::<i64, String>((if subtract { -(n as int) } else { n as int }) as i64),
        !(i64::MIN <= n <= i64::MAX) ==> (r matches Err(m) && m@ == "PC-relative target addend out of range"@),
{
    if n < i64::MIN as i128 || n > i64::MAX as i128 {
        return Err(String::from_str("PC-relative target addend out of range"));
    }
    let k = n as i64;
    if subtract {
        Ok(-k)
    } else {
        Ok(k)
    }
}

/// Which operand of a `movem` is the register list: exactly one of the two
/// must be, the other being the memory EA; their order stays as written.
#[derive(Clone, Copy, Debug, PartialEq, Eq, Structural)]
pub struct MovemRoles {
    /// The register-list mask.
    pub mask: u16,
    /// Whether the list is the first operand (a store) rather than the
    /// second (a load).
    pub list_first: bool,
}

/// Decide a `movem`'s operand roles from its operands: two are needed, and
/// exactly one of them must read as a register list.
pub fn movem_roles(ops: &[Operand]) -> (r: Result<MovemRoles, String>)
    ensures
        ops@.len() != 2 ==> (r matches Err(m) && m@ == "movem needs two operands: a register list and a memory EA"@),
        ops@.len() == 2 ==> match (movem_reg_list_spec(ops@[0]), movem_reg_list_spec(ops@[1])) {
            (Some(k), None) => r == Ok::<MovemRoles, String>(MovemRoles { mask: k, list_first: true }),
            (None, Some(k)) => r == Ok::<MovemRoles, String>(MovemRoles { mask: k, list_first: false }),
            (Some(_), Some(_)) => r matches Err(m) && m@ == "movem needs a memory EA operand, got two register lists"@,
            (None, None) => r matches Err(m) && m@ == "movem needs a register-list operand (e.g. `d0-d7/a0-a6`)"@,
        },
{
    if ops.len() != 2 {
        return Err(String::from_str("movem needs two operands: a register list and a memory EA"));
    }
    match (movem_reg_list(&ops[0]), movem_reg_list(&ops[1])) {
        (Some(k), None) => Ok(MovemRoles { mask: k, list_first: true }),
        (None, Some(k)) => Ok(MovemRoles { mask: k, list_first: false }),
        (Some(_), Some(_)) => Err(String::from_str("movem needs a memory EA operand, got two register lists")),
        (None, None) => Err(String::from_str("movem needs a register-list operand (e.g. `d0-d7/a0-a6`)")),
    }
}

/// The bytes an operand access of a given width reads: 1, 2 or 4; `.s` and
/// no suffix carry no access width.
pub open spec fn access_bytes(w: Option<Width>) -> Option<int> {
    match w {
        Some(Width::B) => Some(1),
        Some(Width::W) => Some(2),
        Some(Width::L) => Some(4),
        _ => None,
    }
}

/// The letter of a data width.
pub open spec fn data_width_letter(w: Width) -> Seq<char> {
    match w {
        Width::B => "b"@,
        Width::W => "w"@,
        _ => "l"@,
    }
}

/// The check that a sized access through a field displacement stays inside
/// the field: an access wider than the field is
/// `[operand.field-overrun]`; a narrower or equal one, and an access with no
/// width yet, is fine.
pub fn field_overrun(field: &str, field_size: i128, width: Option<Width>) -> (r: Option<String>)
    ensures
        match access_bytes(width) {
            Some(a) => if a > field_size {
                r matches Some(m) && m@ == "[operand.field-overrun] ."@ + data_width_letter(width->0)
                    + " access reads "@ + crate::eval::text::dec_digits(a as nat) + " bytes but field `"@ + field@
                    + "` is "@ + signed_dec(field_size as int) + " byte"@ + (if field_size == 1 {
                    ""@
                } else {
                    "s"@
                })
            } else {
                r is None
            },
            None => r is None,
        },
{
    let (access, letter): (i128, &str) = match width {
        Some(Width::B) => (1, "b"),
        Some(Width::W) => (2, "w"),
        Some(Width::L) => (4, "l"),
        _ => return None,
    };
    if access > field_size {
        let mut m = String::from_str("[operand.field-overrun] .");
        m.append(letter);
        m.append(" access reads ");
        crate::eval::text::push_decimal_u128(&mut m, access as u128);
        m.append(" bytes but field `");
        m.append(field);
        m.append("` is ");
        push_signed_decimal(&mut m, field_size);
        m.append(" byte");
        if field_size != 1 {
            m.append("s");
        }
        proof {
            reveal_strlit("");
            assert(m@ =~= m@ + ""@);
        }
        Some(m)
    } else {
        None
    }
}

/// The `abs.w` window is exactly the set of 24-bit addresses a 16-bit
/// word sign-extends to: an address passes if and only if some value in
/// `-$8000..$8000`, taken modulo `2^24`, is its low 24 bits.
pub proof fn law_abs_w_is_sign_extension(addr: i128)
    ensures
        abs_w_ok(addr) <==> exists|v: int| -0x8000 <= v < 0x8000 && #[trigger] (v % 0x100_0000) == (addr & 0xFF_FFFF),
{
    let a = addr & 0xFF_FFFF;
    assert(0 <= a <= 0xFF_FFFF) by (bit_vector)
        requires
            a == addr & 0xFF_FFFF,
    ;
    if abs_w_ok(addr) {
        if a <= 0x7FFF {
            assert((a as int) % 0x100_0000 == a);
        } else {
            let v = a - 0x100_0000;
            assert(v % 0x100_0000 == a);
        }
    }
    if exists|v: int| -0x8000 <= v < 0x8000 && #[trigger] (v % 0x100_0000) == a {
        let v = choose|v: int| -0x8000 <= v < 0x8000 && #[trigger] (v % 0x100_0000) == a;
        if v >= 0 {
            assert(v % 0x100_0000 == v);
        } else {
            assert(v % 0x100_0000 == v + 0x100_0000);
        }
    }
}

} // verus!
