//! `dc.b`/`dc.w`/`dc.l` inline data in an `asm` body: the element width,
//! which operands may be elements, and the cell each comptime element
//! becomes (an integer range-checked to the width, a string as its bytes in
//! `dc.b` only).
use crate::ast::{Expr, Operand};
use crate::eval::text::{push_bytes, push_signed_decimal, signed_dec};
use crate::value::{Cell, Width};
use vstd::string::StringSliceAdditionalSpecFns;
use vstd::prelude::*;

verus! {

/// The element width `dc` takes from its size suffix, in bytes: 1, 2 or 4
/// for `.b`, `.w`, `.l`; no suffix and the branch width `.s` are
/// `[dc.missing-size]`; with a width, no elements at all is `[dc.empty]`.
pub fn dc_width(size: Option<Width>, elements: usize) -> (r: Result<u8, String>)
    ensures
        match size {
            Some(Width::B) => if elements == 0 {
                r matches Err(m) && m@ == "[dc.empty] `dc` needs at least one element"@
            } else {
                r == Ok::<u8, String>(1)
            },
            Some(Width::W) => if elements == 0 {
                r matches Err(m) && m@ == "[dc.empty] `dc` needs at least one element"@
            } else {
                r == Ok::<u8, String>(2)
            },
            Some(Width::L) => if elements == 0 {
                r matches Err(m) && m@ == "[dc.empty] `dc` needs at least one element"@
            } else {
                r == Ok::<u8, String>(4)
            },
            Some(Width::S) => r matches Err(m) && m@
                == "[dc.missing-size] `.s` is a branch width — `dc` takes `.b`, `.w`, or `.l`"@,
            None => r matches Err(m) && m@
                == "[dc.missing-size] `dc` needs an explicit width — `dc.b`, `dc.w`, or `dc.l`"@,
        },
{
    let w: u8 = match size {
        Some(Width::B) => 1,
        Some(Width::W) => 2,
        Some(Width::L) => 4,
        Some(Width::S) => return Err(String::from_str(
            "[dc.missing-size] `.s` is a branch width — `dc` takes `.b`, `.w`, or `.l`",
        )),
        None => return Err(String::from_str(
            "[dc.missing-size] `dc` needs an explicit width — `dc.b`, `dc.w`, or `dc.l`",
        )),
    };
    if elements == 0 {
        return Err(String::from_str("[dc.empty] `dc` needs at least one element"));
    }
    Ok(w)
}

/// The expression a `dc` operand supplies: an unsized plain expression or a
/// splice; any addressing-mode operand is `[dc.operand]`.
pub fn dc_element_expr(op: &Operand) -> (r: Result<&Expr, String>)
    ensures
        match *op {
            Operand::Plain { expr, size: None, .. } => r == Ok::<&Expr, String>(&expr),
            Operand::Splice(e) => r == Ok::<&Expr, String>(&e),
            _ => r matches Err(m) && m@
                == "[dc.operand] `dc` elements are plain comptime expressions — addressing-mode operands have no meaning here"@,
        },
{
    match op {
        Operand::Plain { expr, size: None, .. } => Ok(expr),
        Operand::Splice(e) => Ok(e),
        _ => Err(String::from_str(
            "[dc.operand] `dc` elements are plain comptime expressions — addressing-mode operands have no meaning here",
        )),
    }
}

/// The lowest value a `w`-byte `dc` element holds: the signed minimum.
pub open spec fn dc_lo(w: u8) -> int {
    if w == 1 {
        -0x80
    } else if w == 2 {
        -0x8000
    } else {
        -0x8000_0000
    }
}

/// The highest value a `w`-byte `dc` element holds: the unsigned maximum.
pub open spec fn dc_hi(w: u8) -> int {
    if w == 1 {
        0xFF
    } else if w == 2 {
        0xFFFF
    } else {
        0xFFFF_FFFF
    }
}

/// A comptime integer as a `w`-byte `dc` element: within the signed-minimum
/// to unsigned-maximum range of the width it is a big-endian scalar cell
/// (signed when negative); outside it is `[dc.range]`.
pub fn dc_int_cell(n: i128, w: u8) -> (r: Result<Cell, String>)
    requires
        w == 1 || w == 2 || w == 4,
    ensures
        dc_lo(w) <= n <= dc_hi(w) ==> (r matches Ok(Cell::Scalar { value, width, signed, le }) && value == n && width
            == w && signed == (n < 0) && !le),
        !(dc_lo(w) <= n <= dc_hi(w)) ==> (r matches Err(m) && m@ == "[dc.range] "@ + signed_dec(n as int)
            + " does not fit a "@ + signed_dec(w as int) + "-byte `dc` element (allowed "@ + signed_dec(dc_lo(w))
            + "..="@ + signed_dec(dc_hi(w)) + ")"@),
{
    let (lo, hi): (i128, i128) = if w == 1 {
        (-0x80, 0xFF)
    } else if w == 2 {
        (-0x8000, 0xFFFF)
    } else {
        (-0x8000_0000, 0xFFFF_FFFF)
    };
    if n < lo || n > hi {
        let mut m = String::from_str("[dc.range] ");
        push_signed_decimal(&mut m, n);
        m.append(" does not fit a ");
        push_signed_decimal(&mut m, w as i128);
        m.append("-byte `dc` element (allowed ");
        push_signed_decimal(&mut m, lo);
        m.append("..=");
        push_signed_decimal(&mut m, hi);
        m.append(")");
        return Err(m);
    }
    Ok(Cell::Scalar { value: n, width: w, signed: n < 0, le: false })
}

/// A comptime string as a `w`-byte `dc` element: its UTF-8 bytes, with no
/// terminator, in `dc.b` only; wider widths are `[dc.string-width]`.
pub fn dc_str_cell(s: &str, w: u8) -> (r: Result<Cell, String>)
    ensures
        w == 1 ==> (r matches Ok(Cell::Bytes(b)) && b@ == s.spec_bytes()),
        w != 1 ==> (r matches Err(m) && m@
            == "[dc.string-width] string elements are `dc.b`-only (a string is a run of bytes; it has no word/long reading)"@),
{
    if w != 1 {
        return Err(String::from_str(
            "[dc.string-width] string elements are `dc.b`-only (a string is a run of bytes; it has no word/long reading)",
        ));
    }
    let mut b: Vec<u8> = Vec::new();
    push_bytes(&mut b, s.as_bytes());
    Ok(Cell::Bytes(b))
}

} // verus!
