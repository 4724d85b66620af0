//! Type-aware arithmetic on typed values: the underlying-width wrap, the
//! prim-underlying path, the scale-aware fixed-point path, the dispatch
//! between them, and the fraction shift of `rescale<I,F>(x)`.
use vstd::arithmetic::div_mod::{
    lemma_fundamental_div_mod, lemma_fundamental_div_mod_converse, lemma_mod_bound,
    lemma_mod_multiples_basic,
};
use crate::ast::BinOp;
use crate::layout::Ty;
use vstd::prelude::*;

verus! {

/// `2^n`.
pub open spec fn two_pow(n: nat) -> int
    decreases n,
{
    if n == 0 {
        1
    } else {
        2 * two_pow((n - 1) as nat)
    }
}

pub(crate) proof fn lemma_two_pow_pos(n: nat)
    ensures
        two_pow(n) >= 1,
    decreases n,
{
    if n > 0 {
        lemma_two_pow_pos((n - 1) as nat);
    }
}

pub(crate) proof fn lemma_two_pow_mono(a: nat, b: nat)
    requires
        a <= b,
    ensures
        1 <= two_pow(a) <= two_pow(b),
    decreases b,
{
    lemma_two_pow_pos(a);
    if a < b {
        lemma_two_pow_mono(a, (b - 1) as nat);
    }
}

proof fn lemma_two_pow_add(a: nat, b: nat)
    ensures
        two_pow(a + b) == two_pow(a) * two_pow(b),
    decreases b,
{
    if b > 0 {
        lemma_two_pow_add(a, (b - 1) as nat);
        let x = two_pow(a);
        let y = two_pow((b - 1) as nat);
        assert(two_pow((a + b - 1) as nat) == x * y);
        assert(two_pow(a + b) == 2 * two_pow((a + b - 1) as nat));
        assert(x * (2 * y) == 2 * (x * y)) by (nonlinear_arith);
    }
}

proof fn lemma_two_pow_125()
    ensures
        two_pow(125) == 0x2000_0000_0000_0000_0000_0000_0000_0000,
{
    reveal_with_fuel(two_pow, 6);
    assert(two_pow(5) == 32);
    lemma_two_pow_add(5, 5);
    assert(two_pow(10) == 1024);
    lemma_two_pow_add(10, 10);
    assert(two_pow(20) == 1048576);
    lemma_two_pow_add(20, 20);
    assert(two_pow(40) == 1099511627776);
    lemma_two_pow_add(40, 40);
    assert(two_pow(80) == 1208925819614629174706176);
    lemma_two_pow_add(80, 40);
    assert(two_pow(120) == 1329227995784915872903807060280344576);
    lemma_two_pow_add(120, 5);
}

/// `value` wrapped to its low `bits` bits, two's complement: the remainder
/// modulo `2^bits`, sign-extended when `signed` and the top kept bit is set.
/// A width of 0, or of 128 or more, leaves the value alone.
pub open spec fn wrapped(value: int, bits: nat, signed: bool) -> int {
    if bits == 0 || bits >= 128 {
        value
    } else {
        let m = two_pow(bits);
        let low = value % m;
        if signed && low >= two_pow((bits - 1) as nat) {
            low - m
        } else {
            low
        }
    }
}

/// Wrap `value` to `bits` low bits, two's-complement, honoring `signed`: the
/// underlying-width wrap for sized and typed arithmetic (a `u8` `200 + 100`
/// is 44; an `i8` `100 + 100` is -56). A 127-bit width overflows the mask
/// computation and is excluded.
pub fn wrap_bits(value: i128, bits: u32, signed: bool) -> (r: i128)
    requires
        bits != 127,
    ensures
        r == wrapped(value as int, bits as nat, signed),
{
    if bits == 0 || bits >= 128 {
        return value;
    }
    proof {
        lemma_two_pow_mono((bits - 1) as nat, 125);
        lemma_two_pow_125();
    }
    let mut half: u128 = 1;
    let mut k: u32 = 1;
    while k < bits
        invariant
            1 <= k <= bits <= 126,
            half == two_pow((k - 1) as nat),
            two_pow(125) == 0x2000_0000_0000_0000_0000_0000_0000_0000,
        decreases bits - k,
    {
        proof {
            lemma_two_pow_mono(k as nat, 125);
        }
        half = half * 2;
        k = k + 1;
    }
    let m: u128 = half * 2;
    assert(m == two_pow(bits as nat));
    let low: u128 = if value >= 0 {
        (value as u128) % m
    } else {
        let t = (-(value + 1)) as u128;
        let r = t % m;
        proof {
            let ti = t as int;
            let mi = m as int;
            let q = ti / mi;
            lemma_fundamental_div_mod(ti, mi);
            assert(ti == mi * q + (r as int));
            assert((-q - 1) * mi + (mi - 1 - r) == -(ti + 1)) by (nonlinear_arith)
                requires
                    ti == mi * q + (r as int),
            ;
            lemma_fundamental_div_mod_converse(value as int, mi, -q - 1, (m - 1 - r) as int);
        }
        m - 1 - r
    };
    assert(low == (value as int) % (m as int));
    if signed && low >= half {
        (low as i128) - (m as i128)
    } else {
        low as i128
    }
}

/// A wrap is a two's-complement wrap: the result differs from the value by
/// a multiple of `2^bits` and lies in the range the width holds, `0 ..
/// 2^bits` unsigned or `-2^(bits-1) .. 2^(bits-1)` signed.
pub proof fn law_wrap_is_twos_complement(value: int, bits: nat, signed: bool)
    requires
        0 < bits < 128,
    ensures
        (value - wrapped(value, bits, signed)) % two_pow(bits) == 0,
        signed ==> -two_pow((bits - 1) as nat) <= wrapped(value, bits, signed) < two_pow(
            (bits - 1) as nat,
        ),
        !signed ==> 0 <= wrapped(value, bits, signed) < two_pow(bits),
{
    let m = two_pow(bits);
    let h = two_pow((bits - 1) as nat);
    lemma_two_pow_pos((bits - 1) as nat);
    assert(m == 2 * h);
    lemma_mod_bound(value, m);
    lemma_fundamental_div_mod(value, m);
    let q = value / m;
    let low = value % m;
    assert(value - low == q * m) by (nonlinear_arith)
        requires
            value == m * q + low,
    ;
    lemma_mod_multiples_basic(q, m);
    if signed && low >= h {
        assert(value - (low - m) == (q + 1) * m) by (nonlinear_arith)
            requires
                value == m * q + low,
        ;
        lemma_mod_multiples_basic(q + 1, m);
    }
}

/// What a typed binary operation gives: a value of the operands' own
/// nominal type (its stored integer), a bare `bool` from a comparison, or a
/// bare `fixed<I,F>` value from a fixed-point multiply.
#[derive(Clone, Copy, Debug, PartialEq, Eq, Structural)]
pub enum TypedResult {
    Same(i128),
    Bool(bool),
    Fixed { i: u32, f: u32, stored: i128 },
}

/// Why a typed binary operation has no value.
#[derive(Clone, Copy, Debug, PartialEq, Eq, Structural)]
pub enum TypedOpError {
    /// `/` by zero.
    DivisionByZero,
    /// `%` by zero.
    ModuloByZero,
    /// A shift count outside `0..` the type's width in bits, with the count.
    ShiftOutOfRange(i128),
    /// `++` on a scalar.
    ConcatUndefined,
    /// `/`, `%`, a bitwise or shift operator, or `++` on a `fixed<>` value.
    UndefinedOnFixed,
    /// Two `fixed<>` values of different scales in `+`, `-` or a comparison.
    ScaleMismatch { il: u32, fl: u32, ir: u32, fr: u32 },
    /// Two distinct nominal types combined.
    CrossTypeMix,
    /// A fixed-point product wider than a fixed type can be.
    ProductTooWide,
    /// A fixed-point product past the 128-bit integer range.
    Overflow,
    /// An operand whose type is an already-reported error.
    Poisoned,
}

/// Rust's truncating quotient (rounding toward zero), `d != 0`.
pub open spec fn trunc_div(x: int, d: int) -> int {
    if x == 0 {
        0
    } else if x > 0 && d > 0 {
        x / d
    } else if x < 0 && d < 0 {
        (-x) / (-d)
    } else if x < 0 {
        -((-x) / d)
    } else {
        -(x / (-d))
    }
}

/// Rust's truncating remainder (taking the dividend's sign), `d != 0`.
pub open spec fn trunc_rem(x: int, d: int) -> int {
    if x == 0 {
        0
    } else if x > 0 && d > 0 {
        x % d
    } else if x < 0 && d < 0 {
        -((-x) % (-d))
    } else if x < 0 {
        -((-x) % d)
    } else {
        x % (-d)
    }
}

/// `i128::wrapping_div`: the truncating quotient, except that `MIN / -1`
/// wraps to `MIN`.
pub open spec fn wrapping_div_i128(x: i128, d: i128) -> i128 {
    if x == i128::MIN && d == -1 {
        i128::MIN
    } else {
        trunc_div(x as int, d as int) as i128
    }
}

/// `i128::wrapping_rem`: the truncating remainder, `MIN % -1` being `0`.
pub open spec fn wrapping_rem_i128(x: i128, d: i128) -> i128 {
    if x == i128::MIN && d == -1 {
        0
    } else {
        trunc_rem(x as int, d as int) as i128
    }
}

proof fn lemma_trunc_div_fits(x: i128, d: i128)
    requires
        d != 0,
        !(x == i128::MIN && d == -1),
    ensures
        i128::MIN <= trunc_div(x as int, d as int) <= i128::MAX,
{
    let xi = x as int;
    let di = d as int;
    if xi > 0 && di > 0 {
        assert(0 <= xi / di <= xi) by (nonlinear_arith)
            requires
                xi > 0,
                di > 0,
        ;
    } else if xi < 0 && di < 0 {
        assert(0 <= (-xi) / (-di) <= -xi) by (nonlinear_arith)
            requires
                xi < 0,
                di < 0,
        ;
        if x == i128::MIN {
            assert((-xi) / (-di) <= (-xi) / 2) by (nonlinear_arith)
                requires
                    xi < 0,
                    di <= -2,
            ;
        }
    } else if xi < 0 {
        assert(0 <= (-xi) / di <= -xi) by (nonlinear_arith)
            requires
                xi < 0,
                di > 0,
        ;
    } else if xi > 0 {
        assert(0 <= xi / (-di) <= xi) by (nonlinear_arith)
            requires
                xi > 0,
                di < 0,
        ;
    }
}

pub(crate) proof fn lemma_trunc_rem_fits(x: i128, d: i128)
    requires
        d != 0,
    ensures
        i128::MIN <= trunc_rem(x as int, d as int) <= i128::MAX,
{
    let xi = x as int;
    let di = d as int;
    if xi > 0 && di > 0 {
        assert(0 <= xi % di < di) by (nonlinear_arith)
            requires
                di > 0,
        ;
    } else if xi < 0 && di < 0 {
        assert(0 <= (-xi) % (-di) < -di) by (nonlinear_arith)
            requires
                di < 0,
        ;
    } else if xi < 0 {
        assert(0 <= (-xi) % di < di) by (nonlinear_arith)
            requires
                di > 0,
        ;
    } else if xi > 0 {
        assert(0 <= xi % (-di) < -di) by (nonlinear_arith)
            requires
                di < 0,
        ;
    }
}

/// The stored integer of a same-type result wrapped at `bits`.
pub open spec fn same(v: int, bits: nat, signed: bool) -> Result<TypedResult, TypedOpError> {
    Ok(TypedResult::Same(wrapped(v, bits, signed) as i128))
}

/// A prim-underlying typed operation on stored integers `nl`, `nr` of a
/// type `width` bytes wide: `+ - * / %`, bitwise and shifts compute on the
/// stored integers (at 128 bits, wrapping) and wrap at the type's
/// `width * 8` bits, two's complement, staying the same nominal type;
/// comparisons give a bare `bool`; `++` is undefined. A zero divisor and a
/// shift count outside `0..width * 8` are refused.
pub open spec fn prim_op_spec(op: BinOp, width: u8, signed: bool, nl: i128, nr: i128) -> Result<
    TypedResult,
    TypedOpError,
> {
    let bits = width as nat * 8;
    match op {
        BinOp::Add => same(vstd::wrapping::i128_specs::wrapping_add(nl, nr) as int, bits, signed),
        BinOp::Sub => same(vstd::wrapping::i128_specs::wrapping_sub(nl, nr) as int, bits, signed),
        BinOp::Mul => same(vstd::wrapping::i128_specs::wrapping_mul(nl, nr) as int, bits, signed),
        BinOp::Div => if nr == 0 {
            Err(TypedOpError::DivisionByZero)
        } else {
            same(wrapping_div_i128(nl, nr) as int, bits, signed)
        },
        BinOp::Mod => if nr == 0 {
            Err(TypedOpError::ModuloByZero)
        } else {
            same(wrapping_rem_i128(nl, nr) as int, bits, signed)
        },
        BinOp::BitAnd => same((nl & nr) as int, bits, signed),
        BinOp::BitOr => same((nl | nr) as int, bits, signed),
        BinOp::BitXor => same((nl ^ nr) as int, bits, signed),
        BinOp::Shl => if !(0 <= nr < bits) {
            Err(TypedOpError::ShiftOutOfRange(nr))
        } else {
            same(vstd::wrapping::i128_specs::wrapping_shl(nl, nr as u32) as int, bits, signed)
        },
        BinOp::Shr => if !(0 <= nr < bits) {
            Err(TypedOpError::ShiftOutOfRange(nr))
        } else {
            same((nl >> (nr as u32)) as int, bits, signed)
        },
        BinOp::Eq => Ok(TypedResult::Bool(nl == nr)),
        BinOp::Ne => Ok(TypedResult::Bool(nl != nr)),
        BinOp::Lt => Ok(TypedResult::Bool(nl < nr)),
        BinOp::Le => Ok(TypedResult::Bool(nl <= nr)),
        BinOp::Gt => Ok(TypedResult::Bool(nl > nr)),
        BinOp::Ge => Ok(TypedResult::Bool(nl >= nr)),
        _ => Err(TypedOpError::ConcatUndefined),
    }
}

proof fn lemma_wrapped_fits(v: i128, bits: nat, signed: bool)
    ensures
        i128::MIN <= wrapped(v as int, bits, signed) <= i128::MAX,
{
    if 0 < bits < 128 {
        law_wrap_is_twos_complement(v as int, bits, signed);
        lemma_two_pow_mono(bits, 127);
        lemma_two_pow_127();
    }
}

pub(crate) proof fn lemma_two_pow_127()
    ensures
        two_pow(127) == 0x8000_0000_0000_0000_0000_0000_0000_0000,
{
    lemma_two_pow_125();
    reveal_with_fuel(two_pow, 3);
}

/// A prim-underlying typed operation (see [`prim_op_spec`]). The logical
/// operators never reach typed arithmetic. A right shift by 128 or more
/// overflows the 128-bit shift, so a type that wide shifting that far is
/// excluded.
pub fn prim_op(op: BinOp, width: u8, signed: bool, nl: i128, nr: i128) -> (r: Result<TypedResult, TypedOpError>)
    requires
        !(op is And || op is Or),
        op is Shr && 0 <= nr < width * 8 ==> nr < 128,
    ensures
        r == prim_op_spec(op, width, signed, nl, nr),
{
    let bits: u32 = (width as u32) * 8;
    assert(bits != 127);
    match op {
        BinOp::Add => {
            let v = nl.wrapping_add(nr);
            proof { lemma_wrapped_fits(v, bits as nat, signed); }
            Ok(TypedResult::Same(wrap_bits(v, bits, signed)))
        },
        BinOp::Sub => {
            let v = nl.wrapping_sub(nr);
            proof { lemma_wrapped_fits(v, bits as nat, signed); }
            Ok(TypedResult::Same(wrap_bits(v, bits, signed)))
        },
        BinOp::Mul => {
            let v = nl.wrapping_mul(nr);
            proof { lemma_wrapped_fits(v, bits as nat, signed); }
            Ok(TypedResult::Same(wrap_bits(v, bits, signed)))
        },
        BinOp::Div => {
            if nr == 0 {
                return Err(TypedOpError::DivisionByZero);
            }
            let v: i128 = if nl == i128::MIN && nr == -1 {
                i128::MIN
            } else {
                proof { lemma_trunc_div_fits(nl, nr); }
                match nl.checked_div(nr) {
                    Some(q) => q,
                    None => i128::MIN,
                }
            };
            assert(v == wrapping_div_i128(nl, nr));
            proof { lemma_wrapped_fits(v, bits as nat, signed); }
            Ok(TypedResult::Same(wrap_bits(v, bits, signed)))
        },
        BinOp::Mod => {
            if nr == 0 {
                return Err(TypedOpError::ModuloByZero);
            }
            let v: i128 = if nl == i128::MIN && nr == -1 {
                0
            } else {
                proof { lemma_trunc_rem_fits(nl, nr); }
                match nl.checked_rem(nr) {
                    Some(q) => q,
                    None => 0,
                }
            };
            assert(v == wrapping_rem_i128(nl, nr));
            proof { lemma_wrapped_fits(v, bits as nat, signed); }
            Ok(TypedResult::Same(wrap_bits(v, bits, signed)))
        },
        BinOp::BitAnd => {
            let v = nl & nr;
            proof { lemma_wrapped_fits(v, bits as nat, signed); }
            Ok(TypedResult::Same(wrap_bits(v, bits, signed)))
        },
        BinOp::BitOr => {
            let v = nl | nr;
            proof { lemma_wrapped_fits(v, bits as nat, signed); }
            Ok(TypedResult::Same(wrap_bits(v, bits, signed)))
        },
        BinOp::BitXor => {
            let v = nl ^ nr;
            proof { lemma_wrapped_fits(v, bits as nat, signed); }
            Ok(TypedResult::Same(wrap_bits(v, bits, signed)))
        },
        BinOp::Shl => {
            if nr < 0 || nr >= bits as i128 {
                return Err(TypedOpError::ShiftOutOfRange(nr));
            }
            let v = nl.wrapping_shl(nr as u32);
            proof { lemma_wrapped_fits(v, bits as nat, signed); }
            Ok(TypedResult::Same(wrap_bits(v, bits, signed)))
        },
        BinOp::Shr => {
            if nr < 0 || nr >= bits as i128 {
                return Err(TypedOpError::ShiftOutOfRange(nr));
            }
            let v = nl >> (nr as u32);
            proof { lemma_wrapped_fits(v, bits as nat, signed); }
            Ok(TypedResult::Same(wrap_bits(v, bits, signed)))
        },
        BinOp::Eq => Ok(TypedResult::Bool(nl == nr)),
        BinOp::Ne => Ok(TypedResult::Bool(nl != nr)),
        BinOp::Lt => Ok(TypedResult::Bool(nl < nr)),
        BinOp::Le => Ok(TypedResult::Bool(nl <= nr)),
        BinOp::Gt => Ok(TypedResult::Bool(nl > nr)),
        BinOp::Ge => Ok(TypedResult::Bool(nl >= nr)),
        _ => Err(TypedOpError::ConcatUndefined),
    }
}

/// `a + b` saturating at `u32::MAX`.
pub open spec fn sat_add(a: u32, b: u32) -> u32 {
    if a + b > u32::MAX {
        u32::MAX
    } else {
        (a + b) as u32
    }
}

/// Whether `fixed<i,f>` is a usable width: at least one bit and below 128.
pub open spec fn fixed_width_ok(i: u32, f: u32) -> bool {
    0 < sat_add(i, f) < 128
}

/// A fixed-underlying typed operation on stored integers of `fixed<il,fl>`
/// and `fixed<ir,fr>` (`same_nominal`: both operands are of one nominal
/// type). `*` combines the scales into a bare `fixed<il+ir, fl+fr>` holding
/// the exact product, refused when that type is too wide or the product
/// leaves the 128-bit range. `+`, `-` and comparisons need equal scales
/// (else a scale mismatch naming both) and one nominal type (else a
/// cross-type mix); `+`/`-` wrap signed at `il+fl` bits. Every other
/// operator is undefined on `fixed<>`.
pub open spec fn fixed_op_spec(
    op: BinOp,
    il: u32,
    fl: u32,
    nl: i128,
    ir: u32,
    fr: u32,
    nr: i128,
    same_nominal: bool,
) -> Result<TypedResult, TypedOpError> {
    if op is Mul {
        let ni = sat_add(il, ir);
        let nf = sat_add(fl, fr);
        if !fixed_width_ok(ni, nf) {
            Err(TypedOpError::ProductTooWide)
        } else if !(i128::MIN <= nl * nr <= i128::MAX) {
            Err(TypedOpError::Overflow)
        } else {
            Ok(TypedResult::Fixed { i: ni, f: nf, stored: (nl * nr) as i128 })
        }
    } else if op is Add || op is Sub || op is Eq || op is Ne || op is Lt || op is Le || op is Gt
        || op is Ge {
        if !(il == ir && fl == fr) {
            Err(TypedOpError::ScaleMismatch { il, fl, ir, fr })
        } else if !same_nominal {
            Err(TypedOpError::CrossTypeMix)
        } else {
            let bits = sat_add(il, fl) as nat;
            match op {
                BinOp::Add => same(vstd::wrapping::i128_specs::wrapping_add(nl, nr) as int, bits, true),
                BinOp::Sub => same(vstd::wrapping::i128_specs::wrapping_sub(nl, nr) as int, bits, true),
                BinOp::Eq => Ok(TypedResult::Bool(nl == nr)),
                BinOp::Ne => Ok(TypedResult::Bool(nl != nr)),
                BinOp::Lt => Ok(TypedResult::Bool(nl < nr)),
                BinOp::Le => Ok(TypedResult::Bool(nl <= nr)),
                BinOp::Gt => Ok(TypedResult::Bool(nl > nr)),
                _ => Ok(TypedResult::Bool(nl >= nr)),
            }
        }
    } else {
        Err(TypedOpError::UndefinedOnFixed)
    }
}

/// Whether `fixed<i,f>` is a usable width (see [`fixed_width_ok`]).
fn fixed_width_usable(i: u32, f: u32) -> (b: bool)
    ensures
        b == fixed_width_ok(i, f),
{
    let w = i.saturating_add(f);
    0 < w && w < 128
}

/// A fixed-underlying typed operation (see [`fixed_op_spec`]). A 127-bit
/// fixed type overflows the wrap's mask computation, so `+`/`-` on one is
/// excluded.
pub fn fixed_op(op: BinOp, il: u32, fl: u32, nl: i128, ir: u32, fr: u32, nr: i128, same_nominal: bool) -> (r:
    Result<TypedResult, TypedOpError>)
    requires
        (op is Add || op is Sub) && il == ir && fl == fr && same_nominal ==> sat_add(il, fl) != 127,
    ensures
        r == fixed_op_spec(op, il, fl, nl, ir, fr, nr, same_nominal),
{
    if op == BinOp::Mul {
        let ni = il.saturating_add(ir);
        let nf = fl.saturating_add(fr);
        if !fixed_width_usable(ni, nf) {
            return Err(TypedOpError::ProductTooWide);
        }
        return match nl.checked_mul(nr) {
            Some(prod) => Ok(TypedResult::Fixed { i: ni, f: nf, stored: prod }),
            None => Err(TypedOpError::Overflow),
        };
    }
    match op {
        BinOp::Add | BinOp::Sub | BinOp::Eq | BinOp::Ne | BinOp::Lt | BinOp::Le | BinOp::Gt | BinOp::Ge => {
            if !(il == ir && fl == fr) {
                return Err(TypedOpError::ScaleMismatch { il, fl, ir, fr });
            }
            if !same_nominal {
                return Err(TypedOpError::CrossTypeMix);
            }
            let bits = il.saturating_add(fl);
            match op {
                BinOp::Add => {
                    let v = nl.wrapping_add(nr);
                    proof { lemma_wrapped_fits(v, bits as nat, true); }
                    Ok(TypedResult::Same(wrap_bits(v, bits, true)))
                },
                BinOp::Sub => {
                    let v = nl.wrapping_sub(nr);
                    proof { lemma_wrapped_fits(v, bits as nat, true); }
                    Ok(TypedResult::Same(wrap_bits(v, bits, true)))
                },
                BinOp::Eq => Ok(TypedResult::Bool(nl == nr)),
                BinOp::Ne => Ok(TypedResult::Bool(nl != nr)),
                BinOp::Lt => Ok(TypedResult::Bool(nl < nr)),
                BinOp::Le => Ok(TypedResult::Bool(nl <= nr)),
                BinOp::Gt => Ok(TypedResult::Bool(nl > nr)),
                _ => Ok(TypedResult::Bool(nl >= nr)),
            }
        },
        _ => Err(TypedOpError::UndefinedOnFixed),
    }
}

/// A typed binary operation dispatched on the operands' effective
/// underlying types `ul`, `ur` (newtype chains and refinements already
/// followed down), `same_nominal` telling whether the operands share one
/// nominal type: a poisoned underlying gives nothing further; two fixed
/// underlyings take the fixed-point path; two prim underlyings take the
/// prim path when the nominal types agree; every other pairing, and prims
/// of different nominal types, is a cross-type mix.
pub open spec fn typed_op_spec(op: BinOp, ul: Ty, ur: Ty, same_nominal: bool, nl: i128, nr: i128) -> Result<
    TypedResult,
    TypedOpError,
> {
    match (ul, ur) {
        (Ty::Poison, _) => Err(TypedOpError::Poisoned),
        (_, Ty::Poison) => Err(TypedOpError::Poisoned),
        (Ty::Fixed { i: il, f: fl }, Ty::Fixed { i: ir, f: fr }) => fixed_op_spec(
            op,
            il,
            fl,
            nl,
            ir,
            fr,
            nr,
            same_nominal,
        ),
        (Ty::Prim { width, signed, .. }, Ty::Prim { .. }) => if !same_nominal {
            Err(TypedOpError::CrossTypeMix)
        } else {
            prim_op_spec(op, width, signed, nl, nr)
        },
        _ => Err(TypedOpError::CrossTypeMix),
    }
}

/// Dispatch a typed binary operation on resolved underlying types (see
/// [`typed_op_spec`]).
pub fn typed_op(op: BinOp, ul: &Ty, ur: &Ty, same_nominal: bool, nl: i128, nr: i128) -> (r: Result<
    TypedResult,
    TypedOpError,
>)
    requires
        !(op is And || op is Or),
        *ul matches Ty::Prim { width, .. } && op is Shr && 0 <= nr < width * 8 ==> nr < 128,
        *ul matches Ty::Fixed { i, f } ==> (*ur == *ul && (op is Add || op is Sub) && same_nominal ==> sat_add(
            i,
            f,
        ) != 127),
    ensures
        r == typed_op_spec(op, *ul, *ur, same_nominal, nl, nr),
{
    match (ul, ur) {
        (Ty::Poison, _) => Err(TypedOpError::Poisoned),
        (_, Ty::Poison) => Err(TypedOpError::Poisoned),
        (Ty::Fixed { i: il, f: fl }, Ty::Fixed { i: ir, f: fr }) => fixed_op(
            op,
            *il,
            *fl,
            nl,
            *ir,
            *fr,
            nr,
            same_nominal,
        ),
        (Ty::Prim { width, signed, .. }, Ty::Prim { .. }) => {
            if !same_nominal {
                Err(TypedOpError::CrossTypeMix)
            } else {
                prim_op(op, *width, *signed, nl, nr)
            }
        },
        _ => Err(TypedOpError::CrossTypeMix),
    }
}

/// The stored integer of `rescale<I,F>(x)` for an `x` with `src_f` fraction
/// bits and a target of `f`: shifted by the fraction-bit difference, right
/// (arithmetic) when narrowing the fraction, left (wrapping at 128 bits)
/// when widening; a difference of 128 or more gives 0.
pub open spec fn rescaled(stored: i128, src_f: u32, f: u32) -> i128 {
    if src_f > f {
        let d = src_f - f;
        if d >= 128 {
            0
        } else {
            stored >> (d as u32)
        }
    } else {
        let d = f - src_f;
        if d >= 128 {
            0
        } else {
            stored << (d as u32)
        }
    }
}

/// Re-express a fixed-point stored integer under a new fraction width (see
/// [`rescaled`]): `rescale<16,16>` of a `fixed<32,32>` value shifts right by
/// 16.
pub fn rescale_stored(stored: i128, src_f: u32, f: u32) -> (r: i128)
    ensures
        r == rescaled(stored, src_f, f),
{
    if src_f > f {
        let d = src_f - f;
        if d >= 128 {
            0
        } else {
            stored >> d
        }
    } else {
        let d = f - src_f;
        if d >= 128 {
            0
        } else {
            stored << d
        }
    }
}

/// Prim-underlying arithmetic never leaves its type: for a type narrower
/// than 128 bits, every value-producing operation yields a stored integer
/// within the type's range, `-2^(bits-1) .. 2^(bits-1)` signed or
/// `0 .. 2^bits` unsigned.
pub proof fn law_prim_results_stay_in_width(op: BinOp, width: u8, signed: bool, nl: i128, nr: i128)
    requires
        1 <= width <= 15,
    ensures
        prim_op_spec(op, width, signed, nl, nr) matches Ok(TypedResult::Same(v)) ==> {
            let bits = width as nat * 8;
            &&& signed ==> -two_pow((bits - 1) as nat) <= v < two_pow((bits - 1) as nat)
            &&& !signed ==> 0 <= v < two_pow(bits)
        },
{
    let bits = width as nat * 8;
    match prim_op_spec(op, width, signed, nl, nr) {
        Ok(TypedResult::Same(v)) => {
            let pre: int = match op {
                BinOp::Add => vstd::wrapping::i128_specs::wrapping_add(nl, nr) as int,
                BinOp::Sub => vstd::wrapping::i128_specs::wrapping_sub(nl, nr) as int,
                BinOp::Mul => vstd::wrapping::i128_specs::wrapping_mul(nl, nr) as int,
                BinOp::Div => wrapping_div_i128(nl, nr) as int,
                BinOp::Mod => wrapping_rem_i128(nl, nr) as int,
                BinOp::BitAnd => (nl & nr) as int,
                BinOp::BitOr => (nl | nr) as int,
                BinOp::BitXor => (nl ^ nr) as int,
                BinOp::Shl => vstd::wrapping::i128_specs::wrapping_shl(nl, nr as u32) as int,
                _ => (nl >> (nr as u32)) as int,
            };
            assert(v == wrapped(pre, bits, signed) as i128);
            law_wrap_is_twos_complement(pre, bits, signed);
            lemma_two_pow_mono(bits, 127);
            lemma_two_pow_mono((bits - 1) as nat, bits);
            lemma_two_pow_127();
        },
        _ => {},
    }
}

/// Comparing two stored values of a prim type is the integer order on them,
/// whatever the type's width and signedness: `<`, `<=`, `>`, `>=`, `==` and
/// `!=` give the bare `bool` of that relation. So no value is greater or
/// less than itself, every value is `<=` and `>=` itself, `>` is `<` with
/// the operands swapped, and `>=` and `<=` are the negations of `<` and `>`.
pub proof fn law_prim_comparisons_are_the_integer_order(width: u8, signed: bool, a: i128, b: i128)
    ensures
        prim_op_spec(BinOp::Lt, width, signed, a, b) == Ok::<TypedResult, TypedOpError>(
            TypedResult::Bool((a as int) < (b as int)),
        ),
        prim_op_spec(BinOp::Le, width, signed, a, b) == Ok::<TypedResult, TypedOpError>(
            TypedResult::Bool((a as int) <= (b as int)),
        ),
        prim_op_spec(BinOp::Gt, width, signed, a, b) == Ok::<TypedResult, TypedOpError>(
            TypedResult::Bool((b as int) < (a as int)),
        ),
        prim_op_spec(BinOp::Ge, width, signed, a, b) == Ok::<TypedResult, TypedOpError>(
            TypedResult::Bool((b as int) <= (a as int)),
        ),
        prim_op_spec(BinOp::Eq, width, signed, a, b) == Ok::<TypedResult, TypedOpError>(
            TypedResult::Bool(a as int == b as int),
        ),
        prim_op_spec(BinOp::Ne, width, signed, a, b) == Ok::<TypedResult, TypedOpError>(
            TypedResult::Bool(a as int != b as int),
        ),
        prim_op_spec(BinOp::Gt, width, signed, a, a) == Ok::<TypedResult, TypedOpError>(
            TypedResult::Bool(false),
        ),
        prim_op_spec(BinOp::Lt, width, signed, a, a) == Ok::<TypedResult, TypedOpError>(
            TypedResult::Bool(false),
        ),
        prim_op_spec(BinOp::Ge, width, signed, a, a) == Ok::<TypedResult, TypedOpError>(
            TypedResult::Bool(true),
        ),
        prim_op_spec(BinOp::Le, width, signed, a, a) == Ok::<TypedResult, TypedOpError>(
            TypedResult::Bool(true),
        ),
        prim_op_spec(BinOp::Gt, width, signed, a, b) == prim_op_spec(BinOp::Lt, width, signed, b, a),
        prim_op_spec(BinOp::Ge, width, signed, a, b) == prim_op_spec(BinOp::Le, width, signed, b, a),
        prim_op_spec(BinOp::Ge, width, signed, a, b) matches Ok(TypedResult::Bool(x))
            && prim_op_spec(BinOp::Lt, width, signed, a, b) matches Ok(TypedResult::Bool(y)) && x == !y,
        prim_op_spec(BinOp::Le, width, signed, a, b) matches Ok(TypedResult::Bool(x))
            && prim_op_spec(BinOp::Gt, width, signed, a, b) matches Ok(TypedResult::Bool(y)) && x == !y,
{
}

/// Comparing two fixed-point values of one nominal type and one scale is
/// the integer order on their stored integers (which share the scale):
/// each comparison gives the bare `bool` of that relation, so `>` is `<`
/// swapped, `>=` is the negation of `<`, and a value is `>=` but not `>`
/// itself.
pub proof fn law_fixed_comparisons_are_the_integer_order(i: u32, f: u32, a: i128, b: i128)
    ensures
        fixed_op_spec(BinOp::Lt, i, f, a, i, f, b, true) == Ok::<TypedResult, TypedOpError>(
            TypedResult::Bool((a as int) < (b as int)),
        ),
        fixed_op_spec(BinOp::Le, i, f, a, i, f, b, true) == Ok::<TypedResult, TypedOpError>(
            TypedResult::Bool((a as int) <= (b as int)),
        ),
        fixed_op_spec(BinOp::Gt, i, f, a, i, f, b, true) == Ok::<TypedResult, TypedOpError>(
            TypedResult::Bool((b as int) < (a as int)),
        ),
        fixed_op_spec(BinOp::Ge, i, f, a, i, f, b, true) == Ok::<TypedResult, TypedOpError>(
            TypedResult::Bool((b as int) <= (a as int)),
        ),
        fixed_op_spec(BinOp::Eq, i, f, a, i, f, b, true) == Ok::<TypedResult, TypedOpError>(
            TypedResult::Bool(a as int == b as int),
        ),
        fixed_op_spec(BinOp::Ne, i, f, a, i, f, b, true) == Ok::<TypedResult, TypedOpError>(
            TypedResult::Bool(a as int != b as int),
        ),
        fixed_op_spec(BinOp::Gt, i, f, a, i, f, a, true) == Ok::<TypedResult, TypedOpError>(
            TypedResult::Bool(false),
        ),
        fixed_op_spec(BinOp::Ge, i, f, a, i, f, a, true) == Ok::<TypedResult, TypedOpError>(
            TypedResult::Bool(true),
        ),
        fixed_op_spec(BinOp::Gt, i, f, a, i, f, b, true) == fixed_op_spec(BinOp::Lt, i, f, b, i, f, a, true),
        fixed_op_spec(BinOp::Ge, i, f, a, i, f, b, true) == fixed_op_spec(BinOp::Le, i, f, b, i, f, a, true),
{
}

/// Widening the fraction and narrowing it back is lossless for a value the
/// widened form holds: shifting left by `d` and back right by `d` returns
/// the stored integer when its top `d + 1` bits are copies of its sign.
pub proof fn law_rescale_round_trip(stored: i128, f: u32, d: u32)
    requires
        d < 127,
        f as int + d as int <= u32::MAX,
        (stored >> (127 - d) as u32) == 0 || (stored >> (127 - d) as u32) == -1,
    ensures
        rescaled(rescaled(stored, f, (f + d) as u32), (f + d) as u32, f) == stored,
{
    let w = (f + d) as u32;
    if d == 0 {
        assert(stored << 0u32 == stored) by (bit_vector);
        assert(stored >> 0u32 == stored) by (bit_vector);
    } else {
        let wide = stored << d;
        assert(rescaled(stored, f, w) == wide);
        assert((wide >> d) == stored) by (bit_vector)
            requires
                wide == stored << d,
                0 < d < 127,
                (stored >> (127 - d) as u32) == 0 || (stored >> (127 - d) as u32) == -1,
        ;
    }
}

} // verus!
