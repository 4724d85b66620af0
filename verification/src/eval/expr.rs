//! Expression-evaluation helpers: operator spellings for diagnostics, the
//! overlay name a `sizeof`/`offsetof` type argument can carry, and bare
//! comptime integer arithmetic, where overflow is an error and never a wrap.
use crate::ast::{BinOp, Type};
use crate::eval::typed::{
    lemma_trunc_rem_fits, lemma_two_pow_127, lemma_two_pow_mono, lemma_two_pow_pos, prim_op_spec, trunc_div,
    trunc_rem, two_pow, wrapped, TypedOpError, TypedResult,
};
use crate::eval::text::{push_signed_decimal, signed_dec};
use vstd::arithmetic::div_mod::{lemma_fundamental_div_mod, lemma_fundamental_div_mod_converse, lemma_small_mod};
use vstd::prelude::*;

verus! {

/// The source spelling of a binary operator.
pub open spec fn binop_text(op: BinOp) -> Seq<char> {
    match op {
        BinOp::Add => "+"@,
        BinOp::Sub => "-"@,
        BinOp::Mul => "*"@,
        BinOp::Div => "/"@,
        BinOp::Mod => "%"@,
        BinOp::Shl => "<<"@,
        BinOp::Shr => ">>"@,
        BinOp::BitAnd => "&"@,
        BinOp::BitOr => "|"@,
        BinOp::BitXor => "^"@,
        BinOp::Eq => "=="@,
        BinOp::Ne => "!="@,
        BinOp::Lt => "<"@,
        BinOp::Le => "<="@,
        BinOp::Gt => ">"@,
        BinOp::Ge => ">="@,
        BinOp::And => "&&"@,
        BinOp::Or => "||"@,
        BinOp::Concat => "++"@,
    }
}

/// The source spelling of a binary operator, for diagnostics.
pub fn binop_symbol(op: BinOp) -> (r: &'static str)
    ensures
        r@ == binop_text(op),
{
    match op {
        BinOp::Add => "+",
        BinOp::Sub => "-",
        BinOp::Mul => "*",
        BinOp::Div => "/",
        BinOp::Mod => "%",
        BinOp::Shl => "<<",
        BinOp::Shr => ">>",
        BinOp::BitAnd => "&",
        BinOp::BitOr => "|",
        BinOp::BitXor => "^",
        BinOp::Eq => "==",
        BinOp::Ne => "!=",
        BinOp::Lt => "<",
        BinOp::Le => "<=",
        BinOp::Gt => ">",
        BinOp::Ge => ">=",
        BinOp::And => "&&",
        BinOp::Or => "||",
        BinOp::Concat => "++",
    }
}

/// The single segment of a bare `Named` type path, the only shape an overlay
/// name can take.
pub open spec fn overlay_name_spec(ty: Type) -> Option<Seq<char>> {
    match ty {
        Type::Named(path) => if path.segments@.len() == 1 {
            Some(path.segments@[0]@)
        } else {
            None
        },
        _ => None,
    }
}

/// The single-segment name of a `sizeof(T)`/`offsetof(T, f)` type argument,
/// if it is a bare named path; `None` for pointers, arrays, multi-segment
/// paths and the rest, which take ordinary type resolution.
pub fn overlay_name(ty: &Type) -> (r: Option<String>)
    ensures
        match overlay_name_spec(*ty) {
            Some(n) => r matches Some(s) && s@ == n,
            None => r is None,
        },
{
    match ty {
        Type::Named(path) => {
            if path.segments.len() == 1 {
                Some(path.segments[0].as_str().to_owned())
            } else {
                None
            }
        },
        _ => None,
    }
}

/// What a binary operator gives on two bare integers.
#[derive(Clone, Copy, Debug, PartialEq, Eq, Structural)]
pub enum IntValue {
    Int(i128),
    Bool(bool),
}

/// Why a binary operator on two bare integers has no value.
#[derive(Clone, Copy, Debug, PartialEq, Eq, Structural)]
pub enum IntOpError {
    /// `/` by zero.
    DivisionByZero,
    /// `%` by zero.
    ModuloByZero,
    /// The exact result leaves the 128-bit range (for `<<`: bits shifted
    /// out), with the operator.
    Overflow(BinOp),
    /// A shift count outside `0..128`, with the count.
    ShiftOutOfRange(i128),
    /// An operator that does not take two integers (`++`, `&&`, `||`).
    NotDefined(BinOp),
}

/// Whether an integer fits 128 bits, signed.
pub open spec fn fits_i128(v: int) -> bool {
    i128::MIN <= v <= i128::MAX
}

/// The exact result of `op` when it fits, else the overflow.
pub open spec fn exact(op: BinOp, v: int) -> Result<IntValue, IntOpError> {
    if fits_i128(v) {
        Ok(IntValue::Int(v as i128))
    } else {
        Err(IntOpError::Overflow(op))
    }
}

/// A binary operator on two bare comptime integers: `+ - * / %` give the
/// exact result (division truncating toward zero, the remainder taking the
/// dividend's sign) or an overflow error, never a wrapped value; a zero
/// divisor is refused; `& | ^` are bitwise; `<<`/`>>` take a count in
/// `0..128`, `>>` sign-extending and `<<` refused as an overflow when bits
/// are shifted out; comparisons give a `bool`.
pub open spec fn int_binop_spec(op: BinOp, a: i128, b: i128) -> Result<IntValue, IntOpError> {
    match op {
        BinOp::Add => exact(op, a + b),
        BinOp::Sub => exact(op, a - b),
        BinOp::Mul => exact(op, a * b),
        BinOp::Div => if b == 0 {
            Err(IntOpError::DivisionByZero)
        } else {
            exact(op, trunc_div(a as int, b as int))
        },
        BinOp::Mod => if b == 0 {
            Err(IntOpError::ModuloByZero)
        } else if a == i128::MIN && b == -1 {
            Err(IntOpError::Overflow(op))
        } else {
            exact(op, trunc_rem(a as int, b as int))
        },
        BinOp::BitAnd => Ok(IntValue::Int(a & b)),
        BinOp::BitOr => Ok(IntValue::Int(a | b)),
        BinOp::BitXor => Ok(IntValue::Int(a ^ b)),
        BinOp::Shl => if !(0 <= b < 128) {
            Err(IntOpError::ShiftOutOfRange(b))
        } else if ((a << (b as u32)) >> (b as u32)) == a {
            Ok(IntValue::Int(a << (b as u32)))
        } else {
            Err(IntOpError::Overflow(op))
        },
        BinOp::Shr => if !(0 <= b < 128) {
            Err(IntOpError::ShiftOutOfRange(b))
        } else {
            Ok(IntValue::Int(a >> (b as u32)))
        },
        BinOp::Eq => Ok(IntValue::Bool(a == b)),
        BinOp::Ne => Ok(IntValue::Bool(a != b)),
        BinOp::Lt => Ok(IntValue::Bool(a < b)),
        BinOp::Le => Ok(IntValue::Bool(a <= b)),
        BinOp::Gt => Ok(IntValue::Bool(a > b)),
        BinOp::Ge => Ok(IntValue::Bool(a >= b)),
        _ => Err(IntOpError::NotDefined(op)),
    }
}

/// Evaluate a binary operator on two bare comptime integers (see
/// [`int_binop_spec`]).
pub fn int_binop(op: BinOp, a: i128, b: i128) -> (r: Result<IntValue, IntOpError>)
    ensures
        r == int_binop_spec(op, a, b),
{
    match op {
        BinOp::Add => match a.checked_add(b) {
            Some(v) => Ok(IntValue::Int(v)),
            None => Err(IntOpError::Overflow(op)),
        },
        BinOp::Sub => match a.checked_sub(b) {
            Some(v) => Ok(IntValue::Int(v)),
            None => Err(IntOpError::Overflow(op)),
        },
        BinOp::Mul => match a.checked_mul(b) {
            Some(v) => Ok(IntValue::Int(v)),
            None => Err(IntOpError::Overflow(op)),
        },
        BinOp::Div => {
            if b == 0 {
                return Err(IntOpError::DivisionByZero);
            }
            match a.checked_div(b) {
                Some(v) => Ok(IntValue::Int(v)),
                None => Err(IntOpError::Overflow(op)),
            }
        },
        BinOp::Mod => {
            if b == 0 {
                return Err(IntOpError::ModuloByZero);
            }
            match a.checked_rem(b) {
                Some(v) => Ok(IntValue::Int(v)),
                None => {
                    proof {
                        if !(a == i128::MIN && b == -1) {
                            lemma_trunc_rem_fits(a, b);
                        }
                    }
                    Err(IntOpError::Overflow(op))
                },
            }
        },
        BinOp::BitAnd => Ok(IntValue::Int(a & b)),
        BinOp::BitOr => Ok(IntValue::Int(a | b)),
        BinOp::BitXor => Ok(IntValue::Int(a ^ b)),
        BinOp::Shl => {
            if b < 0 || b >= 128 {
                return Err(IntOpError::ShiftOutOfRange(b));
            }
            let n = b as u32;
            let r = a << n;
            if (r >> n) == a {
                Ok(IntValue::Int(r))
            } else {
                Err(IntOpError::Overflow(op))
            }
        },
        BinOp::Shr => {
            if b < 0 || b >= 128 {
                return Err(IntOpError::ShiftOutOfRange(b));
            }
            Ok(IntValue::Int(a >> (b as u32)))
        },
        BinOp::Eq => Ok(IntValue::Bool(a == b)),
        BinOp::Ne => Ok(IntValue::Bool(a != b)),
        BinOp::Lt => Ok(IntValue::Bool(a < b)),
        BinOp::Le => Ok(IntValue::Bool(a <= b)),
        BinOp::Gt => Ok(IntValue::Bool(a > b)),
        BinOp::Ge => Ok(IntValue::Bool(a >= b)),
        _ => Err(IntOpError::NotDefined(op)),
    }
}

/// Negate a bare comptime integer: `i128::MIN` has no positive
/// counterpart, so negating it is an overflow (of `-`).
pub fn int_neg(n: i128) -> (r: Result<i128, IntOpError>)
    ensures
        r == (if n == i128::MIN {
            Err::<i128, IntOpError>(IntOpError::Overflow(BinOp::Sub))
        } else {
            Ok::<i128, IntOpError>((-n) as i128)
        }),
{
    if n == i128::MIN {
        Err(IntOpError::Overflow(BinOp::Sub))
    } else {
        Ok(-n)
    }
}

/// The diagnostic for a failed integer operation.
pub open spec fn int_op_error_text(e: IntOpError) -> Seq<char> {
    match e {
        IntOpError::DivisionByZero => "division by zero"@,
        IntOpError::ModuloByZero => "modulo by zero"@,
        IntOpError::Overflow(op) => "integer overflow in `"@ + binop_text(op) + "`"@,
        IntOpError::ShiftOutOfRange(b) => "shift amount out of range: "@ + signed_dec(b as int),
        IntOpError::NotDefined(op) => Seq::empty(),
    }
}

/// The diagnostic for a failed integer operation (an operator that does not
/// take two integers never reaches integer arithmetic, so it has none).
pub fn int_op_error_message(e: IntOpError) -> (m: String)
    requires
        !(e is NotDefined),
    ensures
        m@ == int_op_error_text(e),
{
    match e {
        IntOpError::DivisionByZero => String::from_str("division by zero"),
        IntOpError::ModuloByZero => String::from_str("modulo by zero"),
        IntOpError::Overflow(op) => {
            let mut m = String::from_str("integer overflow in `");
            m.append(binop_symbol(op));
            m.append("`");
            m
        },
        IntOpError::ShiftOutOfRange(b) => {
            let mut m = String::from_str("shift amount out of range: ");
            push_signed_decimal(&mut m, b);
            m
        },
        IntOpError::NotDefined(_) => String::new(),
    }
}

/// The refusal of a link-time value where comptime evaluation needs a
/// concrete integer: a `bankid()`-derived value is steered toward emitting or
/// guarding it; any other (chiefly a provisional `here()`) toward pinning
/// branch sizes.
pub open spec fn provisional_refusal_text(bank: bool) -> Seq<char> {
    if bank {
        "[bank.provisional] bankid() is a link-time value; it cannot size or steer comptime evaluation — emit it into a data cell or guard it with ensure"@
    } else {
        "[here.provisional] `here()` after a size-relaxable instruction (jbra/jbsr, an unsized branch, or a bare jmp/jsr) is a link-time value; it cannot size or steer comptime evaluation — pin branch sizes (bra.s/bra.w, jmp) before this point, or restructure so the value is only emitted or guarded"@
    }
}

/// The refusal of a link-time value in a comptime-required position (see
/// [`provisional_refusal_text`]); `bank` says whether it derives from
/// `bankid()`.
pub fn provisional_refusal(bank: bool) -> (m: &'static str)
    ensures
        m@ == provisional_refusal_text(bank),
{
    if bank {
        "[bank.provisional] bankid() is a link-time value; it cannot size or steer comptime evaluation — emit it into a data cell or guard it with ensure"
    } else {
        "[here.provisional] `here()` after a size-relaxable instruction (jbra/jbsr, an unsized branch, or a bare jmp/jsr) is a link-time value; it cannot size or steer comptime evaluation — pin branch sizes (bra.s/bra.w, jmp) before this point, or restructure so the value is only emitted or guarded"
    }
}

/// Whether `v` lies in the range of a `bits`-wide type, signed or not.
pub open spec fn in_width(v: int, bits: nat, signed: bool) -> bool {
    if signed {
        -two_pow((bits - 1) as nat) <= v < two_pow((bits - 1) as nat)
    } else {
        0 <= v < two_pow(bits)
    }
}

proof fn lemma_wrap_keeps_in_width(v: int, bits: nat, signed: bool)
    requires
        0 < bits < 128,
        in_width(v, bits, signed),
    ensures
        wrapped(v, bits, signed) == v,
{
    let m = two_pow(bits);
    let h = two_pow((bits - 1) as nat);
    lemma_two_pow_pos((bits - 1) as nat);
    assert(m == 2 * h);
    if v >= 0 {
        lemma_small_mod(v as nat, m as nat);
    } else {
        lemma_fundamental_div_mod_converse(v, m, -1, v + m);
    }
}

/// Sized arithmetic wraps only past the type's range: for `+`, `-` and `*`,
/// a typed operation on a type narrower than 128 bits gives exactly the
/// bare-integer result whenever that result lies in the type's range.
pub proof fn law_typed_agrees_with_bare_within_width(op: BinOp, width: u8, signed: bool, a: i128, b: i128)
    requires
        op is Add || op is Sub || op is Mul,
        1 <= width <= 15,
    ensures
        int_binop_spec(op, a, b) matches Ok(IntValue::Int(v)) ==> (in_width(v as int, width as nat * 8, signed)
            ==> prim_op_spec(op, width, signed, a, b) == Ok::<TypedResult, TypedOpError>(TypedResult::Same(v))),
{
    let bits = width as nat * 8;
    if let Ok(IntValue::Int(v)) = int_binop_spec(op, a, b) {
        if in_width(v as int, bits, signed) {
            lemma_two_pow_mono(bits, 127);
            lemma_two_pow_127();
            if op is Mul {
                let x = a as int * b as int;
                let r: int = 0x1_0000_0000_0000_0000_0000_0000_0000_0000int;
                if x >= 0 {
                    lemma_small_mod(x as nat, r as nat);
                } else {
                    lemma_fundamental_div_mod_converse(x, r, -1, x + r);
                }
            }
            lemma_wrap_keeps_in_width(v as int, bits, signed);
        }
    }
}


/// The result of a comparison on two bare integers is the truth of that
/// comparison between them as integers: `<`, `<=`, `>`, `>=` are the order
/// of the integers, `==`/`!=` their equality. So `a <= a` and `a >= a`
/// always hold, `a < a` and `a > a` never do, `a <= b` is the negation of
/// `b < a`, and `a > b` is `b < a`.
pub proof fn law_int_comparisons_are_the_integer_order(a: i128, b: i128)
    ensures
        int_binop_spec(BinOp::Lt, a, b) == Ok::<IntValue, IntOpError>(IntValue::Bool((a as int) < (b as int))),
        int_binop_spec(BinOp::Le, a, b) == Ok::<IntValue, IntOpError>(IntValue::Bool((a as int) <= (b as int))),
        int_binop_spec(BinOp::Gt, a, b) == Ok::<IntValue, IntOpError>(IntValue::Bool((b as int) < (a as int))),
        int_binop_spec(BinOp::Ge, a, b) == Ok::<IntValue, IntOpError>(IntValue::Bool((b as int) <= (a as int))),
        int_binop_spec(BinOp::Eq, a, b) == Ok::<IntValue, IntOpError>(IntValue::Bool(a as int == b as int)),
        int_binop_spec(BinOp::Ne, a, b) == Ok::<IntValue, IntOpError>(IntValue::Bool(a as int != b as int)),
        int_binop_spec(BinOp::Le, a, a) == Ok::<IntValue, IntOpError>(IntValue::Bool(true)),
        int_binop_spec(BinOp::Ge, a, a) == Ok::<IntValue, IntOpError>(IntValue::Bool(true)),
        int_binop_spec(BinOp::Lt, a, a) == Ok::<IntValue, IntOpError>(IntValue::Bool(false)),
        int_binop_spec(BinOp::Gt, a, a) == Ok::<IntValue, IntOpError>(IntValue::Bool(false)),
        int_binop_spec(BinOp::Le, a, b) matches Ok(IntValue::Bool(x)) && int_binop_spec(BinOp::Lt, b, a) matches Ok(
            IntValue::Bool(y),
        ) && x == !y,
        int_binop_spec(BinOp::Gt, a, b) == int_binop_spec(BinOp::Lt, b, a),
        int_binop_spec(BinOp::Ge, a, b) == int_binop_spec(BinOp::Le, b, a),
{
}

proof fn lemma_trunc_div_rem(x: int, d: int)
    requires
        d != 0,
    ensures
        trunc_div(x, d) * d + trunc_rem(x, d) == x,
        trunc_rem(x, d) == 0 || ((trunc_rem(x, d) > 0) == (x > 0)),
        -abs_int(d) < trunc_rem(x, d) < abs_int(d),
{
    if x > 0 && d > 0 {
        lemma_fundamental_div_mod(x, d);
        assert((x / d) * d == d * (x / d)) by (nonlinear_arith);
    } else if x < 0 && d < 0 {
        lemma_fundamental_div_mod(-x, -d);
        assert(((-x) / (-d)) * d == -((-d) * ((-x) / (-d)))) by (nonlinear_arith);
    } else if x < 0 {
        lemma_fundamental_div_mod(-x, d);
        assert((-((-x) / d)) * d == -(d * ((-x) / d))) by (nonlinear_arith);
    } else if x > 0 {
        lemma_fundamental_div_mod(x, -d);
        assert((-(x / (-d))) * d == (-d) * (x / (-d))) by (nonlinear_arith);
    }
}

/// The absolute value of an integer.
pub open spec fn abs_int(x: int) -> int {
    if x < 0 {
        -x
    } else {
        x
    }
}

/// Integer arithmetic is exact: a sum, difference or product that succeeds
/// is the mathematical one, and it fails (as an overflow of that operator)
/// exactly when the mathematical result leaves the 128-bit range. A
/// quotient and remainder that both succeed recombine to the dividend, the
/// remainder smaller in size than the divisor and, when not zero, of the
/// dividend's sign; a zero divisor is always refused.
pub proof fn law_int_arithmetic_is_exact(a: i128, b: i128)
    ensures
        int_binop_spec(BinOp::Add, a, b) matches Ok(IntValue::Int(v)) ==> v == a + b,
        int_binop_spec(BinOp::Sub, a, b) matches Ok(IntValue::Int(v)) ==> v == a - b,
        int_binop_spec(BinOp::Mul, a, b) matches Ok(IntValue::Int(v)) ==> v == a * b,
        (int_binop_spec(BinOp::Add, a, b) is Err) <==> !fits_i128(a + b),
        (int_binop_spec(BinOp::Sub, a, b) is Err) <==> !fits_i128(a - b),
        (int_binop_spec(BinOp::Mul, a, b) is Err) <==> !fits_i128(a * b),
        b == 0 ==> int_binop_spec(BinOp::Div, a, b) == Err::<IntValue, IntOpError>(IntOpError::DivisionByZero),
        b == 0 ==> int_binop_spec(BinOp::Mod, a, b) == Err::<IntValue, IntOpError>(IntOpError::ModuloByZero),
        int_binop_spec(BinOp::Div, a, b) matches Ok(IntValue::Int(q)) ==> (int_binop_spec(BinOp::Mod, a, b) matches Ok(
            IntValue::Int(r),
        ) ==> q * b + r == a && -abs_int(b as int) < r < abs_int(b as int) && (r == 0 || ((r > 0) == (a > 0)))),
        int_binop_spec(BinOp::Add, a, b) == int_binop_spec(BinOp::Add, b, a),
        int_binop_spec(BinOp::Mul, a, b) == int_binop_spec(BinOp::Mul, b, a),
{
    if b != 0 {
        lemma_trunc_div_rem(a as int, b as int);
    }
    assert(a * b == b * a) by (nonlinear_arith);
}

} // verus!
