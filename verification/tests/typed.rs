use sigil_frontend_emp::ast::BinOp;
use sigil_frontend_emp::eval::expr::{int_binop, int_neg, int_op_error_message, IntOpError, IntValue};
use sigil_frontend_emp::eval::typed::{
    fixed_op, prim_op, rescale_stored, typed_op, wrap_bits, TypedOpError, TypedResult,
};
use sigil_frontend_emp::layout::Ty;

#[test]
fn prim_arithmetic_wraps_at_the_type_width() {
    assert_eq!(prim_op(BinOp::Add, 1, false, 200, 100), Ok(TypedResult::Same(44)));
    assert_eq!(prim_op(BinOp::Add, 1, true, 100, 100), Ok(TypedResult::Same(-56)));
    assert_eq!(prim_op(BinOp::Sub, 1, false, 0, 1), Ok(TypedResult::Same(255)));
    assert_eq!(prim_op(BinOp::Sub, 2, true, -32768, 1), Ok(TypedResult::Same(32767)));
    assert_eq!(prim_op(BinOp::Mul, 2, false, 300, 300), Ok(TypedResult::Same(90000 % 65536)));
    assert_eq!(prim_op(BinOp::Div, 1, true, -7, 2), Ok(TypedResult::Same(-3)));
    assert_eq!(prim_op(BinOp::Mod, 1, true, -7, 2), Ok(TypedResult::Same(-1)));
    assert_eq!(prim_op(BinOp::Mod, 1, true, 7, -2), Ok(TypedResult::Same(1)));
    assert_eq!(prim_op(BinOp::BitAnd, 1, false, 0x1F0, 0x0FF), Ok(TypedResult::Same(0xF0)));
    assert_eq!(prim_op(BinOp::BitOr, 1, false, 0x10, 0x01), Ok(TypedResult::Same(0x11)));
    assert_eq!(prim_op(BinOp::BitXor, 1, true, 0x7F, 0xFF), Ok(TypedResult::Same(-128)));
    assert_eq!(prim_op(BinOp::Shl, 1, false, 0x81, 1), Ok(TypedResult::Same(0x02)));
    assert_eq!(prim_op(BinOp::Shr, 1, true, -128, 7), Ok(TypedResult::Same(-1)));
    assert_eq!(prim_op(BinOp::Add, 16, true, i128::MAX, 1), Ok(TypedResult::Same(i128::MIN)));
    assert_eq!(prim_op(BinOp::Div, 16, true, i128::MIN, -1), Ok(TypedResult::Same(i128::MIN)));
    assert_eq!(prim_op(BinOp::Mod, 16, true, i128::MIN, -1), Ok(TypedResult::Same(0)));
}

#[test]
fn prim_refusals_and_comparisons() {
    assert_eq!(prim_op(BinOp::Div, 1, false, 5, 0), Err(TypedOpError::DivisionByZero));
    assert_eq!(prim_op(BinOp::Mod, 1, false, 5, 0), Err(TypedOpError::ModuloByZero));
    assert_eq!(prim_op(BinOp::Shl, 1, false, 1, 8), Err(TypedOpError::ShiftOutOfRange(8)));
    assert_eq!(prim_op(BinOp::Shr, 2, false, 1, -1), Err(TypedOpError::ShiftOutOfRange(-1)));
    assert_eq!(prim_op(BinOp::Concat, 1, false, 1, 2), Err(TypedOpError::ConcatUndefined));
    assert_eq!(prim_op(BinOp::Lt, 1, false, 3, 300), Ok(TypedResult::Bool(true)));
    assert_eq!(prim_op(BinOp::Eq, 1, false, 44, 300), Ok(TypedResult::Bool(false)));
    assert_eq!(prim_op(BinOp::Ge, 1, true, -1, -1), Ok(TypedResult::Bool(true)));
    assert_eq!(prim_op(BinOp::Ne, 1, true, -1, 0), Ok(TypedResult::Bool(true)));
}

#[test]
fn fixed_point_scales() {
    // Same scale: transparent add/sub, wrapping signed at I+F bits.
    assert_eq!(fixed_op(BinOp::Add, 8, 8, 0x0180, 8, 8, 0x0080, true), Ok(TypedResult::Same(0x0200)));
    assert_eq!(fixed_op(BinOp::Add, 4, 4, 127, 4, 4, 1, true), Ok(TypedResult::Same(-128)));
    assert_eq!(fixed_op(BinOp::Sub, 8, 8, 0, 8, 8, 1, true), Ok(TypedResult::Same(-1)));
    assert_eq!(fixed_op(BinOp::Le, 8, 8, 5, 8, 8, 6, true), Ok(TypedResult::Bool(true)));
    // A multiply combines the scales and keeps the exact product.
    assert_eq!(
        fixed_op(BinOp::Mul, 16, 16, 0x1_8000, 16, 16, 0x2_0000, true),
        Ok(TypedResult::Fixed { i: 32, f: 32, stored: 0x3_0000_0000 })
    );
    assert_eq!(
        fixed_op(BinOp::Mul, 32, 32, 1, 32, 32, 1, true),
        Err(TypedOpError::ProductTooWide)
    );
    assert_eq!(
        fixed_op(BinOp::Mul, 8, 8, i128::MAX, 8, 8, 2, true),
        Err(TypedOpError::Overflow)
    );
    assert_eq!(
        fixed_op(BinOp::Add, 16, 16, 1, 8, 8, 1, true),
        Err(TypedOpError::ScaleMismatch { il: 16, fl: 16, ir: 8, fr: 8 })
    );
    assert_eq!(fixed_op(BinOp::Add, 16, 16, 1, 16, 16, 1, false), Err(TypedOpError::CrossTypeMix));
    assert_eq!(fixed_op(BinOp::Div, 16, 16, 1, 16, 16, 1, true), Err(TypedOpError::UndefinedOnFixed));
    assert_eq!(fixed_op(BinOp::Shl, 16, 16, 1, 16, 16, 1, true), Err(TypedOpError::UndefinedOnFixed));
}

#[test]
fn typed_dispatch_on_underlyings() {
    let u8t = Ty::Prim { width: 1, signed: false, le: false };
    let fx = Ty::Fixed { i: 16, f: 16 };
    assert_eq!(typed_op(BinOp::Add, &u8t, &u8t, true, 200, 100), Ok(TypedResult::Same(44)));
    assert_eq!(typed_op(BinOp::Add, &u8t, &u8t, false, 200, 100), Err(TypedOpError::CrossTypeMix));
    assert_eq!(typed_op(BinOp::Add, &u8t, &fx, true, 1, 1), Err(TypedOpError::CrossTypeMix));
    assert_eq!(typed_op(BinOp::Add, &Ty::Poison, &u8t, true, 1, 1), Err(TypedOpError::Poisoned));
    assert_eq!(typed_op(BinOp::Add, &u8t, &Ty::Poison, true, 1, 1), Err(TypedOpError::Poisoned));
    assert_eq!(typed_op(BinOp::Sub, &fx, &fx, true, 1, 2), Ok(TypedResult::Same(-1)));
    assert_eq!(
        typed_op(BinOp::Mul, &fx, &fx, false, 2, 3),
        Ok(TypedResult::Fixed { i: 32, f: 32, stored: 6 })
    );
}

#[test]
fn rescale_shifts_by_the_fraction_delta() {
    // rescale<16,16> of a fixed<32,32> value shifts right by 16.
    assert_eq!(rescale_stored(0x3_0000_0000, 32, 16), 0x3_0000);
    assert_eq!(rescale_stored(-0x1_0000, 16, 8), -0x100);
    assert_eq!(rescale_stored(-1, 16, 8), -1);
    assert_eq!(rescale_stored(3, 8, 16), 0x300);
    assert_eq!(rescale_stored(5, 8, 8), 5);
    assert_eq!(rescale_stored(-5, 200, 8), 0);
    assert_eq!(rescale_stored(5, 8, 200), 0);
    // Widen then narrow back: lossless for a value that fits.
    assert_eq!(rescale_stored(rescale_stored(-1234, 8, 20), 20, 8), -1234);
    assert_eq!(wrap_bits(rescale_stored(1, 0, 7), 8, true), -128);
}

#[test]
fn bare_integer_arithmetic_errors_instead_of_wrapping() {
    assert_eq!(int_binop(BinOp::Add, 2, 3), Ok(IntValue::Int(5)));
    assert_eq!(int_binop(BinOp::Add, i128::MAX, 1), Err(IntOpError::Overflow(BinOp::Add)));
    assert_eq!(int_binop(BinOp::Sub, i128::MIN, 1), Err(IntOpError::Overflow(BinOp::Sub)));
    assert_eq!(int_binop(BinOp::Mul, 1 << 100, 1 << 30), Err(IntOpError::Overflow(BinOp::Mul)));
    assert_eq!(int_binop(BinOp::Mul, -4, 5), Ok(IntValue::Int(-20)));
    assert_eq!(int_binop(BinOp::Div, -7, 2), Ok(IntValue::Int(-3)));
    assert_eq!(int_binop(BinOp::Div, 7, 0), Err(IntOpError::DivisionByZero));
    assert_eq!(int_binop(BinOp::Div, i128::MIN, -1), Err(IntOpError::Overflow(BinOp::Div)));
    assert_eq!(int_binop(BinOp::Mod, -7, 2), Ok(IntValue::Int(-1)));
    assert_eq!(int_binop(BinOp::Mod, 7, 0), Err(IntOpError::ModuloByZero));
    assert_eq!(int_binop(BinOp::Mod, i128::MIN, -1), Err(IntOpError::Overflow(BinOp::Mod)));
    assert_eq!(int_binop(BinOp::BitAnd, 0xF0, 0x3C), Ok(IntValue::Int(0x30)));
    assert_eq!(int_binop(BinOp::BitOr, 0xF0, 0x0F), Ok(IntValue::Int(0xFF)));
    assert_eq!(int_binop(BinOp::BitXor, -1, 0xFF), Ok(IntValue::Int(-256)));
    assert_eq!(int_binop(BinOp::Shl, 1, 126), Ok(IntValue::Int(1 << 126)));
    assert_eq!(int_binop(BinOp::Shl, 1, 127), Err(IntOpError::Overflow(BinOp::Shl)));
    assert_eq!(int_binop(BinOp::Shl, -1, 127), Ok(IntValue::Int(i128::MIN)));
    assert_eq!(int_binop(BinOp::Shl, 3, 128), Err(IntOpError::ShiftOutOfRange(128)));
    assert_eq!(int_binop(BinOp::Shr, -16, 2), Ok(IntValue::Int(-4)));
    assert_eq!(int_binop(BinOp::Shr, 16, -1), Err(IntOpError::ShiftOutOfRange(-1)));
    assert_eq!(int_binop(BinOp::Lt, -1, 0), Ok(IntValue::Bool(true)));
    assert_eq!(int_binop(BinOp::Ne, 4, 4), Ok(IntValue::Bool(false)));
    assert_eq!(int_binop(BinOp::Concat, 1, 2), Err(IntOpError::NotDefined(BinOp::Concat)));
    assert_eq!(int_binop(BinOp::And, 1, 2), Err(IntOpError::NotDefined(BinOp::And)));
    assert_eq!(int_neg(5), Ok(-5));
    assert_eq!(int_neg(i128::MIN), Err(IntOpError::Overflow(BinOp::Sub)));
}

#[test]
fn typed_matches_bare_within_the_width() {
    // 100 + 27 fits an i8: the typed and bare results agree.
    assert_eq!(int_binop(BinOp::Add, 100, 27), Ok(IntValue::Int(127)));
    assert_eq!(prim_op(BinOp::Add, 1, true, 100, 27), Ok(TypedResult::Same(127)));
    // 100 + 28 does not: only the typed path wraps.
    assert_eq!(int_binop(BinOp::Add, 100, 28), Ok(IntValue::Int(128)));
    assert_eq!(prim_op(BinOp::Add, 1, true, 100, 28), Ok(TypedResult::Same(-128)));
}

#[test]
fn integer_errors_have_their_diagnostics() {
    assert_eq!(int_op_error_message(IntOpError::DivisionByZero), "division by zero");
    assert_eq!(int_op_error_message(IntOpError::ModuloByZero), "modulo by zero");
    assert_eq!(int_op_error_message(IntOpError::Overflow(BinOp::Shl)), "integer overflow in `<<`");
    assert_eq!(int_op_error_message(int_neg(i128::MIN).unwrap_err()), "integer overflow in `-`");
    assert_eq!(
        int_op_error_message(int_binop(BinOp::Shr, 1, -3).unwrap_err()),
        "shift amount out of range: -3"
    );
}

#[test]
fn link_time_values_are_refused_with_steering() {
    assert!(sigil_frontend_emp::eval::expr::provisional_refusal(true).starts_with("[bank.provisional] bankid() is a link-time value"));
    assert!(sigil_frontend_emp::eval::expr::provisional_refusal(false).starts_with("[here.provisional] `here()` after a size-relaxable instruction"));
}
