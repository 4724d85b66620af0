use sigil_frontend_emp::eval::enums::{cast_enum, enum_discriminants};

#[test]
fn discriminants_auto_increment_from_the_previous_variant() {
    // enum State { Idle, Run = 5, Jump, Fall = -1, Land }
    let d = enum_discriminants(&[None, Some(Some(5)), None, Some(Some(-1)), None]);
    assert_eq!(d, vec![Some(0), Some(5), Some(6), Some(-1), Some(0)]);
    // An unusable explicit discriminant leaves it, and what follows it, without a value.
    let d = enum_discriminants(&[None, Some(None), None, Some(Some(9))]);
    assert_eq!(d, vec![Some(0), None, None, Some(9)]);
    assert_eq!(enum_discriminants(&[]), Vec::<Option<i128>>::new());
}

#[test]
fn casting_picks_the_first_variant_with_the_value() {
    let d = vec![Some(0), Some(5), Some(6), Some(-1), Some(0)];
    assert_eq!(cast_enum("State", &d, 6), Ok(2));
    assert_eq!(cast_enum("State", &d, 0), Ok(0));
    assert_eq!(cast_enum("State", &d, -1), Ok(3));
    assert_eq!(cast_enum("State", &d, 7), Err("[enum.out-of-range] 7 is not a variant of State".to_string()));
    assert_eq!(cast_enum("State", &[None], 0), Err("[enum.out-of-range] 0 is not a variant of State".to_string()));
}
