use sigil_frontend_emp::eval::dispatch::{
    bareword_not_fn, call_target, data_value_readable, lambda_arity, non_code_kind, single_arg_check,
    unknown_function_message, CallTarget, ItemKinds, NameKinds,
};

fn segs(v: &[&str]) -> Vec<String> {
    v.iter().map(|s| s.to_string()).collect()
}

fn none() -> NameKinds {
    NameKinds { local: false, constant: false, newtype: false, enumeration: false, function: false }
}

fn all() -> NameKinds {
    NameKinds { local: true, constant: true, newtype: true, enumeration: true, function: true }
}

#[test]
fn guards_and_builtins_come_first() {
    assert_eq!(call_target(&segs(&["ensure"]), all()), CallTarget::Guard { fatal: false });
    assert_eq!(call_target(&segs(&["ensure_fatal"]), all()), CallTarget::Guard { fatal: true });
    assert_eq!(call_target(&segs(&["len"]), all()), CallTarget::Builtin);
    assert_eq!(call_target(&segs(&["xs", "map"]), none()), CallTarget::Builtin);
    assert_eq!(call_target(&segs(&["a", "ensure"]), all()), CallTarget::Unsupported);
    assert_eq!(call_target(&segs(&[]), all()), CallTarget::Unsupported);
}

#[test]
fn single_names_follow_the_table_order() {
    let mut k = all();
    assert_eq!(call_target(&segs(&["f"]), k), CallTarget::CallableValue);
    k.local = false;
    assert_eq!(call_target(&segs(&["f"]), k), CallTarget::CallableValue);
    k.constant = false;
    assert_eq!(call_target(&segs(&["f"]), k), CallTarget::Newtype);
    k.newtype = false;
    assert_eq!(call_target(&segs(&["f"]), k), CallTarget::EnumCast);
    k.enumeration = false;
    assert_eq!(call_target(&segs(&["f"]), k), CallTarget::Function);
    assert_eq!(call_target(&segs(&["f"]), none()), CallTarget::Unknown);
    assert_eq!(unknown_function_message("f"), "unknown function `f`");
}

#[test]
fn fixed_arity_calls_report_their_counts() {
    assert!(lambda_arity(2, 2).is_none());
    assert_eq!(lambda_arity(2, 3).unwrap(), "lambda expects 2 argument(s), got 3");
    assert_eq!(single_arg_check("Angle", &[None]), Ok(None));
    assert_eq!(
        single_arg_check("Angle", &[None, None]),
        Err("`Angle` construction/cast expects exactly 1 argument, got 2".to_string())
    );
    assert_eq!(
        single_arg_check("Angle", &[Some("x".to_string())]),
        Ok(Some("`Angle` construction/cast takes a positional argument".to_string()))
    );
}

fn kinds() -> ItemKinds {
    ItemKinds {
        constant: false,
        structure: false,
        enumeration: false,
        newtype: false,
        bitfield: false,
        data: false,
        data_struct_literal: false,
        imported_data: false,
        offsets: false,
        dispatch: false,
        overlay: false,
    }
}

#[test]
fn non_code_items_are_named_by_kind() {
    assert_eq!(non_code_kind(kinds()), None);
    assert_eq!(non_code_kind(ItemKinds { data: true, constant: true, ..kinds() }), Some("data item"));
    assert_eq!(non_code_kind(ItemKinds { overlay: true, ..kinds() }), Some("overlay"));
    assert_eq!(non_code_kind(ItemKinds { dispatch: true, ..kinds() }), Some("dispatch table"));
}

#[test]
fn barewords_naming_non_fns_are_reported_with_an_article() {
    assert_eq!(bareword_not_fn("x", kinds()), None);
    assert_eq!(
        bareword_not_fn("Anim", ItemKinds { enumeration: true, ..kinds() }).unwrap(),
        "`Anim` names an enum, not a comptime fn — only comptime fn calls are legal in statement position"
    );
}

#[test]
fn data_values_are_readable_only_from_struct_literals_or_imports() {
    assert!(data_value_readable(ItemKinds { data: true, data_struct_literal: true, ..kinds() }));
    assert!(!data_value_readable(ItemKinds { data: true, ..kinds() }));
    assert!(data_value_readable(ItemKinds { imported_data: true, ..kinds() }));
    assert!(!data_value_readable(ItemKinds { imported_data: true, enumeration: true, ..kinds() }));
}
