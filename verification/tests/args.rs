use sigil_frontend_emp::ast::{Arg, Expr};
use sigil_frontend_emp::eval::args::{bind_args, require_positional, sole_argument, sort_builtin_args};
use sigil_frontend_emp::value::Span;

fn at(start: u32) -> Span {
    Span { source: 0, start, end: start + 1 }
}
fn pos(start: u32) -> Arg {
    Arg { name: None, value: Expr::Int(0, at(start)), span: at(start) }
}
fn named(name: &str, start: u32) -> Arg {
    Arg { name: Some(name.to_string()), value: Expr::Int(0, at(start)), span: at(start) }
}

#[test]
fn builtin_arguments_are_sorted_and_misuse_diagnosed() {
    let args = vec![
        named("len", 0),
        pos(1),
        named("skip", 2),
        named("foo", 3),
        pos(4),
        named("skip", 5),
    ];
    let sorted = sort_builtin_args("embed", "path", &["skip", "len"], &args);
    assert_eq!(sorted.positional, Some(1));
    assert_eq!(sorted.named, vec![Some(5), Some(0)]);
    assert_eq!(
        sorted.diags,
        vec![
            (at(3), "unknown named argument `foo` to `embed`".to_string()),
            (at(4), "`embed` takes exactly one positional path argument".to_string()),
            (at(5), "`skip` given more than once".to_string()),
        ]
    );
    assert_eq!(require_positional("embed", "path", &sorted), Ok(1));
}

#[test]
fn a_missing_positional_argument_is_refused() {
    let args = vec![named("dict", 0), named("tile_delta", 1)];
    let sorted = sort_builtin_args("s4lz", "data", &["dict", "tile_delta"], &args);
    assert_eq!(sorted.positional, None);
    assert_eq!(sorted.named, vec![Some(0), Some(1)]);
    assert!(sorted.diags.is_empty());
    assert_eq!(
        require_positional("s4lz", "data", &sorted),
        Err("`s4lz` requires a data argument".to_string())
    );
    let none = sort_builtin_args("import", "path", &[], &[named("x", 7)]);
    assert_eq!(none.named, Vec::<Option<usize>>::new());
    assert_eq!(none.diags, vec![(at(7), "unknown named argument `x` to `import`".to_string())]);
}

#[test]
fn single_argument_builtins() {
    assert_eq!(sole_argument("zx0", "", &[pos(0)]), Ok(None));
    assert_eq!(
        sole_argument("zx0", "", &[named("data", 3)]),
        Ok(Some((at(3), "`zx0` takes a positional argument".to_string())))
    );
    assert_eq!(
        sole_argument("kosinski", "", &[pos(0), pos(1)]),
        Err("`kosinski` expects exactly 1 argument, got 2".to_string())
    );
    assert_eq!(sole_argument("rocket", "", &[]), Err("`rocket` expects exactly 1 argument, got 0".to_string()));
    assert_eq!(
        sole_argument("State", " construction/cast", &[pos(0), pos(1)]),
        Err("`State` construction/cast expects exactly 1 argument, got 2".to_string())
    );
    assert_eq!(
        sole_argument("State", " construction/cast", &[named("x", 4)]),
        Ok(Some((at(4), "`State` construction/cast takes a positional argument".to_string())))
    );
}

#[test]
fn call_arguments_bind_to_parameters() {
    // f(a, b, c) called as f(1, c: 3, 2): positional fill in order, named by name.
    let r = bind_args(&["a", "b", "c"], &[pos(0), named("c", 1), pos(2)], at(9));
    assert_eq!(r.slots, vec![Some(0), Some(2), Some(1)]);
    assert!(r.diags.is_empty());
}

#[test]
fn call_argument_misuse_is_diagnosed() {
    // f(a, b) called as f(b: 1, 2, 3, 4, d: 5): the positional `2` lands on `a`;
    // `3` hits the already-named `b`; `4` is one too many; `d` is unknown.
    let r = bind_args(&["a", "b"], &[named("b", 0), pos(1), pos(2), pos(3), named("d", 4)], at(9));
    assert_eq!(r.slots, vec![Some(1), Some(0)]);
    assert_eq!(
        r.diags,
        vec![
            (at(2), "parameter `b` given more than once".to_string()),
            (at(3), "too many arguments".to_string()),
            (at(4), "unknown named parameter `d`".to_string()),
        ]
    );
    // Named twice keeps the first; missing parameters are reported at the call.
    let r = bind_args(&["a", "b", "c"], &[named("b", 0), named("b", 1)], at(9));
    assert_eq!(r.slots, vec![None, Some(0), None]);
    assert_eq!(
        r.diags,
        vec![
            (at(1), "parameter `b` given more than once".to_string()),
            (at(9), "missing argument `a`".to_string()),
            (at(9), "missing argument `c`".to_string()),
        ]
    );
}
