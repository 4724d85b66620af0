use sigil_frontend_emp::eval::env::{assign_error_message, AssignError, Env};

/// The comptime values these tests bind: integers are enough.
#[derive(Clone, Debug, PartialEq)]
enum Value {
    Int(i128),
}

fn i(n: i128) -> Value {
    Value::Int(n)
}

#[test]
fn define_and_lookup() {
    let mut env = Env::new();
    env.define("x", i(1), false);
    assert_eq!(env.lookup("x"), Some(&i(1)));
}

#[test]
fn lookup_undefined_is_none() {
    let env: Env<Value> = Env::new();
    assert_eq!(env.lookup("nope"), None);
}

#[test]
fn inner_scope_shadows_outer() {
    let mut env = Env::new();
    env.define("x", i(1), false);
    env.push_scope();
    env.define("x", i(2), false);
    assert_eq!(env.lookup("x"), Some(&i(2)));
}

#[test]
fn pop_scope_restores_outer_binding() {
    let mut env = Env::new();
    env.define("x", i(1), false);
    env.push_scope();
    env.define("x", i(2), false);
    env.pop_scope();
    assert_eq!(env.lookup("x"), Some(&i(1)));
}

#[test]
fn pop_scope_never_empties_chain() {
    let mut env = Env::new();
    env.define("g", i(1), false);
    // Extra pops past the global scope are harmless no-ops.
    env.pop_scope();
    env.pop_scope();
    assert_eq!(env.lookup("g"), Some(&i(1)));
}

#[test]
fn assign_mutable_updates() {
    let mut env = Env::new();
    env.define("x", i(1), true);
    assert!(env.assign("x", i(9)).is_ok());
    assert_eq!(env.lookup("x"), Some(&i(9)));
}

#[test]
fn assign_immutable_errs() {
    let mut env = Env::new();
    env.define("x", i(1), false);
    assert_eq!(env.assign("x", i(9)), Err(AssignError::Immutable));
    assert_eq!(env.lookup("x"), Some(&i(1)));
}

#[test]
fn assign_undefined_errs() {
    let mut env = Env::new();
    assert_eq!(env.assign("nope", i(1)), Err(AssignError::NotFound));
}

#[test]
fn assign_targets_nearest_binding() {
    let mut env = Env::new();
    env.define("x", i(1), true);
    env.push_scope();
    env.define("x", i(2), true);
    assert!(env.assign("x", i(3)).is_ok());
    assert_eq!(env.lookup("x"), Some(&i(3)));
    env.pop_scope();
    // The outer binding is untouched.
    assert_eq!(env.lookup("x"), Some(&i(1)));
}

#[test]
fn clone_is_independent() {
    let mut env = Env::new();
    env.define("x", i(1), true);
    let mut cloned = env.clone();
    cloned.assign("x", i(99)).unwrap();
    // Mutating the clone does not affect the original (deep-copy clone).
    assert_eq!(env.lookup("x"), Some(&i(1)));
    assert_eq!(cloned.lookup("x"), Some(&i(99)));
}

#[test]
fn redefine_in_same_scope_overwrites() {
    let mut env = Env::new();
    env.define("x", i(1), false);
    env.define("x", i(2), true);
    assert_eq!(env.lookup("x"), Some(&i(2)));
    // The redefinition's mutability is the one that counts.
    assert!(env.assign("x", i(5)).is_ok());
    assert_eq!(env.lookup("x"), Some(&i(5)));
}

#[test]
fn assign_to_immutable_inner_binding_does_not_reach_outer() {
    let mut env = Env::new();
    env.define("x", i(1), true);
    env.push_scope();
    env.define("x", i(2), false);
    assert_eq!(env.assign("x", i(3)), Err(AssignError::Immutable));
    env.pop_scope();
    assert_eq!(env.lookup("x"), Some(&i(1)));
}

#[test]
fn distinct_names_do_not_interfere() {
    let mut env = Env::new();
    env.define("a", i(1), false);
    env.define("b", i(2), false);
    env.push_scope();
    env.define("c", i(3), false);
    assert_eq!(env.lookup("a"), Some(&i(1)));
    assert_eq!(env.lookup("b"), Some(&i(2)));
    assert_eq!(env.lookup("c"), Some(&i(3)));
    env.pop_scope();
    assert_eq!(env.lookup("c"), None);
}

#[test]
fn failed_assignments_have_their_diagnostics() {
    let mut env: Env<i128> = Env::new();
    let e = env.assign("x", 1).unwrap_err();
    assert_eq!(assign_error_message("x", e), "cannot assign to unbound name `x`");
    env.define("y", 1, false);
    let e = env.assign("y", 2).unwrap_err();
    assert_eq!(
        assign_error_message("y", e),
        "cannot assign to immutable binding `y` (declared with `let`)"
    );
}
