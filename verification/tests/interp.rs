use sigil_frontend_emp::ast::{AsmStmt, BinOp, Expr, Path, Stmt, UnOp};
use sigil_frontend_emp::eval::env::Env;
use sigil_frontend_emp::eval::evaluator::{Evaluator, STEP_BUDGET};
use sigil_frontend_emp::eval::interp::{eval_expr, exec_stmts, lower_asm_stmts, Flow, Value};
use sigil_frontend_emp::value::{CodeItem, Span};

fn sp() -> Span {
    Span { source: 0, start: 0, end: 0 }
}

fn lit(n: i64) -> Expr {
    Expr::Int(n, sp())
}

fn name(n: &str) -> Expr {
    Expr::Path(Path { segments: vec![n.to_string()], span: sp() })
}

fn bin(op: BinOp, l: Expr, r: Expr) -> Expr {
    Expr::Binary { op, lhs: Box::new(l), rhs: Box::new(r), span: sp() }
}

fn int_of(v: Value) -> i128 {
    match v {
        Value::Int(n) => n,
        other => panic!("{other:?}"),
    }
}

#[test]
fn arithmetic_and_comparisons_evaluate_exactly() {
    let mut ev = Evaluator::new();
    let env: Env<Value> = Env::new();
    let e = bin(BinOp::Add, lit(2), bin(BinOp::Mul, lit(3), lit(4)));
    assert_eq!(int_of(eval_expr(&mut ev, &e, &env)), 14);
    assert!(matches!(eval_expr(&mut ev, &bin(BinOp::Lt, lit(1), lit(2)), &env), Value::Bool(true)));
    let neg = Expr::Unary { op: UnOp::Neg, operand: Box::new(lit(5)), span: sp() };
    assert_eq!(int_of(eval_expr(&mut ev, &neg, &env)), -5);
    let s = bin(BinOp::Concat, Expr::Str("ab".into(), sp()), Expr::Str("cd".into(), sp()));
    assert!(matches!(eval_expr(&mut ev, &s, &env), Value::Str(t) if t == "abcd"));
    assert!(ev.diags.is_empty());
}

#[test]
fn errors_poison_and_report_once() {
    let mut ev = Evaluator::new();
    let env: Env<Value> = Env::new();
    let e = bin(BinOp::Add, bin(BinOp::Div, lit(1), lit(0)), lit(1));
    assert!(matches!(eval_expr(&mut ev, &e, &env), Value::Poison));
    assert_eq!(ev.diags.len(), 1);
    assert_eq!(ev.diags[0].message, "division by zero");
    assert!(matches!(eval_expr(&mut ev, &name("nope"), &env), Value::Poison));
    assert_eq!(ev.diags[1].message, "unknown name `nope`");
    let t = bin(BinOp::Add, name("true"), lit(1));
    assert!(matches!(eval_expr(&mut ev, &t, &env), Value::Poison));
    assert_eq!(ev.diags[2].message, "`+` not defined for bool and int");
}

#[test]
fn logical_operators_short_circuit() {
    let mut ev = Evaluator::new();
    let env: Env<Value> = Env::new();
    let e = bin(BinOp::And, name("false"), name("undefined"));
    assert!(matches!(eval_expr(&mut ev, &e, &env), Value::Bool(false)));
    assert!(ev.diags.is_empty());
}

#[test]
fn statements_bind_assign_and_return() {
    let mut ev = Evaluator::new();
    let mut env: Env<Value> = Env::new();
    let body = vec![
        Stmt::Var { name: "x".into(), value: lit(1), span: sp() },
        Stmt::Assign { name: "x".into(), value: bin(BinOp::Add, name("x"), lit(41)), span: sp() },
        Stmt::If {
            cond: bin(BinOp::Eq, name("x"), lit(42)),
            then: vec![Stmt::Return { value: Some(name("x")), span: sp() }],
            els: None,
            span: sp(),
        },
        Stmt::Return { value: Some(lit(0)), span: sp() },
    ];
    match exec_stmts(&mut ev, &body, &mut env, true) {
        Flow::Return(v) => assert_eq!(int_of(v), 42),
        other => panic!("{other:?}"),
    }
    assert!(ev.diags.is_empty());
}

#[test]
fn immutable_bindings_and_outside_vars_are_reported() {
    let mut ev = Evaluator::new();
    let mut env: Env<Value> = Env::new();
    let body = vec![
        Stmt::Let { name: "y".into(), value: lit(1), span: sp() },
        Stmt::Assign { name: "y".into(), value: lit(2), span: sp() },
        Stmt::Var { name: "z".into(), value: lit(3), span: sp() },
        Stmt::Expr(bin(BinOp::Add, name("y"), name("z"))),
    ];
    match exec_stmts(&mut ev, &body, &mut env, false) {
        Flow::Normal(v) => assert_eq!(int_of(v), 4),
        other => panic!("{other:?}"),
    }
    assert_eq!(ev.diags[0].message, "cannot assign to immutable binding `y` (declared with `let`)");
    assert_eq!(
        ev.diags[1].message,
        "comptime var is only allowed inside a comptime block or comptime fn body"
    );
}

#[test]
fn branch_locals_do_not_leak_and_bad_conditions_report() {
    let mut ev = Evaluator::new();
    let mut env: Env<Value> = Env::new();
    let body = vec![
        Stmt::If {
            cond: name("true"),
            then: vec![Stmt::Let { name: "inner".into(), value: lit(1), span: sp() }],
            els: None,
            span: sp(),
        },
        Stmt::If { cond: lit(1), then: vec![], els: None, span: sp() },
    ];
    exec_stmts(&mut ev, &body, &mut env, false);
    assert!(env.lookup("inner").is_none());
    assert_eq!(ev.diags[0].message, "if condition must be bool, got int");
}

#[test]
fn the_step_budget_aborts_evaluation() {
    let mut ev = Evaluator::new();
    ev.steps = STEP_BUDGET;
    let env: Env<Value> = Env::new();
    assert!(matches!(eval_expr(&mut ev, &lit(1), &env), Value::Poison));
    assert!(ev.aborted);
    assert_eq!(ev.diags[0].message, "step budget exceeded");
    assert!(matches!(eval_expr(&mut ev, &lit(1), &env), Value::Poison));
    assert_eq!(ev.diags.len(), 1);
}

fn label(n: &str) -> AsmStmt {
    AsmStmt::Label { name: n.to_string(), export: false, span: sp() }
}

fn label_names(items: &[CodeItem]) -> Vec<String> {
    items
        .iter()
        .map(|c| match c {
            CodeItem::Label { name, .. } => name.clone(),
            _ => panic!("not a label"),
        })
        .collect()
}

#[test]
fn asm_if_lowers_only_the_chosen_branch() {
    let mut ev = Evaluator::new();
    let mut env: Env<Value> = Env::new();
    env.define("DEBUG", Value::Int(1), false);
    let scope = vec![("a".to_string(), "p.a".to_string()), ("b".to_string(), "p.b".to_string()), ("c".to_string(), "p.c".to_string())];
    let body = vec![
        label("a"),
        AsmStmt::If {
            cond: bin(BinOp::Eq, name("DEBUG"), lit(1)),
            then: vec![label("b")],
            els: Some(vec![label("c")]),
            span: sp(),
        },
        AsmStmt::If { cond: lit(0), then: vec![label("c")], els: None, span: sp() },
    ];
    let mut buf = Vec::new();
    lower_asm_stmts(&mut ev, &body, &scope, &mut buf, &env);
    assert_eq!(label_names(&buf), vec!["p.a".to_string(), "p.b".to_string()]);
    assert!(ev.diags.is_empty());
    let bad = vec![AsmStmt::If { cond: Expr::Str("x".into(), sp()), then: vec![label("a")], els: None, span: sp() }];
    lower_asm_stmts(&mut ev, &bad, &scope, &mut buf, &env);
    assert_eq!(buf.len(), 2);
    assert_eq!(
        ev.diags[0].message,
        "[asm.if-not-comptime] a statement-position `if` condition must be a comptime bool or int, got string"
    );
}

#[test]
fn while_loops_run_until_false_and_are_bounded() {
    let mut ev = Evaluator::new();
    let mut env: Env<Value> = Env::new();
    let body = vec![
        Stmt::Var { name: "i".into(), value: lit(0), span: sp() },
        Stmt::Var { name: "sum".into(), value: lit(0), span: sp() },
        Stmt::While {
            cond: bin(BinOp::Lt, name("i"), lit(5)),
            body: vec![
                Stmt::Assign { name: "sum".into(), value: bin(BinOp::Add, name("sum"), name("i")), span: sp() },
                Stmt::Assign { name: "i".into(), value: bin(BinOp::Add, name("i"), lit(1)), span: sp() },
            ],
            span: sp(),
        },
        Stmt::Return { value: Some(name("sum")), span: sp() },
    ];
    match exec_stmts(&mut ev, &body, &mut env, true) {
        Flow::Return(v) => assert_eq!(int_of(v), 10),
        other => panic!("{other:?}"),
    }
    let forever = vec![Stmt::While { cond: name("true"), body: vec![], span: sp() }];
    let mut ev2 = Evaluator::new();
    ev2.steps = STEP_BUDGET - 100;
    exec_stmts(&mut ev2, &forever, &mut env, true);
    assert!(ev2.aborted);
    assert_eq!(ev2.diags[0].message, "step budget exceeded");
}

#[test]
fn defines_resolve_after_locals() {
    let mut ev = Evaluator::new();
    ev.defines = vec![("DEBUG".to_string(), 1)];
    let mut env: Env<Value> = Env::new();
    assert_eq!(int_of(eval_expr(&mut ev, &name("DEBUG"), &env)), 1);
    env.define("DEBUG", Value::Int(7), false);
    assert_eq!(int_of(eval_expr(&mut ev, &name("DEBUG"), &env)), 7);
}

#[test]
fn comptime_blocks_allow_vars_and_drop_their_scope() {
    let mut ev = Evaluator::new();
    let mut env: Env<Value> = Env::new();
    let body = vec![Stmt::ComptimeBlock {
        body: vec![Stmt::Var { name: "t".into(), value: lit(1), span: sp() }],
        span: sp(),
    }];
    exec_stmts(&mut ev, &body, &mut env, false);
    assert!(ev.diags.is_empty());
    assert!(env.lookup("t").is_none());
}
