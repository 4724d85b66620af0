//! The comptime interpreter core: evaluating expressions and executing
//! statement lists against a scope chain, under the evaluator's step budget.
//!
//! Each expression evaluated charges one step; the step past the budget
//! aborts evaluation (one error naming the call chain), after which every
//! further evaluation yields poison silently. A poisoned operand poisons its
//! operation without a further report. Integer arithmetic is exact, an
//! overflow being an error and never a wrap.
//!
//! The values held here are the scalar ones: integers, booleans, strings,
//! unit and poison. Calls and dotted paths reach item tables this core does
//! not hold and are not evaluated by it.
use crate::ast::{AsmStmt, BinOp, Expr, Path, Stmt, UnOp};
use crate::value::CodeItem;
use crate::eval::env::{chain_define, chain_lookup, chain_nearest, AssignError, Binding, Env};
use crate::eval::evaluator::{abort_message, diags_view, stack_names, Evaluator, Level, STEP_BUDGET};
use crate::eval::expr::{binop_symbol, binop_text, int_binop, int_binop_spec, int_op_error_message, int_op_error_text, IntOpError, IntValue};
use crate::eval::defines::{define_value, defines_view, lookup_define};
use crate::eval::text::{chars_of, str_eq};
use crate::value::Span;
use vstd::prelude::*;

verus! {

/// A comptime value.
#[derive(Debug)]
pub enum Value {
    Int(i128),
    Bool(bool),
    Str(String),
    Unit,
    /// An already-reported failure: it propagates without further reports.
    Poison,
}

/// A comptime value as the specification sees it.
pub enum ValueView {
    Int(i128),
    Bool(bool),
    Str(Seq<char>),
    Unit,
    Poison,
}

/// The plain view of a value.
pub open spec fn vview(v: Value) -> ValueView {
    match v {
        Value::Int(n) => ValueView::Int(n),
        Value::Bool(b) => ValueView::Bool(b),
        Value::Str(s) => ValueView::Str(s@),
        Value::Unit => ValueView::Unit,
        Value::Poison => ValueView::Poison,
    }
}

/// A copy of a value.
pub fn copy_value(v: &Value) -> (r: Value)
    ensures
        vview(r) == vview(*v),
{
    match v {
        Value::Int(n) => Value::Int(*n),
        Value::Bool(b) => Value::Bool(*b),
        Value::Str(s) => Value::Str(s.clone()),
        Value::Unit => Value::Unit,
        Value::Poison => Value::Poison,
    }
}

/// A binding as the specification sees it.
pub open spec fn bview(b: Binding<Value>) -> Binding<ValueView> {
    Binding { value: vview(b.value), mutable: b.mutable }
}

/// A scope as the specification sees it.
pub open spec fn scope_view(m: Map<Seq<char>, Binding<Value>>) -> Map<Seq<char>, Binding<ValueView>> {
    m.map_values(|b: Binding<Value>| bview(b))
}

/// A scope chain of viewed values.
pub type VChain = Seq<Map<Seq<char>, Binding<ValueView>>>;

/// A scope chain as the specification sees it.
pub open spec fn vchain(c: Seq<Map<Seq<char>, Binding<Value>>>) -> VChain {
    c.map_values(|m: Map<Seq<char>, Binding<Value>>| scope_view(m))
}

proof fn lemma_vchain_lookup(c: Seq<Map<Seq<char>, Binding<Value>>>, n: Seq<char>)
    ensures
        chain_lookup(vchain(c), n) == match chain_lookup(c, n) {
            Some(b) => Some(bview(b)),
            None => None::<Binding<ValueView>>,
        },
        chain_nearest(vchain(c), n) == chain_nearest(c, n),
    decreases c.len(),
{
    if c.len() > 0 {
        assert(vchain(c).drop_last() =~= vchain(c.drop_last()));
        assert(vchain(c).last() == scope_view(c.last()));
        lemma_vchain_lookup(c.drop_last(), n);
    }
}

proof fn lemma_vchain_define(c: Seq<Map<Seq<char>, Binding<Value>>>, n: Seq<char>, b: Binding<Value>)
    requires
        c.len() >= 1,
    ensures
        vchain(chain_define(c, n, b)) == chain_define(vchain(c), n, bview(b)),
{
    assert(scope_view(c.last().insert(n, b)) =~= scope_view(c.last()).insert(n, bview(b)));
    assert(vchain(chain_define(c, n, b)) =~= chain_define(vchain(c), n, bview(b)));
}

proof fn lemma_vchain_update(c: Seq<Map<Seq<char>, Binding<Value>>>, k: int, n: Seq<char>, b: Binding<Value>)
    requires
        0 <= k < c.len(),
    ensures
        vchain(c.update(k, c[k].insert(n, b))) == vchain(c).update(k, vchain(c)[k].insert(n, bview(b))),
        vchain(c)[k].contains_key(n) == c[k].contains_key(n),
        c[k].contains_key(n) ==> vchain(c)[k][n].mutable == c[k][n].mutable,
{
    assert(scope_view(c[k].insert(n, b)) =~= scope_view(c[k]).insert(n, bview(b)));
    assert(vchain(c.update(k, c[k].insert(n, b))) =~= vchain(c).update(k, vchain(c)[k].insert(n, bview(b))));
}

/// The name of a value's type, for diagnostics.
pub open spec fn type_name_text(v: ValueView) -> Seq<char> {
    match v {
        ValueView::Int(_) => "int"@,
        ValueView::Bool(_) => "bool"@,
        ValueView::Str(_) => "string"@,
        ValueView::Unit => "unit"@,
        ValueView::Poison => "poison"@,
    }
}

fn kind_name(v: &Value) -> (r: &'static str)
    ensures
        r@ == type_name_text(vview(*v)),
{
    match v {
        Value::Int(_) => "int",
        Value::Bool(_) => "bool",
        Value::Str(_) => "string",
        Value::Unit => "unit",
        Value::Poison => "poison",
    }
}

/// What evaluation reads and changes of the evaluator: its diagnostics,
/// steps, abort flag and call stack.
pub struct EvalState {
    pub diags: Seq<(Level, Seq<char>, Span)>,
    pub steps: u64,
    pub aborted: bool,
    pub stack: Seq<Seq<char>>,
    pub defs: Seq<(Seq<char>, i128)>,
}

/// The evaluation state of an evaluator.
pub open spec fn state_of(ev: Evaluator) -> EvalState {
    EvalState {
        diags: diags_view(ev.diags@),
        steps: ev.steps,
        aborted: ev.aborted,
        stack: stack_names(ev.call_stack@),
        defs: defines_view(ev.defines@),
    }
}

/// The state with one more error.
pub open spec fn with_error(st: EvalState, span: Span, msg: Seq<char>) -> EvalState {
    EvalState { diags: st.diags.push((Level::Error, msg, span)), steps: st.steps, aborted: st.aborted, stack: st.stack, defs: st.defs }
}

/// The state after charging a step (on a state not yet aborted): past the
/// budget, evaluation aborts with `step budget exceeded` naming the call
/// chain.
pub open spec fn charged(st: EvalState, span: Span) -> EvalState {
    if st.steps + 1 <= STEP_BUDGET {
        EvalState { diags: st.diags, steps: (st.steps + 1) as u64, aborted: st.aborted, stack: st.stack, defs: st.defs }
    } else {
        EvalState {
            diags: st.diags.push((Level::Error, abort_message("step budget exceeded"@, st.stack), span)),
            steps: (st.steps + 1) as u64,
            aborted: true,
            stack: st.stack,
            defs: st.defs,
        }
    }
}

/// The evaluator's state is one evaluation can start from.
pub open spec fn state_ok(st: EvalState) -> bool {
    st.aborted || st.steps <= STEP_BUDGET
}

/// An expression this core evaluates: no calls, only single-segment paths.
pub open spec fn core_expr(e: Expr) -> bool
    decreases e,
{
    match e {
        Expr::Path(p) => p.segments@.len() == 1,
        Expr::Int(_, _) => true,
        Expr::Str(_, _) => true,
        Expr::Unary { operand, .. } => core_expr(*operand),
        Expr::Binary { lhs, rhs, .. } => core_expr(*lhs) && core_expr(*rhs),
        Expr::Call { .. } => false,
    }
}

/// `unknown name `n``.
pub open spec fn unknown_name_msg(n: Seq<char>) -> Seq<char> {
    "unknown name `"@ + n + "`"@
}

/// `` `op` not defined for <type> ``.
pub open spec fn operand_type_msg(sym: Seq<char>, v: ValueView) -> Seq<char> {
    "`"@ + sym + "` not defined for "@ + type_name_text(v)
}

/// `` `op` not defined for <type> and <type> ``.
pub open spec fn binop_type_msg(sym: Seq<char>, l: ValueView, r: ValueView) -> Seq<char> {
    "`"@ + sym + "` not defined for "@ + type_name_text(l) + " and "@ + type_name_text(r)
}

/// A single-segment path: the keywords `true`, `false` and `none` (unit),
/// else the nearest binding in the scope chain, else a `-D` define, else
/// `unknown name`.
pub open spec fn path_spec(st: EvalState, chain: VChain, p: Path) -> (ValueView, EvalState) {
    let n = p.segments@[0]@;
    if n == "true"@ {
        (ValueView::Bool(true), st)
    } else if n == "false"@ {
        (ValueView::Bool(false), st)
    } else if n == "none"@ {
        (ValueView::Unit, st)
    } else {
        match chain_lookup(chain, n) {
            Some(b) => (b.value, st),
            None => match define_value(st.defs, n) {
                Some(v) => (ValueView::Int(v), st),
                None => (ValueView::Poison, with_error(st, p.span, unknown_name_msg(n))),
            },
        }
    }
}

/// A unary operator on an evaluated operand.
pub open spec fn unary_spec(st: EvalState, op: UnOp, v: ValueView, span: Span) -> (ValueView, EvalState) {
    match v {
        ValueView::Poison => (ValueView::Poison, st),
        _ => match op {
            UnOp::Neg => match v {
                ValueView::Int(n) => if n == i128::MIN {
                    (ValueView::Poison, with_error(st, span, int_op_error_text(IntOpError::Overflow(BinOp::Sub))))
                } else {
                    (ValueView::Int((-n) as i128), st)
                },
                _ => (ValueView::Poison, with_error(st, span, operand_type_msg("-"@, v))),
            },
            UnOp::Not => match v {
                ValueView::Bool(b) => (ValueView::Bool(!b), st),
                _ => (ValueView::Poison, with_error(st, span, operand_type_msg("!"@, v))),
            },
            UnOp::BitNot => match v {
                ValueView::Int(n) => (ValueView::Int(!n), st),
                _ => (ValueView::Poison, with_error(st, span, operand_type_msg("~"@, v))),
            },
        },
    }
}

/// `a` sorts before `b`, character by character (a proper prefix first).
pub open spec fn str_lt(a: Seq<char>, b: Seq<char>) -> bool
    decreases a.len(),
{
    if a.len() == 0 {
        b.len() > 0
    } else if b.len() == 0 {
        false
    } else if a[0] != b[0] {
        (a[0] as u32) < (b[0] as u32)
    } else {
        str_lt(a.drop_first(), b.drop_first())
    }
}

/// `i` is where `a` and `b` part in `a`'s favour: they agree on every
/// character before `i`, and there `a` either ends while `b` goes on or
/// holds the smaller character.
pub open spec fn parts_before_at(a: Seq<char>, b: Seq<char>, i: int) -> bool {
    &&& 0 <= i <= a.len()
    &&& i <= b.len()
    &&& forall|k: int| 0 <= k < i ==> a[k] == b[k]
    &&& ((i == a.len() && i < b.len()) || (i < a.len() && i < b.len() && (a[i] as u32) < (b[i] as u32)))
}

/// Lexicographic order on strings: `a` comes before `b` when they part at
/// some position in `a`'s favour.
pub open spec fn lex_before(a: Seq<char>, b: Seq<char>) -> bool {
    exists|i: int| #[trigger] parts_before_at(a, b, i)
}

proof fn lemma_str_lt_is_lex(a: Seq<char>, b: Seq<char>)
    ensures
        str_lt(a, b) == lex_before(a, b),
    decreases a.len(),
{
    if a.len() == 0 {
        if b.len() > 0 {
            assert(parts_before_at(a, b, 0));
        }
    } else if b.len() == 0 {
        assert forall|i: int| !#[trigger] parts_before_at(a, b, i) by {}
    } else if a[0] != b[0] {
        if (a[0] as u32) < (b[0] as u32) {
            assert(parts_before_at(a, b, 0));
        }
        assert forall|i: int| #[trigger] parts_before_at(a, b, i) implies i == 0 by {
            if i > 0 {
                assert(a[0] == b[0]);
            }
        }
    } else {
        let a1 = a.drop_first();
        let b1 = b.drop_first();
        lemma_str_lt_is_lex(a1, b1);
        if lex_before(a1, b1) {
            let j = choose|j: int| parts_before_at(a1, b1, j);
            assert forall|k: int| 0 <= k < j + 1 implies a[k] == b[k] by {
                if k > 0 {
                    assert(a[k] == a1[k - 1]);
                    assert(b[k] == b1[k - 1]);
                }
            }
            assert(parts_before_at(a, b, j + 1));
        }
        if lex_before(a, b) {
            let i = choose|i: int| parts_before_at(a, b, i);
            assert(i > 0);
            assert forall|k: int| 0 <= k < i - 1 implies a1[k] == b1[k] by {
                assert(a[k + 1] == b[k + 1]);
            }
            assert(parts_before_at(a1, b1, i - 1));
        }
    }
}

/// The string order is a strict total order: no string comes before
/// itself, of two strings at most one comes before the other, and of two
/// different strings exactly one does.
pub proof fn law_string_order_is_strict_total(a: Seq<char>, b: Seq<char>)
    ensures
        !lex_before(a, a),
        !(lex_before(a, b) && lex_before(b, a)),
        a != b ==> lex_before(a, b) || lex_before(b, a),
    decreases a.len(),
{
    assert forall|i: int| !#[trigger] parts_before_at(a, a, i) by {}
    if lex_before(a, b) && lex_before(b, a) {
        let i = choose|i: int| parts_before_at(a, b, i);
        let j = choose|j: int| parts_before_at(b, a, j);
        if i < j {
            assert(a[i] == b[i]);
        } else if j < i {
            assert(b[j] == a[j]);
        }
    }
    if a != b {
        lemma_str_lt_is_lex(a, b);
        lemma_str_lt_is_lex(b, a);
        if a.len() > 0 && b.len() > 0 && a[0] == b[0] {
            let a1 = a.drop_first();
            let b1 = b.drop_first();
            if a1 == b1 {
                assert(a1.len() == b1.len());
                assert(a.len() == b.len());
                assert(a =~= b) by {
                    assert forall|k: int| 0 <= k < a.len() implies a[k] == b[k] by {
                        if k > 0 {
                            assert(a[k] == a1[k - 1]);
                            assert(b[k] == b1[k - 1]);
                        }
                    }
                }
            }
            law_string_order_is_strict_total(a1, b1);
            lemma_str_lt_is_lex(a1, b1);
            lemma_str_lt_is_lex(b1, a1);
        } else if a.len() > 0 && b.len() > 0 {
            vstd::utf8::char_u32_cast(a[0], a[0] as u32);
            vstd::utf8::char_u32_cast(b[0], b[0] as u32);
            assert((a[0] as u32) != (b[0] as u32));
        } else if a.len() == 0 && b.len() == 0 {
            assert(a =~= b);
        }
    }
}

/// An ordering operator from the strict order in both directions.
pub open spec fn order_result(op: BinOp, lt: bool, gt: bool) -> bool {
    match op {
        BinOp::Lt => lt,
        BinOp::Le => !gt,
        BinOp::Gt => gt,
        _ => !lt,
    }
}

/// A binary operator other than `&&`/`||` on two evaluated, non-poisoned
/// operands: integer arithmetic, bitwise operators and shifts on two
/// integers (see [`int_binop_spec`]); `==`/`!=` structurally on any two
/// values; ordering on two integers or two strings; `++` on two strings.
/// Anything else is a type error.
pub open spec fn binary_spec(st: EvalState, op: BinOp, l: ValueView, r: ValueView, span: Span) -> (ValueView, EvalState) {
    if op == BinOp::Eq {
        (ValueView::Bool(l == r), st)
    } else if op == BinOp::Ne {
        (ValueView::Bool(l != r), st)
    } else {
        match (l, r) {
            (ValueView::Int(a), ValueView::Int(b)) => if op == BinOp::Concat {
                (ValueView::Poison, with_error(st, span, binop_type_msg(binop_text(op), l, r)))
            } else {
                match int_binop_spec(op, a, b) {
                    Ok(IntValue::Int(v)) => (ValueView::Int(v), st),
                    Ok(IntValue::Bool(v)) => (ValueView::Bool(v), st),
                    Err(e) => (ValueView::Poison, with_error(st, span, int_op_error_text(e))),
                }
            },
            (ValueView::Str(a), ValueView::Str(b)) => if op == BinOp::Concat {
                (ValueView::Str(a + b), st)
            } else if op == BinOp::Lt || op == BinOp::Le || op == BinOp::Gt || op == BinOp::Ge {
                (ValueView::Bool(order_result(op, str_lt(a, b), str_lt(b, a))), st)
            } else {
                (ValueView::Poison, with_error(st, span, binop_type_msg(binop_text(op), l, r)))
            },
            _ => (ValueView::Poison, with_error(st, span, binop_type_msg(binop_text(op), l, r))),
        }
    }
}

/// Evaluate `e` in the scope chain (see the module documentation).
/// `&&`/`||` short-circuit: the right operand is evaluated only when the
/// left one does not decide, and both must be booleans.
pub open spec fn eval_spec(st: EvalState, chain: VChain, e: Expr) -> (ValueView, EvalState)
    decreases e,
{
    if st.aborted {
        (ValueView::Poison, st)
    } else {
        let s1 = charged(st, crate::ast::expr_span_of(e));
        if s1.aborted {
            (ValueView::Poison, s1)
        } else {
            match e {
                Expr::Int(n, _) => (ValueView::Int(n as i128), s1),
                Expr::Str(t, _) => (ValueView::Str(t@), s1),
                Expr::Path(p) => path_spec(s1, chain, p),
                Expr::Unary { op, operand, span } => {
                    let (v, s2) = eval_spec(s1, chain, *operand);
                    unary_spec(s2, op, v, span)
                },
                Expr::Binary { op, lhs, rhs, span } => {
                    let (l, s2) = eval_spec(s1, chain, *lhs);
                    if op == BinOp::And || op == BinOp::Or {
                        match l {
                            ValueView::Poison => (ValueView::Poison, s2),
                            ValueView::Bool(lb) => if (op == BinOp::And && !lb) || (op == BinOp::Or && lb) {
                                (ValueView::Bool(lb), s2)
                            } else {
                                let (r, s3) = eval_spec(s2, chain, *rhs);
                                match r {
                                    ValueView::Poison => (ValueView::Poison, s3),
                                    ValueView::Bool(rb) => (ValueView::Bool(rb), s3),
                                    _ => (ValueView::Poison, with_error(s3, span, operand_type_msg(binop_text(op), r))),
                                }
                            },
                            _ => (ValueView::Poison, with_error(s2, span, operand_type_msg(binop_text(op), l))),
                        }
                    } else {
                        let (r, s3) = eval_spec(s2, chain, *rhs);
                        if l is Poison || r is Poison {
                            (ValueView::Poison, s3)
                        } else {
                            binary_spec(s3, op, l, r, span)
                        }
                    }
                },
                Expr::Call { .. } => (ValueView::Poison, s1),
            }
        }
    }
}

fn error_at(ev: &mut Evaluator, span: Span, msg: &str)
    ensures
        state_of(*final(ev)) == with_error(state_of(*old(ev)), span, msg@),
{
    ev.error(span, msg);
}

fn unary_type_error(ev: &mut Evaluator, sym: &str, v: &Value, span: Span) -> (r: Value)
    ensures
        state_of(*final(ev)) == with_error(state_of(*old(ev)), span, "`"@ + sym@ + "` not defined for "@ + type_name_text(vview(*v))),
        r is Poison,
{
    let mut m = String::from_str("`");
    m.append(sym);
    m.append("` not defined for ");
    m.append(kind_name(v));
    error_at(ev, span, m.as_str());
    Value::Poison
}

fn binop_type_error(ev: &mut Evaluator, op: BinOp, l: &Value, r: &Value, span: Span) -> (res: Value)
    ensures
        state_of(*final(ev)) == with_error(state_of(*old(ev)), span, binop_type_msg(binop_text(op), vview(*l), vview(*r))),
        res is Poison,
{
    let mut m = String::from_str("`");
    m.append(binop_symbol(op));
    m.append("` not defined for ");
    m.append(kind_name(l));
    m.append(" and ");
    m.append(kind_name(r));
    error_at(ev, span, m.as_str());
    Value::Poison
}

fn eval_unary(ev: &mut Evaluator, op: UnOp, v: Value, span: Span) -> (r: Value)
    ensures
        (vview(r), state_of(*final(ev))) == unary_spec(state_of(*old(ev)), op, vview(v), span),
        final(ev).steps == old(ev).steps,
        final(ev).aborted == old(ev).aborted,
{
    if let Value::Poison = v {
        return Value::Poison;
    }
    match op {
        UnOp::Neg => match v {
            Value::Int(n) => {
                if n == i128::MIN {
                    let m = int_op_error_message(IntOpError::Overflow(BinOp::Sub));
                    error_at(ev, span, m.as_str());
                    Value::Poison
                } else {
                    Value::Int(-n)
                }
            },
            _ => unary_type_error(ev, "-", &v, span),
        },
        UnOp::Not => match v {
            Value::Bool(b) => Value::Bool(!b),
            _ => unary_type_error(ev, "!", &v, span),
        },
        UnOp::BitNot => match v {
            Value::Int(n) => Value::Int(!n),
            _ => unary_type_error(ev, "~", &v, span),
        },
    }
}

fn str_less(a: &str, b: &str) -> (r: bool)
    ensures
        r == str_lt(a@, b@),
{
    let x = chars_of(a);
    let y = chars_of(b);
    let mut i: usize = 0;
    assert(a@.subrange(0, a@.len() as int) =~= a@);
    assert(b@.subrange(0, b@.len() as int) =~= b@);
    while i < x.len() && i < y.len() && x[i] == y[i]
        invariant
            i <= x@.len(),
            i <= y@.len(),
            x@ == a@,
            y@ == b@,
            str_lt(a@, b@) == str_lt(a@.subrange(i as int, a@.len() as int), b@.subrange(i as int, b@.len() as int)),
        decreases x@.len() - i,
    {
        let ghost sa = a@.subrange(i as int, a@.len() as int);
        let ghost sb = b@.subrange(i as int, b@.len() as int);
        assert(sa.drop_first() =~= a@.subrange(i + 1, a@.len() as int));
        assert(sb.drop_first() =~= b@.subrange(i + 1, b@.len() as int));
        i = i + 1;
    }
    let ghost sa = a@.subrange(i as int, a@.len() as int);
    let ghost sb = b@.subrange(i as int, b@.len() as int);
    if i == x.len() {
        assert(sa.len() == 0);
        i < y.len()
    } else if i == y.len() {
        false
    } else {
        assert(sa[0] == x@[i as int] && sb[0] == y@[i as int]);
        (x[i] as u32) < (y[i] as u32)
    }
}

fn values_equal(l: &Value, r: &Value) -> (b: bool)
    ensures
        b == (vview(*l) == vview(*r)),
{
    match (l, r) {
        (Value::Int(a), Value::Int(b)) => *a == *b,
        (Value::Bool(a), Value::Bool(b)) => *a == *b,
        (Value::Str(a), Value::Str(b)) => str_eq(a.as_str(), b.as_str()),
        (Value::Unit, Value::Unit) => true,
        (Value::Poison, Value::Poison) => true,
        _ => false,
    }
}

fn eval_binary_values(ev: &mut Evaluator, op: BinOp, l: Value, r: Value, span: Span) -> (res: Value)
    requires
        !(vview(l) is Poison),
        !(vview(r) is Poison),
        op != BinOp::And,
        op != BinOp::Or,
    ensures
        (vview(res), state_of(*final(ev))) == binary_spec(state_of(*old(ev)), op, vview(l), vview(r), span),
        final(ev).steps == old(ev).steps,
        final(ev).aborted == old(ev).aborted,
{
    if op == BinOp::Eq {
        return Value::Bool(values_equal(&l, &r));
    }
    if op == BinOp::Ne {
        return Value::Bool(!values_equal(&l, &r));
    }
    match (&l, &r) {
        (Value::Int(a), Value::Int(b)) => {
            if op == BinOp::Concat {
                return binop_type_error(ev, op, &l, &r, span);
            }
            match int_binop(op, *a, *b) {
                Ok(IntValue::Int(v)) => Value::Int(v),
                Ok(IntValue::Bool(v)) => Value::Bool(v),
                Err(e) => {
                    assert(!(e is NotDefined));
                    let m = int_op_error_message(e);
                    error_at(ev, span, m.as_str());
                    Value::Poison
                },
            }
        },
        (Value::Str(a), Value::Str(b)) => {
            if op == BinOp::Concat {
                let mut s = String::from_str(a.as_str());
                s.append(b.as_str());
                Value::Str(s)
            } else if op == BinOp::Lt || op == BinOp::Le || op == BinOp::Gt || op == BinOp::Ge {
                let lt = str_less(a.as_str(), b.as_str());
                let gt = str_less(b.as_str(), a.as_str());
                let res = match op {
                    BinOp::Lt => lt,
                    BinOp::Le => !gt,
                    BinOp::Gt => gt,
                    _ => !lt,
                };
                Value::Bool(res)
            } else {
                binop_type_error(ev, op, &l, &r, span)
            }
        },
        _ => binop_type_error(ev, op, &l, &r, span),
    }
}

/// Charge one step for evaluating at `span`; `false` (and the abort) past
/// the budget.
fn charge(ev: &mut Evaluator, span: Span) -> (ok: bool)
    requires
        !old(ev).aborted,
        old(ev).steps <= STEP_BUDGET,
    ensures
        state_of(*final(ev)) == charged(state_of(*old(ev)), span),
        ok == !final(ev).aborted,
        final(ev).steps == old(ev).steps + 1,
{
    if !ev.bump_step() {
        ev.abort(span, "step budget exceeded");
        return false;
    }
    true
}

/// Evaluate an expression (see [`eval_spec`]). The evaluator's state must
/// be one evaluation can start from: aborted, or within the step budget.
#[verifier::spinoff_prover]
#[verifier::rlimit(40)]
pub fn eval_expr(ev: &mut Evaluator, e: &Expr, env: &Env<Value>) -> (r: Value)
    requires
        core_expr(*e),
        state_ok(state_of(*old(ev))),
    ensures
        (vview(r), state_of(*final(ev))) == eval_spec(state_of(*old(ev)), vchain(env@), *e),
        state_ok(state_of(*final(ev))),
        final(ev).steps >= old(ev).steps,
    decreases e,
{
    if ev.aborted {
        return Value::Poison;
    }
    if !charge(ev, crate::ast::expr_span(e)) {
        return Value::Poison;
    }
    match e {
        Expr::Int(n, _) => Value::Int(*n as i128),
        Expr::Str(t, _) => Value::Str(t.clone()),
        Expr::Path(p) => {
            let n = p.segments[0].as_str();
            if str_eq(n, "true") {
                Value::Bool(true)
            } else if str_eq(n, "false") {
                Value::Bool(false)
            } else if str_eq(n, "none") {
                Value::Unit
            } else {
                proof {
                    lemma_vchain_lookup(env@, n@);
                }
                match env.lookup(n) {
                    Some(v) => copy_value(v),
                    None => match lookup_define(ev.defines.as_slice(), n) {
                        Some(d) => Value::Int(d),
                        None => {
                        let mut m = String::from_str("unknown name `");
                        m.append(n);
                        m.append("`");
                        error_at(ev, p.span, m.as_str());
                        Value::Poison
                        },
                    },
                }
            }
        },
        Expr::Unary { op, operand, span } => {
            let v = eval_expr(ev, operand, env);
            eval_unary(ev, *op, v, *span)
        },
        Expr::Binary { op, lhs, rhs, span } => {
            let l = eval_expr(ev, lhs, env);
            if *op == BinOp::And || *op == BinOp::Or {
                match l {
                    Value::Poison => Value::Poison,
                    Value::Bool(lb) => {
                        if (*op == BinOp::And && !lb) || (*op == BinOp::Or && lb) {
                            Value::Bool(lb)
                        } else {
                            let r = eval_expr(ev, rhs, env);
                            match r {
                                Value::Poison => Value::Poison,
                                Value::Bool(rb) => Value::Bool(rb),
                                _ => unary_type_error(ev, binop_symbol(*op), &r, *span),
                            }
                        }
                    },
                    _ => unary_type_error(ev, binop_symbol(*op), &l, *span),
                }
            } else {
                let r = eval_expr(ev, rhs, env);
                if let Value::Poison = l {
                    return Value::Poison;
                }
                if let Value::Poison = r {
                    return Value::Poison;
                }
                eval_binary_values(ev, *op, l, r, *span)
            }
        },
        Expr::Call { .. } => Value::Poison,
    }
}

// ---------------------------------------------------------------------------
// Statements.
// ---------------------------------------------------------------------------

/// How a statement list ended: by falling off its end with a trailing value
/// (the last statement's value when it is an expression, else unit), or by
/// `return`.
#[derive(Debug)]
pub enum Flow {
    Normal(Value),
    Return(Value),
}

/// A flow as the specification sees it.
pub enum FlowView {
    Normal(ValueView),
    Return(ValueView),
}

/// The plain view of a flow.
pub open spec fn flow_view(f: Flow) -> FlowView {
    match f {
        Flow::Normal(v) => FlowView::Normal(vview(v)),
        Flow::Return(v) => FlowView::Return(vview(v)),
    }
}

/// A statement this core executes: its expressions are core expressions.
pub open spec fn core_stmt(s: Stmt) -> bool {
    match s {
        Stmt::Let { value, .. } => core_expr(value),
        Stmt::Var { value, .. } => core_expr(value),
        Stmt::Assign { value, .. } => core_expr(value),
        Stmt::Expr(e) => core_expr(e),
        Stmt::Return { value, .. } => match value {
            Some(e) => core_expr(e),
            None => true,
        },
        Stmt::If { cond, .. } => core_expr(cond),
        Stmt::While { cond, .. } => core_expr(cond),
        Stmt::ComptimeBlock { .. } => true,
    }
}

/// A statement, and every statement nested in its blocks, is a core
/// statement.
pub open spec fn deep_core(s: Stmt) -> bool
    decreases s,
{
    core_stmt(s) && match s {
        Stmt::If { then, els, .. } => {
            &&& forall|k: int| 0 <= k < then@.len() ==> deep_core(#[trigger] then@[k])
            &&& match els {
                Some(e) => forall|k: int| 0 <= k < e@.len() ==> deep_core(#[trigger] e@[k]),
                None => true,
            }
        },
        Stmt::While { body, .. } => forall|k: int| 0 <= k < body@.len() ==> deep_core(#[trigger] body@[k]),
        Stmt::ComptimeBlock { body, .. } => forall|k: int| 0 <= k < body@.len() ==> deep_core(#[trigger] body@[k]),
        _ => true,
    }
}

/// The report of a non-boolean `if` condition.
pub open spec fn if_cond_msg(v: ValueView) -> Seq<char> {
    "if condition must be bool, got "@ + type_name_text(v)
}

/// The report of a non-boolean `while` condition.
pub open spec fn while_cond_msg(v: ValueView) -> Seq<char> {
    "while condition must be bool, got "@ + type_name_text(v)
}

/// The steps a loop can still take before the budget stops it.
pub open spec fn loop_fuel(st: EvalState) -> nat {
    if st.steps <= STEP_BUDGET {
        (STEP_BUDGET + 1 - st.steps) as nat
    } else {
        0
    }
}

/// Run the `while` statement `w` (with `fuel` iterations to spare): each
/// iteration charges a step, evaluates the condition and, while it is
/// `true`, runs the body in a fresh nested scope; `false` or a poisoned
/// condition ends the loop, any other condition is reported and ends it; a
/// `return` in the body ends it with that return.
pub open spec fn while_spec(st: EvalState, chain: VChain, w: Stmt, comptime: bool, fuel: nat) -> (FlowView, EvalState, VChain)
    decreases w, fuel,
{
    match w {
        Stmt::While { cond, body, span } => if st.aborted || fuel == 0 {
            (FlowView::Normal(ValueView::Poison), st, chain)
        } else {
            let s1 = charged(st, span);
            if s1.aborted {
                (FlowView::Normal(ValueView::Poison), s1, chain)
            } else {
                let (c, s2) = eval_spec(s1, chain, cond);
                match c {
                    ValueView::Bool(true) => {
                        proof {
                            assert(decreases_to!(w => body));
                            assert(decreases_to!(body => body@));
                        }
                        let (f, s3, c3) = exec_spec(s2, chain.push(Map::empty()), body@, 0, ValueView::Unit, comptime);
                        let c4 = if c3.len() > 1 {
                            c3.drop_last()
                        } else {
                            c3
                        };
                        match f {
                            FlowView::Return(v) => (FlowView::Return(v), s3, c4),
                            FlowView::Normal(_) => while_spec(s3, c4, w, comptime, (fuel - 1) as nat),
                        }
                    },
                    ValueView::Bool(false) => (FlowView::Normal(ValueView::Unit), s2, chain),
                    ValueView::Poison => (FlowView::Normal(ValueView::Unit), s2, chain),
                    _ => (
                        FlowView::Normal(ValueView::Unit),
                        with_error(s2, crate::ast::expr_span_of(cond), while_cond_msg(c)),
                        chain,
                    ),
                }
            }
        },
        _ => (FlowView::Normal(ValueView::Unit), st, chain),
    }
}

/// The report of a `comptime var` outside a comptime-mutable context.
pub open spec fn var_outside_msg() -> Seq<char> {
    "comptime var is only allowed inside a comptime block or comptime fn body"@
}

/// Execute statements `i..` of a list (`last` the trailing value so far;
/// `comptime` whether this is a comptime-mutable context):
/// - once evaluation has aborted, the list yields poison;
/// - `let` binds immutably, `comptime var` mutably (reporting it outside a
///   comptime context, yet still binding it, so later uses do not cascade);
/// - an assignment replaces the nearest mutable binding, an unbound or
///   immutable name being reported;
/// - an expression statement's value becomes the trailing value; every other
///   statement resets it to unit;
/// - `return` ends the list with its value (unit when bare);
/// - `if` runs its chosen block, `while` its loop (see [`while_spec`]), and
///   a `comptime { .. }` block its body, each in a fresh nested scope (a
///   comptime block as a comptime-mutable context); a `return` inside ends
///   the list too.
pub open spec fn exec_spec(st: EvalState, chain: VChain, stmts: Seq<Stmt>, i: int, last: ValueView, comptime: bool) -> (
    FlowView,
    EvalState,
    VChain,
)
    decreases stmts, stmts.len() - i,
{
    if st.aborted && (i <= 0 || i < stmts.len()) {
        (FlowView::Normal(ValueView::Poison), st, chain)
    } else if i < 0 || i >= stmts.len() {
        (FlowView::Normal(last), st, chain)
    } else {
        match stmts[i] {
            Stmt::Let { name, value, .. } => {
                let (v, s1) = eval_spec(st, chain, value);
                exec_spec(s1, chain_define(chain, name@, Binding { value: v, mutable: false }), stmts, i + 1, ValueView::Unit, comptime)
            },
            Stmt::Var { name, value, span } => {
                let (v, s1) = eval_spec(st, chain, value);
                let s2 = if comptime {
                    s1
                } else {
                    with_error(s1, span, var_outside_msg())
                };
                exec_spec(s2, chain_define(chain, name@, Binding { value: v, mutable: true }), stmts, i + 1, ValueView::Unit, comptime)
            },
            Stmt::Assign { name, value, span } => {
                let (v, s1) = eval_spec(st, chain, value);
                match chain_nearest(chain, name@) {
                    None => exec_spec(
                        with_error(s1, span, crate::eval::env::assign_error_text(name@, AssignError::NotFound)),
                        chain,
                        stmts,
                        i + 1,
                        ValueView::Unit,
                        comptime,
                    ),
                    Some(k) => if chain[k][name@].mutable {
                        exec_spec(
                            s1,
                            chain.update(k, chain[k].insert(name@, Binding { value: v, mutable: true })),
                            stmts,
                            i + 1,
                            ValueView::Unit,
                            comptime,
                        )
                    } else {
                        exec_spec(
                            with_error(s1, span, crate::eval::env::assign_error_text(name@, AssignError::Immutable)),
                            chain,
                            stmts,
                            i + 1,
                            ValueView::Unit,
                            comptime,
                        )
                    },
                }
            },
            Stmt::Expr(e) => {
                let (v, s1) = eval_spec(st, chain, e);
                exec_spec(s1, chain, stmts, i + 1, v, comptime)
            },
            Stmt::Return { value, .. } => match value {
                Some(e) => {
                    let (v, s1) = eval_spec(st, chain, e);
                    (FlowView::Return(v), s1, chain)
                },
                None => (FlowView::Return(ValueView::Unit), st, chain),
            },
            Stmt::If { cond, then, els, .. } => {
                let (c, s1) = eval_spec(st, chain, cond);
                proof {
                    assert(decreases_to!(stmts => stmts[i]));
                    assert(decreases_to!(stmts[i] => then));
                    assert(decreases_to!(then => then@));
                }
                let (f, s2, c2) = match c {
                    ValueView::Poison => (FlowView::Normal(ValueView::Poison), s1, chain),
                    ValueView::Bool(b) => {
                        let block: Option<Seq<Stmt>> = if b {
                            Some(then@)
                        } else {
                            match els {
                                Some(e) => Some(e@),
                                None => None,
                            }
                        };
                        match block {
                            Some(blk) => {
                                proof {
                                    if !b {
                                        let e = els->Some_0;
                                        assert(decreases_to!(stmts[i] => els));
                                        assert(decreases_to!(els => e));
                                        assert(decreases_to!(e => e@));
                                    }
                                }
                                let (f1, s3, c3) = exec_spec(s1, chain.push(Map::empty()), blk, 0, ValueView::Unit, comptime);
                                (f1, s3, if c3.len() > 1 {
                                    c3.drop_last()
                                } else {
                                    c3
                                })
                            },
                            None => (FlowView::Normal(ValueView::Unit), s1, chain),
                        }
                    },
                    _ => (
                        FlowView::Normal(ValueView::Poison),
                        with_error(s1, crate::ast::expr_span_of(cond), if_cond_msg(c)),
                        chain,
                    ),
                };
                match f {
                    FlowView::Return(v) => (FlowView::Return(v), s2, c2),
                    FlowView::Normal(_) => exec_spec(s2, c2, stmts, i + 1, ValueView::Unit, comptime),
                }
            },
            Stmt::ComptimeBlock { body, .. } => {
                proof {
                    assert(decreases_to!(stmts => stmts[i]));
                    assert(decreases_to!(stmts[i] => body));
                    assert(decreases_to!(body => body@));
                }
                let (f, s2, c2) = exec_spec(st, chain.push(Map::empty()), body@, 0, ValueView::Unit, true);
                let c3 = if c2.len() > 1 {
                    c2.drop_last()
                } else {
                    c2
                };
                match f {
                    FlowView::Return(v) => (FlowView::Return(v), s2, c3),
                    FlowView::Normal(_) => exec_spec(s2, c3, stmts, i + 1, ValueView::Unit, comptime),
                }
            },
            Stmt::While { .. } => {
                proof {
                    assert(decreases_to!(stmts => stmts[i]));
                }
                let (f, s2, c2) = while_spec(st, chain, stmts[i], comptime, loop_fuel(st));
                match f {
                    FlowView::Return(v) => (FlowView::Return(v), s2, c2),
                    FlowView::Normal(_) => exec_spec(s2, c2, stmts, i + 1, ValueView::Unit, comptime),
                }
            },
        }
    }
}

/// Execute a statement list in the current scope of `env` (see
/// [`exec_spec`]); `comptime` says whether it is a comptime-mutable context
/// (a comptime block or fn body).
#[verifier::spinoff_prover]
#[verifier::rlimit(60)]
pub fn exec_stmts(ev: &mut Evaluator, stmts: &[Stmt], env: &mut Env<Value>, comptime: bool) -> (r: Flow)
    requires
        forall|k: int| 0 <= k < stmts@.len() ==> deep_core(#[trigger] stmts@[k]),
        state_ok(state_of(*old(ev))),
    ensures
        (flow_view(r), state_of(*final(ev)), vchain(final(env)@)) == exec_spec(
            state_of(*old(ev)),
            vchain(old(env)@),
            stmts@,
            0,
            ValueView::Unit,
            comptime,
        ),
        state_ok(state_of(*final(ev))),
        final(ev).steps >= old(ev).steps,
    decreases stmts@, 1int,
{
    if ev.aborted {
        return Flow::Normal(Value::Poison);
    }
    let ghost goal = exec_spec(state_of(*ev), vchain(env@), stmts@, 0, ValueView::Unit, comptime);
    let mut last = Value::Unit;
    let mut i: usize = 0;
    while i < stmts.len()
        invariant
            i <= stmts@.len(),
            forall|k: int| 0 <= k < stmts@.len() ==> deep_core(#[trigger] stmts@[k]),
            state_ok(state_of(*ev)),
            i == 0 ==> !ev.aborted,
            ev.steps >= old(ev).steps,
            goal == exec_spec(state_of(*old(ev)), vchain(old(env)@), stmts@, 0, ValueView::Unit, comptime),
            goal == exec_spec(state_of(*ev), vchain(env@), stmts@, i as int, vview(last), comptime),
        decreases stmts@.len() - i,
    {
        if ev.aborted {
            return Flow::Normal(Value::Poison);
        }
        let ghost c = env@;
        proof {
            lemma_vchain_lookup(c, Seq::empty());
        }
        match &stmts[i] {
            Stmt::Let { name, value, .. } => {
                let v = eval_expr(ev, value, env);
                let ghost b = Binding { value: v, mutable: false };
                env.define(name.as_str(), v, false);
                proof {
                    lemma_vchain_define(c, name@, b);
                }
                last = Value::Unit;
            },
            Stmt::Var { name, value, span } => {
                let v = eval_expr(ev, value, env);
                if !comptime {
                    error_at(ev, *span, "comptime var is only allowed inside a comptime block or comptime fn body");
                }
                let ghost b = Binding { value: v, mutable: true };
                env.define(name.as_str(), v, true);
                proof {
                    lemma_vchain_define(c, name@, b);
                }
                last = Value::Unit;
            },
            Stmt::Assign { name, value, span } => {
                let v = eval_expr(ev, value, env);
                let ghost vv = vview(v);
                proof {
                    lemma_vchain_lookup(c, name@);
                    match chain_nearest(c, name@) {
                        Some(k) => {
                            crate::eval::env::lemma_nearest_in_range(c, name@);
                            lemma_vchain_update(c, k, name@, Binding { value: v, mutable: true });
                        },
                        None => {},
                    }
                }
                match env.assign(name.as_str(), v) {
                    Ok(()) => {},
                    Err(e) => {
                        let m = crate::eval::env::assign_error_message(name.as_str(), e);
                        error_at(ev, *span, m.as_str());
                    },
                }
                last = Value::Unit;
            },
            Stmt::Expr(e) => {
                last = eval_expr(ev, e, env);
            },
            Stmt::Return { value, .. } => {
                return match value {
                    Some(e) => Flow::Return(eval_expr(ev, e, env)),
                    None => Flow::Return(Value::Unit),
                };
            },
            Stmt::If { cond, then, els, .. } => {
                let cv = eval_expr(ev, cond, env);
                proof {
                    assert(decreases_to!(stmts@ => stmts@[i as int]));
                }
                let f = match cv {
                    Value::Poison => Flow::Normal(Value::Poison),
                    Value::Bool(b) => {
                        if b {
                            proof {
                                assert(decreases_to!(stmts@[i as int] => *then));
                            }
                            exec_scoped(ev, then, env, comptime)
                        } else {
                            match els {
                                Some(e) => {
                                    proof {
                                        assert(decreases_to!(stmts@[i as int] => *els));
                                        assert(decreases_to!(*els => *e));
                                    }
                                    exec_scoped(ev, e, env, comptime)
                                },
                                None => Flow::Normal(Value::Unit),
                            }
                        }
                    },
                    _ => {
                        let mut m = String::from_str("if condition must be bool, got ");
                        m.append(kind_name(&cv));
                        error_at(ev, crate::ast::expr_span(cond), m.as_str());
                        Flow::Normal(Value::Poison)
                    },
                };
                if let Flow::Return(v) = f {
                    return Flow::Return(v);
                }
                last = Value::Unit;
            },
            Stmt::ComptimeBlock { body, .. } => {
                proof {
                    assert(decreases_to!(stmts@ => stmts@[i as int]));
                    assert(decreases_to!(stmts@[i as int] => *body));
                }
                let f = exec_scoped(ev, body, env, true);
                if let Flow::Return(v) = f {
                    return Flow::Return(v);
                }
                last = Value::Unit;
            },
            Stmt::While { .. } => {
                proof {
                    assert(decreases_to!(stmts@ => stmts@[i as int]));
                }
                let f = exec_while(ev, &stmts[i], env, comptime);
                if let Flow::Return(v) = f {
                    return Flow::Return(v);
                }
                last = Value::Unit;
            },
        }
        i = i + 1;
    }
    Flow::Normal(last)
}

proof fn lemma_vchain_push_pop(c: Seq<Map<Seq<char>, Binding<Value>>>)
    ensures
        vchain(c.push(Map::empty())) == vchain(c).push(Map::empty()),
        c.len() > 0 ==> vchain(c.drop_last()) == vchain(c).drop_last(),
{
    assert(scope_view(Map::<Seq<char>, Binding<Value>>::empty()) =~= Map::<Seq<char>, Binding<ValueView>>::empty());
    assert(vchain(c.push(Map::empty())) =~= vchain(c).push(Map::empty()));
    if c.len() > 0 {
        assert(vchain(c.drop_last()) =~= vchain(c).drop_last());
    }
}

/// Execute a block in a fresh nested scope: push a scope, execute, pop it.
fn exec_scoped(ev: &mut Evaluator, block: &Vec<Stmt>, env: &mut Env<Value>, comptime: bool) -> (r: Flow)
    requires
        forall|k: int| 0 <= k < block@.len() ==> deep_core(#[trigger] block@[k]),
        state_ok(state_of(*old(ev))),
    ensures
        ({
            let (f, s, c) = exec_spec(
                state_of(*old(ev)),
                vchain(old(env)@).push(Map::empty()),
                block@,
                0,
                ValueView::Unit,
                comptime,
            );
            &&& flow_view(r) == f
            &&& state_of(*final(ev)) == s
            &&& vchain(final(env)@) == if c.len() > 1 {
                c.drop_last()
            } else {
                c
            }
        }),
        state_ok(state_of(*final(ev))),
        final(ev).steps >= old(ev).steps,
    decreases block@, 2int,
{
    let ghost c0 = env@;
    env.push_scope();
    proof {
        lemma_vchain_push_pop(c0);
    }
    let f = exec_stmts(ev, block.as_slice(), env, comptime);
    let ghost c1 = env@;
    env.pop_scope();
    proof {
        lemma_vchain_push_pop(c1);
        assert(vchain(c1).len() == c1.len());
    }
    f
}

// ---------------------------------------------------------------------------
// `asm` bodies.
// ---------------------------------------------------------------------------

/// A code item as the specification sees it (labels only are produced here).
pub enum ItemView {
    Label(Seq<char>, bool, Span),
    Other,
}

/// The plain view of a code item.
pub open spec fn item_view(c: CodeItem) -> ItemView {
    match c {
        CodeItem::Label { name, export, span } => ItemView::Label(name@, export, span),
        _ => ItemView::Other,
    }
}

/// The plain views of code items.
pub open spec fn items_view(v: Seq<CodeItem>) -> Seq<ItemView> {
    v.map_values(|c: CodeItem| item_view(c))
}

/// The name a label scope gives a label defined in the body: the first
/// entry for it.
pub open spec fn scope_name(scope: Seq<(Seq<char>, Seq<char>)>, name: Seq<char>) -> Option<Seq<char>>
    decreases scope.len(),
{
    if scope.len() == 0 {
        None
    } else if scope[0].0 == name {
        Some(scope[0].1)
    } else {
        scope_name(scope.drop_first(), name)
    }
}

/// The plain view of a label scope.
pub open spec fn scope_pairs(scope: Seq<(String, String)>) -> Seq<(Seq<char>, Seq<char>)> {
    scope.map_values(|p: (String, String)| (p.0@, p.1@))
}

/// An `asm` statement this core lowers: a label the scope names, or a
/// comptime `if` whose condition is a core expression and whose branches
/// are such statements too.
pub open spec fn core_asm(s: AsmStmt, scope: Seq<(Seq<char>, Seq<char>)>) -> bool
    decreases s,
{
    match s {
        AsmStmt::Label { name, .. } => scope_name(scope, name@) is Some,
        AsmStmt::If { cond, then, els, .. } => {
            &&& core_expr(cond)
            &&& forall|k: int| 0 <= k < then@.len() ==> core_asm(#[trigger] then@[k], scope)
            &&& match els {
                Some(e) => forall|k: int| 0 <= k < e@.len() ==> core_asm(#[trigger] e@[k], scope),
                None => true,
            }
        },
        AsmStmt::Instr(_) => false,
    }
}

/// The report of a statement-position `if` whose condition is neither a
/// boolean nor an integer.
pub open spec fn asm_if_msg(v: ValueView) -> Seq<char> {
    "[asm.if-not-comptime] a statement-position `if` condition must be a comptime bool or int, got "@
        + type_name_text(v)
}

/// Lower statements `i..` of an `asm` body against its label scope: a label
/// becomes a label item under the scope's name for it; a comptime `if`
/// evaluates its condition (a boolean, or an integer taken as true when not
/// zero) and lowers only the chosen branch, inline into the same item list;
/// a poisoned condition lowers nothing, and any other condition is reported
/// and lowers nothing.
pub open spec fn lower_spec(
    st: EvalState,
    chain: VChain,
    scope: Seq<(Seq<char>, Seq<char>)>,
    stmts: Seq<AsmStmt>,
    i: int,
) -> (Seq<ItemView>, EvalState)
    decreases stmts, stmts.len() - i,
{
    if i < 0 || i >= stmts.len() {
        (Seq::empty(), st)
    } else {
        let (here, s1) = match stmts[i] {
            AsmStmt::Label { name, export, span } => (
                seq![ItemView::Label(scope_name(scope, name@)->Some_0, export, span)],
                st,
            ),
            AsmStmt::If { cond, then, els, .. } => {
                let (c, s0) = eval_spec(st, chain, cond);
                let chosen: Option<Option<Seq<AsmStmt>>> = match c {
                    ValueView::Bool(b) => Some(
                        if b {
                            Some(then@)
                        } else {
                            match els {
                                Some(e) => Some(e@),
                                None => None,
                            }
                        },
                    ),
                    ValueView::Int(n) => Some(
                        if n != 0 {
                            Some(then@)
                        } else {
                            match els {
                                Some(e) => Some(e@),
                                None => None,
                            }
                        },
                    ),
                    _ => None,
                };
                match chosen {
                    Some(Some(blk)) => {
                        proof {
                            assert(decreases_to!(stmts => stmts[i]));
                            if blk == then@ {
                                assert(decreases_to!(stmts[i] => then));
                            } else {
                                let e = els->Some_0;
                                assert(decreases_to!(stmts[i] => els));
                                assert(decreases_to!(els => e));
                            }
                        }
                        lower_spec(s0, chain, scope, blk, 0)
                    },
                    Some(None) => (Seq::empty(), s0),
                    None => match c {
                        ValueView::Poison => (Seq::empty(), s0),
                        _ => (Seq::empty(), with_error(s0, crate::ast::expr_span_of(cond), asm_if_msg(c))),
                    },
                }
            },
            AsmStmt::Instr(_) => (Seq::empty(), st),
        };
        let (rest, s2) = lower_spec(s1, chain, scope, stmts, i + 1);
        (here + rest, s2)
    }
}

fn scope_label(scope: &[(String, String)], name: &str) -> (r: Option<String>)
    ensures
        match scope_name(scope_pairs(scope@), name@) {
            Some(t) => r matches Some(x) && x@ == t,
            None => r is None,
        },
{
    let ghost sp = scope_pairs(scope@);
    let mut k: usize = 0;
    assert(sp.subrange(0, sp.len() as int) =~= sp);
    while k < scope.len()
        invariant
            k <= scope@.len(),
            sp == scope_pairs(scope@),
            scope_name(sp, name@) == scope_name(sp.subrange(k as int, sp.len() as int), name@),
        decreases scope@.len() - k,
    {
        let ghost sub = sp.subrange(k as int, sp.len() as int);
        assert(sub[0] == (scope@[k as int].0@, scope@[k as int].1@));
        if str_eq(scope[k].0.as_str(), name) {
            return Some(scope[k].1.clone());
        }
        assert(sub.drop_first() =~= sp.subrange(k + 1, sp.len() as int));
        k = k + 1;
    }
    None
}

/// Lower an `asm` body's statements into `buf` against its label scope
/// (local names paired with the names they define; see [`lower_spec`]).
#[verifier::spinoff_prover]
#[verifier::rlimit(40)]
pub fn lower_asm_stmts(
    ev: &mut Evaluator,
    stmts: &[AsmStmt],
    scope: &[(String, String)],
    buf: &mut Vec<CodeItem>,
    env: &Env<Value>,
)
    requires
        forall|k: int| 0 <= k < stmts@.len() ==> core_asm(#[trigger] stmts@[k], scope_pairs(scope@)),
        state_ok(state_of(*old(ev))),
    ensures
        ({
            let (items, s) = lower_spec(state_of(*old(ev)), vchain(env@), scope_pairs(scope@), stmts@, 0);
            &&& items_view(final(buf)@) == items_view(old(buf)@) + items
            &&& state_of(*final(ev)) == s
        }),
        state_ok(state_of(*final(ev))),
    decreases stmts@,
{
    let ghost sp = scope_pairs(scope@);
    let ghost st0 = state_of(*ev);
    let ghost b0 = items_view(buf@);
    let mut i: usize = 0;
    while i < stmts.len()
        invariant
            i <= stmts@.len(),
            sp == scope_pairs(scope@),
            forall|k: int| 0 <= k < stmts@.len() ==> core_asm(#[trigger] stmts@[k], sp),
            state_ok(state_of(*ev)),
            ({
                let (done, s) = lower_spec(state_of(*ev), vchain(env@), sp, stmts@, i as int);
                let (all, sall) = lower_spec(st0, vchain(env@), sp, stmts@, 0);
                &&& b0 + all == items_view(buf@) + done
                &&& s == sall
            }),
        decreases stmts@.len() - i,
    {
        let ghost bb = items_view(buf@);
        let ghost sti = state_of(*ev);
        match &stmts[i] {
            AsmStmt::Label { name, export, span } => {
                let resolved = match scope_label(scope, name.as_str()) {
                    Some(t) => t,
                    None => String::new(),
                };
                buf.push(CodeItem::Label { name: resolved, export: *export, span: *span });
                assert(items_view(buf@) =~= bb.push(ItemView::Label(scope_name(sp, name@)->Some_0, *export, *span)));
            },
            AsmStmt::If { cond, then, els, .. } => {
                let c = eval_expr(ev, cond, env);
                proof {
                    assert(decreases_to!(stmts@ => stmts@[i as int]));
                }
                let chosen: Option<&Vec<AsmStmt>> = match c {
                    Value::Bool(b) => {
                        if b {
                            Some(then)
                        } else {
                            match els {
                                Some(e) => Some(e),
                                None => None,
                            }
                        }
                    },
                    Value::Int(n) => {
                        if n != 0 {
                            Some(then)
                        } else {
                            match els {
                                Some(e) => Some(e),
                                None => None,
                            }
                        }
                    },
                    Value::Poison => None,
                    _ => {
                        let mut m = String::from_str(
                            "[asm.if-not-comptime] a statement-position `if` condition must be a comptime bool or int, got ",
                        );
                        m.append(kind_name(&c));
                        error_at(ev, crate::ast::expr_span(cond), m.as_str());
                        None
                    },
                };
                match chosen {
                    Some(blk) => {
                        proof {
                            if blk@ == then@ {
                                assert(decreases_to!(stmts@[i as int] => *then));
                            } else {
                                let e = els->Some_0;
                                assert(decreases_to!(stmts@[i as int] => *els));
                                assert(decreases_to!(*els => e));
                            }
                        }
                        lower_asm_stmts(ev, blk.as_slice(), scope, buf, env);
                    },
                    None => {},
                }
            },
            AsmStmt::Instr(_) => {},
        }
        proof {
            let (done, s) = lower_spec(sti, vchain(env@), sp, stmts@, i as int);
            let (rest, s2) = lower_spec(state_of(*ev), vchain(env@), sp, stmts@, i + 1);
            assert(bb + done =~= items_view(buf@) + rest);
        }
        i = i + 1;
    }
}

/// Run a `while` statement (see [`while_spec`]).
#[verifier::spinoff_prover]
#[verifier::rlimit(60)]
fn exec_while(ev: &mut Evaluator, w: &Stmt, env: &mut Env<Value>, comptime: bool) -> (r: Flow)
    requires
        w is While,
        deep_core(*w),
        state_ok(state_of(*old(ev))),
    ensures
        (flow_view(r), state_of(*final(ev)), vchain(final(env)@)) == while_spec(
            state_of(*old(ev)),
            vchain(old(env)@),
            *w,
            comptime,
            loop_fuel(state_of(*old(ev))),
        ),
        state_ok(state_of(*final(ev))),
        final(ev).steps >= old(ev).steps,
    decreases *w, 0int,
{
    let (cond, body, span) = match w {
        Stmt::While { cond, body, span } => (cond, body, *span),
        _ => {
            return Flow::Normal(Value::Unit);
        },
    };
    let ghost goal = while_spec(state_of(*ev), vchain(env@), *w, comptime, loop_fuel(state_of(*ev)));
    let ghost mut fuel: nat = loop_fuel(state_of(*ev));
    loop
        invariant
            *w == (Stmt::While { cond: *cond, body: *body, span }),
            deep_core(*w),
            state_ok(state_of(*ev)),
            ev.steps >= old(ev).steps,
            !ev.aborted ==> fuel >= loop_fuel(state_of(*ev)),
            goal == while_spec(state_of(*old(ev)), vchain(old(env)@), *w, comptime, loop_fuel(state_of(*old(ev)))),
            goal == while_spec(state_of(*ev), vchain(env@), *w, comptime, fuel),
        decreases fuel,
    {
        if ev.aborted {
            return Flow::Normal(Value::Poison);
        }
        assert(fuel > 0);
        if !charge(ev, span) {
            return Flow::Normal(Value::Poison);
        }
        let c = eval_expr(ev, cond, env);
        match c {
            Value::Bool(true) => {
                proof {
                    assert(decreases_to!(*w => *body));
                }
                let f = exec_scoped(ev, body, env, comptime);
                if let Flow::Return(v) = f {
                    return Flow::Return(v);
                }
                proof {
                    fuel = (fuel - 1) as nat;
                }
            },
            Value::Bool(false) => {
                return Flow::Normal(Value::Unit);
            },
            Value::Poison => {
                return Flow::Normal(Value::Unit);
            },
            _ => {
                let mut m = String::from_str("while condition must be bool, got ");
                m.append(kind_name(&c));
                error_at(ev, crate::ast::expr_span(cond), m.as_str());
                return Flow::Normal(Value::Unit);
            },
        }
    }
}

/// Once evaluation has aborted, evaluating an expression or executing a
/// statement list yields poison and changes nothing: the tree unwinds
/// silently.
pub proof fn law_aborted_evaluation_is_silent(
    st: EvalState,
    chain: VChain,
    e: Expr,
    stmts: Seq<Stmt>,
    comptime: bool,
)
    requires
        st.aborted,
    ensures
        eval_spec(st, chain, e) == (ValueView::Poison, st),
        exec_spec(st, chain, stmts, 0, ValueView::Unit, comptime) == (FlowView::Normal(ValueView::Poison), st, chain),
{
}

/// The state after evaluation extends the state before: diagnostics are
/// only ever appended, steps only ever increase, and the call stack and
/// defines are untouched.
pub open spec fn extends(before: EvalState, after: EvalState) -> bool {
    &&& after.diags.len() >= before.diags.len()
    &&& after.diags.subrange(0, before.diags.len() as int) == before.diags
    &&& after.steps >= before.steps
    &&& after.stack == before.stack
    &&& after.defs == before.defs
}

proof fn lemma_extends_trans(a: EvalState, b: EvalState, c: EvalState)
    requires
        extends(a, b),
        extends(b, c),
    ensures
        extends(a, c),
{
    assert(c.diags.subrange(0, a.diags.len() as int) =~= c.diags.subrange(0, b.diags.len() as int).subrange(
        0,
        a.diags.len() as int,
    ));
}

proof fn lemma_error_extends(st: EvalState, span: Span, m: Seq<char>)
    ensures
        extends(st, with_error(st, span, m)),
{
    assert(with_error(st, span, m).diags.subrange(0, st.diags.len() as int) =~= st.diags);
}

/// Evaluating an expression, from a state within the step budget (or
/// aborted), only appends diagnostics, never lowers the step count, leaves
/// the call stack and defines alone, and ends within the budget or
/// aborted.
pub proof fn law_evaluation_extends_state(st: EvalState, chain: VChain, e: Expr)
    requires
        state_ok(st),
    ensures
        extends(st, eval_spec(st, chain, e).1),
        state_ok(eval_spec(st, chain, e).1),
    decreases e,
{
    assert(st.diags.subrange(0, st.diags.len() as int) =~= st.diags);
    if !st.aborted {
        let s1 = charged(st, crate::ast::expr_span_of(e));
        assert(extends(st, s1)) by {
            assert(s1.diags.subrange(0, st.diags.len() as int) =~= st.diags);
        }
        if !s1.aborted {
            match e {
                Expr::Path(p) => {
                    let n = p.segments@[0]@;
                    lemma_error_extends(s1, p.span, unknown_name_msg(n));
                    lemma_extends_trans(st, s1, with_error(s1, p.span, unknown_name_msg(n)));
                },
                Expr::Unary { op, operand, span } => {
                    law_evaluation_extends_state(s1, chain, *operand);
                    let (v, s2) = eval_spec(s1, chain, *operand);
                    lemma_extends_trans(st, s1, s2);
                    let s3 = unary_spec(s2, op, v, span).1;
                    assert(extends(s2, s3)) by {
                        assert(s3.diags.subrange(0, s2.diags.len() as int) =~= s2.diags);
                    }
                    lemma_extends_trans(st, s2, s3);
                },
                Expr::Binary { op, lhs, rhs, span } => {
                    law_evaluation_extends_state(s1, chain, *lhs);
                    let (l, s2) = eval_spec(s1, chain, *lhs);
                    lemma_extends_trans(st, s1, s2);
                    law_evaluation_extends_state(s2, chain, *rhs);
                    let (r, s3) = eval_spec(s2, chain, *rhs);
                    lemma_extends_trans(st, s2, s3);
                    let fin = eval_spec(st, chain, e).1;
                    assert(extends(s3, binary_spec(s3, op, l, r, span).1)) by {
                        assert(binary_spec(s3, op, l, r, span).1.diags.subrange(0, s3.diags.len() as int) =~= s3.diags);
                    }
                    lemma_extends_trans(st, s3, binary_spec(s3, op, l, r, span).1);
                    lemma_error_extends(s2, span, operand_type_msg(binop_text(op), l));
                    lemma_extends_trans(st, s2, with_error(s2, span, operand_type_msg(binop_text(op), l)));
                    lemma_error_extends(s3, span, operand_type_msg(binop_text(op), r));
                    lemma_extends_trans(st, s3, with_error(s3, span, operand_type_msg(binop_text(op), r)));
                },
                _ => {},
            }
        }
    }
}

/// Strings are ordered lexicographically: on two strings `<` gives whether
/// the first comes before the second, `>` whether the second comes before
/// the first, and `<=` and `>=` the negations of `>` and `<`. The state is
/// untouched; in particular every string is `<=` and `>=` itself and
/// neither `<` nor `>` itself.
pub proof fn law_string_comparison_is_lexicographic(st: EvalState, a: Seq<char>, b: Seq<char>, span: Span)
    ensures
        binary_spec(st, BinOp::Lt, ValueView::Str(a), ValueView::Str(b), span) == (ValueView::Bool(lex_before(a, b)), st),
        binary_spec(st, BinOp::Gt, ValueView::Str(a), ValueView::Str(b), span) == (ValueView::Bool(lex_before(b, a)), st),
        binary_spec(st, BinOp::Le, ValueView::Str(a), ValueView::Str(b), span) == (ValueView::Bool(!lex_before(b, a)), st),
        binary_spec(st, BinOp::Ge, ValueView::Str(a), ValueView::Str(b), span) == (ValueView::Bool(!lex_before(a, b)), st),
        binary_spec(st, BinOp::Eq, ValueView::Str(a), ValueView::Str(b), span) == (ValueView::Bool(a == b), st),
        binary_spec(st, BinOp::Ne, ValueView::Str(a), ValueView::Str(b), span) == (ValueView::Bool(a != b), st),
        binary_spec(st, BinOp::Ge, ValueView::Str(a), ValueView::Str(a), span) == (ValueView::Bool(true), st),
        binary_spec(st, BinOp::Le, ValueView::Str(a), ValueView::Str(a), span) == (ValueView::Bool(true), st),
        binary_spec(st, BinOp::Lt, ValueView::Str(a), ValueView::Str(a), span) == (ValueView::Bool(false), st),
        binary_spec(st, BinOp::Gt, ValueView::Str(a), ValueView::Str(a), span) == (ValueView::Bool(false), st),
{
    lemma_str_lt_is_lex(a, b);
    lemma_str_lt_is_lex(b, a);
    lemma_str_lt_is_lex(a, a);
    law_string_order_is_strict_total(a, b);
}

/// Comparing two string literals, with steps to spare, evaluates to the
/// lexicographic comparison of their texts: `"abc" >= "abc"` is `true`,
/// `"ab" < "b"` is `true`, and so on.
pub proof fn law_string_literal_comparison(
    st: EvalState,
    chain: VChain,
    e: Expr,
    op: BinOp,
    t1: String,
    t2: String,
    sp1: Span,
    sp2: Span,
    span: Span,
)
    requires
        !st.aborted,
        st.steps + 3 <= STEP_BUDGET,
        e == (Expr::Binary { op, lhs: Box::new(Expr::Str(t1, sp1)), rhs: Box::new(Expr::Str(t2, sp2)), span }),
    ensures
        op == BinOp::Lt ==> eval_spec(st, chain, e).0 == ValueView::Bool(lex_before(t1@, t2@)),
        op == BinOp::Gt ==> eval_spec(st, chain, e).0 == ValueView::Bool(lex_before(t2@, t1@)),
        op == BinOp::Le ==> eval_spec(st, chain, e).0 == ValueView::Bool(!lex_before(t2@, t1@)),
        op == BinOp::Ge ==> eval_spec(st, chain, e).0 == ValueView::Bool(!lex_before(t1@, t2@)),
        t1@ == t2@ && (op == BinOp::Ge || op == BinOp::Le) ==> eval_spec(st, chain, e).0 == ValueView::Bool(true),
{
    let s1 = charged(st, span);
    let s2 = charged(s1, sp1);
    let s3 = charged(s2, sp2);
    assert(eval_spec(s1, chain, Expr::Str(t1, sp1)) == (ValueView::Str(t1@), s2));
    assert(eval_spec(s2, chain, Expr::Str(t2, sp2)) == (ValueView::Str(t2@), s3));
    law_string_comparison_is_lexicographic(s3, t1@, t2@, span);
    law_string_comparison_is_lexicographic(s3, t1@, t1@, span);
}

} // verus!
