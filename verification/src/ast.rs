//! The parsed `.emp` syntax the evaluator's helpers inspect and synthesize:
//! paths, expressions, call arguments, instruction operands and lines, and
//! type annotations. Only the shapes those helpers tell apart are carried.
use crate::value::Span;
use vstd::prelude::*;

verus! {

/// A dotted path (`Foo`, `Qual.field`).
#[derive(Clone, Debug, PartialEq, Eq)]
pub struct Path {
    pub segments: Vec<String>,
    pub span: Span,
}

/// A binary operator.
#[derive(Clone, Copy, Debug, PartialEq, Eq, Structural)]
pub enum BinOp {
    Add,
    Sub,
    Mul,
    Div,
    Mod,
    Shl,
    Shr,
    BitAnd,
    BitOr,
    BitXor,
    Eq,
    Ne,
    Lt,
    Le,
    Gt,
    Ge,
    And,
    Or,
    Concat,
}

/// An expression.
#[derive(Debug)]
pub enum Expr {
    /// A name or dotted path.
    Path(Path),
    /// An integer literal.
    Int(i64, Span),
    /// A binary operation.
    Binary { op: BinOp, lhs: Box<Expr>, rhs: Box<Expr>, span: Span },
    /// A call with its arguments.
    Call { callee: Path, args: Vec<Arg>, span: Span },
    /// A string literal.
    Str(String, Span),
    /// A unary operation.
    Unary { op: UnOp, operand: Box<Expr>, span: Span },
}

/// A unary operator: `-`, `!`, `~`.
#[derive(Clone, Copy, Debug, PartialEq, Eq, Structural)]
pub enum UnOp {
    Neg,
    Not,
    BitNot,
}

/// A statement of a comptime body.
#[derive(Debug)]
pub enum Stmt {
    /// `let name = value;` (immutable).
    Let { name: String, value: Expr, span: Span },
    /// `comptime var name = value;` (mutable).
    Var { name: String, value: Expr, span: Span },
    /// `name = value;`.
    Assign { name: String, value: Expr, span: Span },
    /// An expression statement.
    Expr(Expr),
    /// `return value;` / `return;`.
    Return { value: Option<Expr>, span: Span },
    /// A statement-position `if` with its blocks.
    If { cond: Expr, then: Vec<Stmt>, els: Option<Vec<Stmt>>, span: Span },
    /// `while cond { body }`.
    While { cond: Expr, body: Vec<Stmt>, span: Span },
    /// A nested `comptime { .. }` block: its own scope and a
    /// comptime-mutable context.
    ComptimeBlock { body: Vec<Stmt>, span: Span },
}

/// A call argument, positional or named.
#[derive(Debug)]
pub struct Arg {
    pub name: Option<String>,
    pub value: Expr,
    pub span: Span,
}

/// A size suffix or mnemonic part, written out or spliced in.
#[derive(Debug)]
pub enum TextOrSplice {
    Text(String),
    Splice(Expr),
}

/// A parsed instruction operand, before resolution.
#[derive(Debug)]
pub enum Operand {
    /// `#expr`.
    Imm(Expr),
    /// A bare expression with an optional size suffix.
    Plain { expr: Expr, size: Option<TextOrSplice>, span: Span },
    /// `(part, part, ...)` with per-part and trailing size suffixes.
    Ind { parts: Vec<(Expr, Option<TextOrSplice>)>, size: Option<TextOrSplice>, span: Span },
    /// `disp(inner)`.
    DispInd { disp: Expr, inner: Box<Operand>, span: Span },
    /// `-(inner)`.
    PreDec(Box<Operand>),
    /// `(inner)+`.
    PostInc(Box<Operand>),
    /// `{expr}`.
    Splice(Expr),
}

/// One instruction line of an `asm` body: its mnemonic parts, size suffix
/// and operands.
#[derive(Debug)]
pub struct InstrLine {
    pub mnemonic: Vec<TextOrSplice>,
    pub size: Option<TextOrSplice>,
    pub operands: Vec<Operand>,
    pub span: Span,
}

/// A statement of an `asm` body.
#[derive(Debug)]
pub enum AsmStmt {
    /// An instruction line.
    Instr(InstrLine),
    /// A label definition.
    Label { name: String, export: bool, span: Span },
    /// A comptime `if` choosing between two bodies.
    If { cond: Expr, then: Vec<AsmStmt>, els: Option<Vec<AsmStmt>>, span: Span },
}

/// A type annotation.
#[derive(Debug)]
pub enum Type {
    /// A named type.
    Named(Path),
    /// A pointer to a type.
    Ptr(Box<Type>),
    /// A fixed-length array of a type, its length an expression.
    Array(Box<Type>, Box<Expr>),
    /// A tuple of types.
    Tuple(Vec<Type>),
    /// A type narrowed by a predicate.
    Refined(Box<Type>, Box<Expr>),
}

/// A `match` arm pattern.
#[derive(Debug)]
pub enum Pattern {
    /// `_`.
    Wildcard(Span),
    /// A name binding the whole value.
    Binding(String, Span),
    /// `Enum.Variant(sub, ...)`.
    Variant { path: Path, subpats: Vec<Pattern>, span: Span },
}

/// A comptime `const` declaration: its name, its optional type annotation
/// and the span of the declaration.
#[derive(Debug)]
pub struct ConstDecl {
    pub name: String,
    pub ty: Option<Type>,
    pub span: Span,
}

/// A `section { .. }` and the items declared inside it.
#[derive(Debug)]
pub struct SectionDecl {
    pub items: Vec<Item>,
}

/// A top-level item of a module, as far as the declaration walks tell items
/// apart: a `const`, a `section` holding further items, or anything else.
#[derive(Debug)]
pub enum Item {
    Const(ConstDecl),
    Section(SectionDecl),
    Other,
}

/// The source span of an expression.
pub open spec fn expr_span_of(e: Expr) -> Span {
    match e {
        Expr::Path(p) => p.span,
        Expr::Int(_, s) => s,
        Expr::Binary { span, .. } => span,
        Expr::Call { span, .. } => span,
        Expr::Str(_, s) => s,
        Expr::Unary { span, .. } => span,
    }
}

/// The source span of an expression.
pub fn expr_span(e: &Expr) -> (r: Span)
    ensures
        r == expr_span_of(*e),
{
    match e {
        Expr::Path(p) => p.span,
        Expr::Int(_, s) => *s,
        Expr::Binary { span, .. } => *span,
        Expr::Call { span, .. } => *span,
        Expr::Str(_, s) => *s,
        Expr::Unary { span, .. } => *span,
    }
}

/// Two paths spell the same segments at the same span.
pub open spec fn same_path(a: Path, b: Path) -> bool {
    a.segments@ == b.segments@ && a.span == b.span
}

/// Two expressions are the same tree.
pub open spec fn same_expr(a: Expr, b: Expr) -> bool
    decreases a,
{
    match (a, b) {
        (Expr::Path(p), Expr::Path(q)) => same_path(p, q),
        (Expr::Int(v, s), Expr::Int(w, t)) => v == w && s == t,
        (Expr::Str(v, s), Expr::Str(w, t)) => v@ == w@ && s == t,
        (Expr::Unary { op: o1, operand: x1, span: s1 }, Expr::Unary { op: o2, operand: x2, span: s2 }) => o1 == o2
            && same_expr(*x1, *x2) && s1 == s2,
        (
            Expr::Binary { op: o1, lhs: l1, rhs: r1, span: s1 },
            Expr::Binary { op: o2, lhs: l2, rhs: r2, span: s2 },
        ) => o1 == o2 && same_expr(*l1, *l2) && same_expr(*r1, *r2) && s1 == s2,
        (Expr::Call { callee: c1, args: a1, span: s1 }, Expr::Call { callee: c2, args: a2, span: s2 }) => {
            &&& same_path(c1, c2)
            &&& s1 == s2
            &&& a1@.len() == a2@.len()
            &&& forall|i: int|
                0 <= i < a1@.len() ==> {
                    &&& (#[trigger] a1@[i]).name == a2@[i].name
                    &&& a1@[i].span == a2@[i].span
                    &&& same_expr(a1@[i].value, a2@[i].value)
                }
        },
        _ => false,
    }
}

/// Two size suffixes or mnemonic parts are the same.
pub open spec fn same_tos(a: TextOrSplice, b: TextOrSplice) -> bool {
    match (a, b) {
        (TextOrSplice::Text(x), TextOrSplice::Text(y)) => x == y,
        (TextOrSplice::Splice(x), TextOrSplice::Splice(y)) => same_expr(x, y),
        _ => false,
    }
}

/// Two optional size suffixes are the same.
pub open spec fn same_opt_tos(a: Option<TextOrSplice>, b: Option<TextOrSplice>) -> bool {
    match (a, b) {
        (Some(x), Some(y)) => same_tos(x, y),
        (None, None) => true,
        _ => false,
    }
}

/// The first `n` parts of two indirect part lists are the same.
pub open spec fn same_parts(
    a: Seq<(Expr, Option<TextOrSplice>)>,
    b: Seq<(Expr, Option<TextOrSplice>)>,
    n: int,
) -> bool
    decreases n,
{
    if n <= 0 {
        true
    } else {
        same_parts(a, b, n - 1) && same_expr(a[n - 1].0, b[n - 1].0) && same_opt_tos(
            a[n - 1].1,
            b[n - 1].1,
        )
    }
}

/// Two operands are the same tree.
pub open spec fn same_operand(a: Operand, b: Operand) -> bool
    decreases a,
{
    match (a, b) {
        (Operand::Imm(x), Operand::Imm(y)) => same_expr(x, y),
        (
            Operand::Plain { expr: e1, size: z1, span: s1 },
            Operand::Plain { expr: e2, size: z2, span: s2 },
        ) => same_expr(e1, e2) && same_opt_tos(z1, z2) && s1 == s2,
        (
            Operand::Ind { parts: p1, size: z1, span: s1 },
            Operand::Ind { parts: p2, size: z2, span: s2 },
        ) => p1@.len() == p2@.len() && same_parts(p1@, p2@, p1@.len() as int) && same_opt_tos(z1, z2)
            && s1 == s2,
        (
            Operand::DispInd { disp: d1, inner: i1, span: s1 },
            Operand::DispInd { disp: d2, inner: i2, span: s2 },
        ) => same_expr(d1, d2) && same_operand(*i1, *i2) && s1 == s2,
        (Operand::PreDec(x), Operand::PreDec(y)) => same_operand(*x, *y),
        (Operand::PostInc(x), Operand::PostInc(y)) => same_operand(*x, *y),
        (Operand::Splice(x), Operand::Splice(y)) => same_expr(x, y),
        _ => false,
    }
}

/// A copy of a path.
pub fn clone_path(p: &Path) -> (r: Path)
    ensures
        same_path(r, *p),
{
    let mut segments: Vec<String> = Vec::new();
    let mut i: usize = 0;
    while i < p.segments.len()
        invariant
            i <= p.segments@.len(),
            segments@ == p.segments@.subrange(0, i as int),
        decreases p.segments@.len() - i,
    {
        segments.push(p.segments[i].clone());
        i = i + 1;
        assert(segments@ =~= p.segments@.subrange(0, i as int));
    }
    assert(segments@ =~= p.segments@);
    Path { segments, span: p.span }
}

/// A copy of an expression.
pub fn clone_expr(e: &Expr) -> (r: Expr)
    ensures
        same_expr(r, *e),
    decreases e,
{
    match e {
        Expr::Path(p) => Expr::Path(clone_path(p)),
        Expr::Int(v, s) => Expr::Int(*v, *s),
        Expr::Str(v, s) => Expr::Str(v.clone(), *s),
        Expr::Unary { op, operand, span } => Expr::Unary {
            op: *op,
            operand: Box::new(clone_expr(operand)),
            span: *span,
        },
        Expr::Binary { op, lhs, rhs, span } => Expr::Binary {
            op: *op,
            lhs: Box::new(clone_expr(lhs)),
            rhs: Box::new(clone_expr(rhs)),
            span: *span,
        },
        Expr::Call { callee, args, span } => {
            let mut out: Vec<Arg> = Vec::new();
            let mut i: usize = 0;
            while i < args.len()
                invariant
                    i <= args@.len(),
                    *e == (Expr::Call { callee: *callee, args: *args, span: *span }),
                    out@.len() == i,
                    forall|k: int|
                        0 <= k < i ==> {
                            &&& (#[trigger] out@[k]).name == args@[k].name
                            &&& out@[k].span == args@[k].span
                            &&& same_expr(out@[k].value, args@[k].value)
                        },
                decreases args@.len() - i,
            {
                proof {
                    assert(decreases_to!(*e => (*e)->Call_args));
                    assert(decreases_to!((*e)->Call_args => (*e)->Call_args@));
                    assert(decreases_to!((*e)->Call_args@ => (*e)->Call_args@[i as int]));
                    assert(decreases_to!((*e)->Call_args@[i as int] => (*e)->Call_args@[i as int].value));
                }
                let a = &args[i];
                let name = match &a.name {
                    Some(n) => Some(n.clone()),
                    None => None,
                };
                out.push(Arg { name, value: clone_expr(&a.value), span: a.span });
                i = i + 1;
            }
            Expr::Call { callee: clone_path(callee), args: out, span: *span }
        },
    }
}

/// A copy of a size suffix or mnemonic part.
pub fn clone_text_or_splice(t: &TextOrSplice) -> (r: TextOrSplice)
    ensures
        same_tos(r, *t),
{
    match t {
        TextOrSplice::Text(s) => TextOrSplice::Text(s.clone()),
        TextOrSplice::Splice(e) => TextOrSplice::Splice(clone_expr(e)),
    }
}

fn clone_opt_text_or_splice(t: &Option<TextOrSplice>) -> (r: Option<TextOrSplice>)
    ensures
        same_opt_tos(r, *t),
{
    match t {
        Some(x) => Some(clone_text_or_splice(x)),
        None => None,
    }
}

/// A copy of an operand.
pub fn clone_operand(op: &Operand) -> (r: Operand)
    ensures
        same_operand(r, *op),
    decreases op,
{
    match op {
        Operand::Imm(e) => Operand::Imm(clone_expr(e)),
        Operand::Plain { expr, size, span } => Operand::Plain {
            expr: clone_expr(expr),
            size: clone_opt_text_or_splice(size),
            span: *span,
        },
        Operand::Ind { parts, size, span } => {
            let mut out: Vec<(Expr, Option<TextOrSplice>)> = Vec::new();
            let mut i: usize = 0;
            while i < parts.len()
                invariant
                    i <= parts@.len(),
                    out@.len() == i,
                    same_parts(out@, parts@, i as int),
                decreases parts@.len() - i,
            {
                let p = &parts[i];
                let ghost before = out@;
                out.push((clone_expr(&p.0), clone_opt_text_or_splice(&p.1)));
                proof {
                    lemma_same_parts_ext(before, out@, parts@, i as int);
                }
                i = i + 1;
            }
            Operand::Ind { parts: out, size: clone_opt_text_or_splice(size), span: *span }
        },
        Operand::DispInd { disp, inner, span } => Operand::DispInd {
            disp: clone_expr(disp),
            inner: Box::new(clone_operand(inner)),
            span: *span,
        },
        Operand::PreDec(inner) => Operand::PreDec(Box::new(clone_operand(inner))),
        Operand::PostInc(inner) => Operand::PostInc(Box::new(clone_operand(inner))),
        Operand::Splice(e) => Operand::Splice(clone_expr(e)),
    }
}

proof fn lemma_same_parts_ext(
    a: Seq<(Expr, Option<TextOrSplice>)>,
    a2: Seq<(Expr, Option<TextOrSplice>)>,
    b: Seq<(Expr, Option<TextOrSplice>)>,
    n: int,
)
    requires
        0 <= n <= a.len(),
        n <= a2.len(),
        forall|k: int| 0 <= k < n ==> a[k] == a2[k],
        same_parts(a, b, n),
    ensures
        same_parts(a2, b, n),
    decreases n,
{
    if n > 0 {
        lemma_same_parts_ext(a, a2, b, n - 1);
    }
}

} // verus!
