//! The operand recognizers `asm { }` instantiation leans on: size suffixes,
//! register names, bare symbols and field displacements, PC-relative shapes,
//! and the `movem` register-list mask.
use crate::ast::{
    AsmStmt, clone_expr, clone_path, expr_span, expr_span_of, same_expr, same_path, Arg, BinOp, Expr, Operand,
    TextOrSplice,
};
use crate::value::Span;
use crate::eval::text::str_eq;
use crate::value::{reg_named, Reg, Width};
use vstd::prelude::*;

verus! {

/// The width a literal size suffix spells.
pub open spec fn width_of_text(t: Seq<char>) -> Option<Width> {
    if t == "b"@ {
        Some(Width::B)
    } else if t == "w"@ {
        Some(Width::W)
    } else if t == "l"@ {
        Some(Width::L)
    } else if t == "s"@ {
        Some(Width::S)
    } else {
        None
    }
}

/// A literal size-suffix string (`b`/`w`/`l`/`s`) to its [`Width`].
pub fn width_from_text(t: &str) -> (r: Option<Width>)
    ensures
        r == width_of_text(t@),
{
    if str_eq(t, "b") {
        Some(Width::B)
    } else if str_eq(t, "w") {
        Some(Width::W)
    } else if str_eq(t, "l") {
        Some(Width::L)
    } else if str_eq(t, "s") {
        Some(Width::S)
    } else {
        None
    }
}

/// A register name (`d0`..`d7`, `a0`..`a7`, `sp`) to its [`Reg`], else
/// `None`.
pub fn reg_from_name(name: &str) -> (r: Option<Reg>)
    ensures
        r == reg_named(name@),
{
    Reg::from_name(name)
}

/// The one segment of a single-segment path expression.
pub open spec fn single_segment(e: Expr) -> Option<Seq<char>> {
    match e {
        Expr::Path(p) => if p.segments@.len() == 1 {
            Some(p.segments@[0]@)
        } else {
            None
        },
        _ => None,
    }
}

/// The bare symbol a single-segment path denotes: a name that is not a
/// register-class word (`d0`..`a7`, `sp`, `sr`, `ccr`).
pub open spec fn bare_symbol_spec(e: Expr) -> Option<Seq<char>> {
    match single_segment(e) {
        Some(seg) => if reg_named(seg) is Some || seg == "sr"@ || seg == "ccr"@ {
            None
        } else {
            Some(seg)
        },
        None => None,
    }
}

/// The bare-symbol operand a single-segment path denotes: a name that is NOT
/// a register-class word (`d0`..`a7`/`sp`/`sr`/`ccr`). `None` for
/// multi-segment paths and register words.
pub fn bare_symbol_seg(e: &Expr) -> (r: Option<&str>)
    ensures
        match bare_symbol_spec(*e) {
            Some(s) => r matches Some(x) && x@ == s,
            None => r is None,
        },
{
    let Expr::Path(p) = e else { return None };
    if p.segments.len() != 1 {
        return None;
    }
    let seg = p.segments[0].as_str();
    if reg_from_name(seg).is_some() || str_eq(seg, "sr") || str_eq(seg, "ccr") {
        return None;
    }
    Some(seg)
}

/// The register's bit in the canonical `movem` mask: `d0`..`d7` are bits
/// 0..7, `a0`..`a7` bits 8..15.
pub open spec fn reg_bit(r: Reg) -> u8 {
    match r {
        Reg::D0 => 0,
        Reg::D1 => 1,
        Reg::D2 => 2,
        Reg::D3 => 3,
        Reg::D4 => 4,
        Reg::D5 => 5,
        Reg::D6 => 6,
        Reg::D7 => 7,
        Reg::A0 => 8,
        Reg::A1 => 9,
        Reg::A2 => 10,
        Reg::A3 => 11,
        Reg::A4 => 12,
        Reg::A5 => 13,
        Reg::A6 => 14,
        Reg::A7 => 15,
    }
}

/// The register-list bit index of a single [`Reg`] in the canonical `movem`
/// mask (bit 0 = D0 .. bit 7 = D7, bit 8 = A0 .. bit 15 = A7).
pub fn reg_list_bit(r: Reg) -> (b: u8)
    ensures
        b == reg_bit(r),
        b < 16,
{
    match r {
        Reg::D0 => 0,
        Reg::D1 => 1,
        Reg::D2 => 2,
        Reg::D3 => 3,
        Reg::D4 => 4,
        Reg::D5 => 5,
        Reg::D6 => 6,
        Reg::D7 => 7,
        Reg::A0 => 8,
        Reg::A1 => 9,
        Reg::A2 => 10,
        Reg::A3 => 11,
        Reg::A4 => 12,
        Reg::A5 => 13,
        Reg::A6 => 14,
        Reg::A7 => 15,
    }
}

/// How a register-list item is joined to the PREVIOUS item: `Union` (`/`,
/// and the first item's own separator) or `Range` (`-`, forming a `lo-hi`
/// pair with its predecessor).
#[derive(Clone, Copy, Debug, PartialEq, Eq, Structural)]
pub enum ReglistSep {
    Union,
    Range,
}

/// `s` with its first item re-marked as a union.
pub open spec fn mark_union(s: Seq<(Reg, ReglistSep)>) -> Seq<(Reg, ReglistSep)> {
    if s.len() > 0 {
        s.update(0, (s[0].0, ReglistSep::Union))
    } else {
        s
    }
}

/// The flat left-to-right `(register, separator)` sequence a register-list
/// expression tree spells, `first` telling whether nothing precedes it.
/// `None` when any leaf is not a single-segment register name or a node is
/// neither `-` nor `/`.
pub open spec fn flatten_spec(e: Expr, first: bool) -> Option<Seq<(Reg, ReglistSep)>>
    decreases e,
{
    match e {
        Expr::Path(p) => if p.segments@.len() == 1 {
            match reg_named(p.segments@[0]@) {
                Some(r) => Some(
                    seq![
                        (r, if first {
                            ReglistSep::Union
                        } else {
                            ReglistSep::Range
                        }),
                    ],
                ),
                None => None,
            }
        } else {
            None
        },
        Expr::Binary { op, lhs, rhs, .. } => match op {
            BinOp::Sub => match flatten_spec(*lhs, first) {
                Some(a) => match flatten_spec(*rhs, false) {
                    Some(b) => Some(a + b),
                    None => None,
                },
                None => None,
            },
            BinOp::Div => match flatten_spec(*lhs, first) {
                Some(a) => match flatten_spec(*rhs, false) {
                    Some(b) => Some(a + mark_union(b)),
                    None => None,
                },
                None => None,
            },
            _ => None,
        },
        _ => None,
    }
}

/// A flattened list is never empty, and leads with a union when nothing
/// preceded it.
pub proof fn lemma_flatten_leads(e: Expr, first: bool)
    ensures
        flatten_spec(e, first) matches Some(s) ==> s.len() > 0 && (first ==> s[0].1
            == ReglistSep::Union),
    decreases e,
{
    if let Expr::Binary { op, lhs, rhs, .. } = e {
        lemma_flatten_leads(*lhs, first);
        lemma_flatten_leads(*rhs, false);
    }
}

/// Re-linearize a `movem` register-list expression tree back into the flat
/// left-to-right `(register, separator-before-it)` sequence the source wrote,
/// undoing the arithmetic-precedence grouping (`/` binds tighter than `-`).
/// On success the items are appended to `out`; `None` when any leaf is not a
/// bare single-segment register name.
pub fn flatten_reglist_expr(expr: &Expr, out: &mut Vec<(Reg, ReglistSep)>) -> (r: Option<()>)
    ensures
        match flatten_spec(*expr, old(out)@.len() == 0) {
            Some(s) => r is Some && final(out)@ == old(out)@ + s,
            None => r is None,
        },
    decreases expr,
{
    match expr {
        Expr::Path(p) => {
            if p.segments.len() != 1 {
                return None;
            }
            let r = reg_from_name(p.segments[0].as_str())?;
            let sep = if out.len() == 0 {
                ReglistSep::Union
            } else {
                ReglistSep::Range
            };
            let ghost before = out@;
            out.push((r, sep));
            assert(out@ =~= before + seq![(r, sep)]);
            Some(())
        },
        Expr::Binary { op: BinOp::Sub, lhs, rhs, .. } => {
            let ghost before = out@;
            flatten_reglist_expr(lhs, out)?;
            proof {
                lemma_flatten_leads(**lhs, before.len() == 0);
            }
            flatten_reglist_expr(rhs, out)?;
            proof {
                let a = flatten_spec(**lhs, before.len() == 0)->0;
                let b = flatten_spec(**rhs, false)->0;
                assert(out@ =~= before + (a + b));
            }
            Some(())
        },
        Expr::Binary { op: BinOp::Div, lhs, rhs, .. } => {
            let ghost before = out@;
            flatten_reglist_expr(lhs, out)?;
            proof {
                lemma_flatten_leads(**lhs, before.len() == 0);
            }
            let at = out.len();
            flatten_reglist_expr(rhs, out)?;
            proof {
                lemma_flatten_leads(**rhs, false);
            }
            let ghost b = flatten_spec(**rhs, false)->0;
            if at < out.len() {
                let reg = out[at].0;
                out.set(at, (reg, ReglistSep::Union));
            }
            proof {
                let a = flatten_spec(**lhs, before.len() == 0)->0;
                assert(out@ =~= before + (a + mark_union(b)));
            }
            Some(())
        },
        _ => None,
    }
}

/// The mask bits `lo..=hi`.
pub open spec fn range_bits(lo: u8, hi: u8) -> u16
    decreases hi,
{
    if hi < lo || hi >= 16 {
        0
    } else if hi == lo {
        1u16 << lo
    } else {
        range_bits(lo, (hi - 1) as u8) | (1u16 << hi)
    }
}

/// The mask the first `n` flattened items give: a union item sets its bit, a
/// range item sets every bit from its predecessor's to its own; a range that
/// runs backwards gives `None`.
pub open spec fn movem_mask(items: Seq<(Reg, ReglistSep)>, n: int) -> Option<u16>
    decreases n,
{
    if n <= 0 {
        Some(0)
    } else {
        match movem_mask(items, n - 1) {
            None => None,
            Some(m) => {
                let reg = items[n - 1].0;
                match items[n - 1].1 {
                    ReglistSep::Range => {
                        let lo = reg_bit(items[n - 2].0);
                        let hi = reg_bit(reg);
                        if lo > hi {
                            None
                        } else {
                            Some(m | range_bits(lo, hi))
                        }
                    },
                    ReglistSep::Union => Some(m | (1u16 << reg_bit(reg))),
                }
            },
        }
    }
}

/// The canonical mask a `movem` register-list operand spells; `None` for any
/// other operand.
pub open spec fn movem_reg_list_spec(op: Operand) -> Option<u16> {
    match op {
        Operand::Plain { expr, size: None, .. } => match flatten_spec(expr, true) {
            Some(items) => movem_mask(items, items.len() as int),
            None => None,
        },
        _ => None,
    }
}

proof fn lemma_mask_none_persists(items: Seq<(Reg, ReglistSep)>, n: int, m: int)
    requires
        n <= m,
        movem_mask(items, n) is None,
    ensures
        movem_mask(items, m) is None,
    decreases m - n,
{
    if n < m {
        lemma_mask_none_persists(items, n, m - 1);
    }
}

fn bits_from_to(lo: u8, hi: u8) -> (m: u16)
    requires
        lo <= hi < 16,
    ensures
        m == range_bits(lo, hi),
{
    let mut acc: u16 = 1u16 << lo;
    let mut b: u8 = lo;
    while b < hi
        invariant
            lo <= b <= hi < 16,
            acc == range_bits(lo, b),
        decreases hi - b,
    {
        b = b + 1;
        acc = acc | (1u16 << b);
    }
    acc
}

/// If `op` is a `movem` register-list operand (`d0-d7/a0-a6`, `a2/d2`, `d0`,
/// `sp`, a `d`-to-`a` crossing range), its canonical 16-bit mask; else `None`.
pub fn movem_reg_list(op: &Operand) -> (r: Option<u16>)
    ensures
        r == movem_reg_list_spec(*op),
{
    let Operand::Plain { expr, size: None, .. } = op else { return None };
    let mut items: Vec<(Reg, ReglistSep)> = Vec::new();
    flatten_reglist_expr(expr, &mut items)?;
    proof {
        assert(items@ =~= flatten_spec(*expr, true)->0);
        lemma_flatten_leads(*expr, true);
    }
    let mut mask: u16 = 0;
    let mut idx: usize = 0;
    while idx < items.len()
        invariant
            idx <= items@.len(),
            items@.len() > 0,
            items@[0].1 == ReglistSep::Union,
            movem_reg_list_spec(*op) == movem_mask(items@, items@.len() as int),
            movem_mask(items@, idx as int) == Some(mask),
        decreases items@.len() - idx,
    {
        let (reg, sep) = items[idx];
        match sep {
            ReglistSep::Range => {
                let (prev_reg, _) = items[idx - 1];
                let lo = reg_list_bit(prev_reg);
                let hi = reg_list_bit(reg);
                if lo > hi {
                    proof {
                        assert(items@[idx as int] == (reg, sep));
                        assert(items@[idx - 1] == (prev_reg, items@[idx - 1].1));
                        assert(movem_mask(items@, idx + 1) is None);
                        lemma_mask_none_persists(items@, idx + 1, items@.len() as int);
                    }
                    return None;
                }
                let span = bits_from_to(lo, hi);
                mask = mask | span;
            },
            ReglistSep::Union => {
                let b = reg_list_bit(reg);
                mask = mask | (1u16 << b);
            },
        }
        idx = idx + 1;
    }
    Some(mask)
}

/// Whether an expression is the literal bareword `pc`.
pub open spec fn is_pc(e: Expr) -> bool {
    single_segment(e) == Some("pc"@)
}

/// The PC-relative shape of a `Sym(...)` inner operand whose first part is
/// the bareword `pc`.
pub enum PcRelShape<'a> {
    /// `Sym(pc)`: plain PC-relative.
    Plain,
    /// `Sym(pc,Xn[.size])`: PC-indexed, with the index part's expression and
    /// its optional size suffix.
    Indexed { xn_expr: &'a Expr, xn_size: Option<&'a TextOrSplice> },
}

fn is_pc_exec(e: &Expr) -> (b: bool)
    ensures
        b == is_pc(*e),
{
    proof {
        reveal_strlit("pc");
    }
    match e {
        Expr::Path(p) => p.segments.len() == 1 && str_eq(p.segments[0].as_str(), "pc"),
        _ => false,
    }
}

/// The PC-relative shape of an inner operand: `Plain` for `(pc)` (one part),
/// `Indexed` for `(pc, Xn[.size])` (two parts), the first part being the
/// bareword `pc` with no size suffix. Any other shape gives `None`.
pub fn pc_rel_shape(inner: &Operand) -> (r: Option<PcRelShape<'_>>)
    ensures
        match *inner {
            Operand::Ind { parts, .. } => {
                let ps = parts@;
                if ps.len() == 1 && ps[0].1 is None && is_pc(ps[0].0) {
                    r matches Some(PcRelShape::Plain)
                } else if ps.len() == 2 && ps[0].1 is None && is_pc(ps[0].0) {
                    r matches Some(PcRelShape::Indexed { xn_expr, xn_size }) && *xn_expr == ps[1].0
                        && match xn_size {
                        Some(s) => ps[1].1 == Some(*s),
                        None => ps[1].1 is None,
                    }
                } else {
                    r is None
                }
            },
            _ => r is None,
        },
{
    let Operand::Ind { parts, .. } = inner else { return None };
    if parts.len() == 1 && parts[0].1.is_none() && is_pc_exec(&parts[0].0) {
        return Some(PcRelShape::Plain);
    }
    if parts.len() == 2 && parts[0].1.is_none() && is_pc_exec(&parts[0].0) {
        let xn_size = match &parts[1].1 {
            Some(s) => Some(s),
            None => None,
        };
        return Some(PcRelShape::Indexed { xn_expr: &parts[1].0, xn_size });
    }
    None
}

/// The single bare identifier of a displacement expression, if it is exactly
/// a one-segment path that does not spell a register.
pub fn single_segment_field(disp: &Expr) -> (r: Option<&str>)
    ensures
        match single_segment(*disp) {
            Some(seg) => if reg_named(seg) is None {
                r matches Some(s) && s@ == seg
            } else {
                r is None
            },
            None => r is None,
        },
{
    if let Expr::Path(p) = disp {
        if p.segments.len() == 1 && reg_from_name(p.segments[0].as_str()).is_none() {
            return Some(p.segments[0].as_str());
        }
    }
    None
}

/// The `(qualifier, field)` of a displacement expression that is exactly a
/// two-segment path (`Qual.field`); `None` for any other shape.
pub fn two_segment_field(disp: &Expr) -> (r: Option<(&str, &str)>)
    ensures
        match *disp {
            Expr::Path(p) => if p.segments@.len() == 2 {
                r matches Some((q, f)) && q@ == p.segments@[0]@ && f@ == p.segments@[1]@
            } else {
                r is None
            },
            _ => r is None,
        },
{
    if let Expr::Path(p) = disp {
        if p.segments.len() == 2 {
            return Some((p.segments[0].as_str(), p.segments[1].as_str()));
        }
    }
    None
}

/// A bare data or address register: a single-segment register path with no
/// size suffix.
pub open spec fn register_operand(op: Operand) -> bool {
    op matches Operand::Plain { expr, size: None, .. } && match single_segment(expr) {
        Some(seg) => reg_named(seg) is Some,
        None => false,
    }
}

/// Whether a parsed operand is a bare data or address register (see
/// [`register_operand`]).
pub fn operand_is_register(op: &Operand) -> (b: bool)
    ensures
        b == register_operand(*op),
{
    let Operand::Plain { expr: Expr::Path(p), size: None, .. } = op else { return false };
    p.segments.len() == 1 && reg_from_name(p.segments[0].as_str()).is_some()
}

/// The argument a parsed operand reverses to, for a bare statement call: a
/// bare unsized expression is itself; a folded call `callee(parts)` (a path
/// displacement over an unsized indirect whose parts carry no size) is that
/// call with one positional argument per part; every other shape is `None`.
/// The argument is positional and spans its value.
pub open spec fn operand_to_arg_spec(op: Operand, r: Option<Arg>) -> bool {
    match op {
        Operand::Plain { expr, size: None, .. } => r matches Some(a) && a.name is None && same_expr(
            a.value,
            expr,
        ) && a.span == expr_span_of(expr),
        Operand::DispInd { disp: Expr::Path(callee), inner, span } => match *inner {
            Operand::Ind { parts, size: None, .. } => if forall|i: int|
                0 <= i < parts@.len() ==> (#[trigger] parts@[i]).1 is None {
                &&& r matches Some(a)
                &&& a.name is None
                &&& a.span == span
                &&& a.value matches Expr::Call { callee: c, args, span: s }
                &&& same_path(c, callee)
                &&& s == span
                &&& args@.len() == parts@.len()
                &&& forall|i: int|
                    0 <= i < args@.len() ==> {
                        &&& (#[trigger] args@[i]).name is None
                        &&& same_expr(args@[i].value, parts@[i].0)
                        &&& args@[i].span == expr_span_of(parts@[i].0)
                    }
            } else {
                r is None
            },
            _ => r is None,
        },
        _ => r is None,
    }
}

/// Reverse a parsed instruction operand into a call argument for a bare
/// statement call: a bare unsized expression (a register, a path, an
/// integer, a call), or the folded-call shape `inner(2)` that the parser
/// reads as displacement-indexed addressing. Any addressing-mode-only shape
/// (`#imm`, `(a0)`, `-(a7)`, `(a0)+`, a sized operand, a splice) is not a
/// call argument and gives `None`. The argument is always positional.
pub fn operand_to_arg(op: &Operand) -> (r: Option<Arg>)
    ensures
        operand_to_arg_spec(*op, r),
{
    let value = match op {
        Operand::Plain { expr, size: None, .. } => clone_expr(expr),
        Operand::DispInd { disp: Expr::Path(callee), inner, span } => {
            let Operand::Ind { parts, size: None, .. } = &**inner else { return None };
            let mut cargs: Vec<Arg> = Vec::new();
            let mut i: usize = 0;
            while i < parts.len()
                invariant
                    i <= parts@.len(),
                    cargs@.len() == i,
                    *op matches Operand::DispInd { disp: Expr::Path(c), inner: inn, span: s } && (c
                        == *callee && s == *span && (*inn matches Operand::Ind {
                        parts: ps,
                        size: None,
                        ..
                    } && ps == *parts)),
                    forall|k: int| 0 <= k < i ==> (#[trigger] parts@[k]).1 is None,
                    forall|k: int|
                        0 <= k < i ==> {
                            &&& (#[trigger] cargs@[k]).name is None
                            &&& same_expr(cargs@[k].value, parts@[k].0)
                            &&& cargs@[k].span == expr_span_of(parts@[k].0)
                        },
                decreases parts@.len() - i,
            {
                let part = &parts[i];
                if part.1.is_some() {
                    assert(parts@[i as int].1 is Some);
                    return None;
                }
                let v = clone_expr(&part.0);
                cargs.push(Arg { name: None, value: v, span: expr_span(&part.0) });
                i = i + 1;
            }
            Expr::Call { callee: clone_path(callee), args: cargs, span: *span }
        },
        _ => return None,
    };
    let span = expr_span(&value);
    Some(Arg { name: None, value, span })
}

/// The source span of an operand.
pub open spec fn operand_span_of(op: Operand) -> Span
    decreases op,
{
    match op {
        Operand::Imm(e) => expr_span_of(e),
        Operand::PreDec(inner) => operand_span_of(*inner),
        Operand::PostInc(inner) => operand_span_of(*inner),
        Operand::Ind { span, .. } => span,
        Operand::DispInd { span, .. } => span,
        Operand::Plain { span, .. } => span,
        Operand::Splice(e) => expr_span_of(e),
    }
}

/// The span of an operand, for diagnostics on the inner-operand paths.
pub fn operand_span(op: &Operand) -> (r: Span)
    ensures
        r == operand_span_of(*op),
    decreases op,
{
    match op {
        Operand::Imm(e) => expr_span(e),
        Operand::PreDec(inner) => operand_span(inner),
        Operand::PostInc(inner) => operand_span(inner),
        Operand::Ind { span, .. } => *span,
        Operand::DispInd { span, .. } => *span,
        Operand::Plain { span, .. } => *span,
        Operand::Splice(e) => expr_span(e),
    }
}

/// The label definitions of a statement, recursively through both arms of a
/// comptime `if`: `(name, export, span)` each, in source order.
pub open spec fn stmt_labels(st: AsmStmt) -> Seq<(Seq<char>, bool, Span)>
    decreases st, 0int,
{
    match st {
        AsmStmt::Label { name, export, span } => seq![(name@, export, span)],
        AsmStmt::If { then, els, .. } => body_labels(then@, then@.len() as int) + match els {
            Some(e) => body_labels(e@, e@.len() as int),
            None => Seq::empty(),
        },
        _ => Seq::empty(),
    }
}

/// The label definitions of the first `n` statements of a body.
pub open spec fn body_labels(body: Seq<AsmStmt>, n: int) -> Seq<(Seq<char>, bool, Span)>
    decreases body, n,
{
    if n <= 0 || n > body.len() {
        Seq::empty()
    } else {
        body_labels(body, n - 1) + stmt_labels(body[n - 1])
    }
}

/// Collect every source-label definition in `body`, recursively through
/// comptime-`if` branches: the label scope is pure syntax, built before any
/// condition is evaluated. Spans ride along so a caller can diagnose an
/// export flag that disagrees between arms.
pub fn collect_labels<'b>(body: &'b [AsmStmt], out: &mut Vec<(&'b str, bool, Span)>)
    ensures
        final(out)@.map_values(|e: (&'b str, bool, Span)| (e.0@, e.1, e.2)) == old(out)@.map_values(
            |e: (&'b str, bool, Span)| (e.0@, e.1, e.2),
        ) + body_labels(body@, body@.len() as int),
    decreases body@,
{
    let ghost start = old(out)@.map_values(|e: (&'b str, bool, Span)| (e.0@, e.1, e.2));
    let mut i: usize = 0;
    while i < body.len()
        invariant
            i <= body@.len(),
            out@.map_values(|e: (&'b str, bool, Span)| (e.0@, e.1, e.2)) == start + body_labels(
                body@,
                i as int,
            ),
        decreases body@.len() - i,
    {
        let ghost before = out@.map_values(|e: (&'b str, bool, Span)| (e.0@, e.1, e.2));
        match &body[i] {
            AsmStmt::Label { name, export, span } => {
                out.push((name.as_str(), *export, *span));
                assert(out@.map_values(|e: (&'b str, bool, Span)| (e.0@, e.1, e.2)) =~= before.push(
                    (name@, *export, *span),
                ));
            },
            AsmStmt::If { then, els, .. } => {
                proof {
                    assert(decreases_to!(body@ => body@[i as int]));
                    assert(decreases_to!(body@[i as int] => body@[i as int]->If_then));
                    assert(decreases_to!(body@[i as int]->If_then => body@[i as int]->If_then@));
                }
                collect_labels(then.as_slice(), out);
                let ghost mid = out@.map_values(|e: (&'b str, bool, Span)| (e.0@, e.1, e.2));
                match els {
                    Some(e) => {
                        proof {
                            assert(decreases_to!(body@ => body@[i as int]));
                            assert(decreases_to!(body@[i as int] => body@[i as int]->If_els));
                            assert(decreases_to!(body@[i as int]->If_els => body@[i as int]->If_els->0));
                            assert(decreases_to!(body@[i as int]->If_els->0 => body@[i as int]->If_els->0@));
                        }
                        collect_labels(e.as_slice(), out);
                    },
                    None => {},
                }
                assert(out@.map_values(|e: (&'b str, bool, Span)| (e.0@, e.1, e.2)) =~= before + stmt_labels(
                    body@[i as int],
                ));
            },
            _ => {},
        }
        assert(body_labels(body@, i + 1) == body_labels(body@, i as int) + stmt_labels(body@[i as int]));
        i = i + 1;
    }
    assert(body_labels(body@, body@.len() as int) == body_labels(body@, i as int));
}

/// Whether bit `k` of a mask is set.
pub open spec fn bit_set(m: u16, k: u8) -> bool {
    (m >> k) & 1u16 == 1u16
}

proof fn lemma_bit_or(a: u16, b: u16, k: u8)
    requires
        k < 16,
    ensures
        bit_set(a | b, k) <==> (bit_set(a, k) || bit_set(b, k)),
{
    assert(((a | b) >> k) & 1u16 == 1u16 <==> ((a >> k) & 1u16 == 1u16 || (b >> k) & 1u16 == 1u16))
        by (bit_vector)
        requires
            k < 16,
    ;
}

proof fn lemma_bit_single(b: u8, k: u8)
    requires
        b < 16,
        k < 16,
    ensures
        bit_set(1u16 << b, k) <==> b == k,
{
    assert(((1u16 << b) >> k) & 1u16 == 1u16 <==> b == k) by (bit_vector)
        requires
            b < 16,
            k < 16,
    ;
}

proof fn lemma_bit_zero(k: u8)
    requires
        k < 16,
    ensures
        !bit_set(0u16, k),
{
    assert((0u16 >> k) & 1u16 != 1u16) by (bit_vector)
        requires
            k < 16,
    ;
}

proof fn lemma_range_bits(lo: u8, hi: u8, k: u8)
    requires
        lo <= hi < 16,
        k < 16,
    ensures
        bit_set(range_bits(lo, hi), k) <==> lo <= k <= hi,
    decreases hi,
{
    if hi == lo {
        lemma_bit_single(lo, k);
    } else {
        lemma_range_bits(lo, (hi - 1) as u8, k);
        lemma_bit_or(range_bits(lo, (hi - 1) as u8), 1u16 << hi, k);
        lemma_bit_single(hi, k);
    }
}

/// Whether item `i` of a flattened register list names mask bit `k`: a union
/// item its own register's bit, a range item every bit from its
/// predecessor's register to its own.
pub open spec fn item_covers(items: Seq<(Reg, ReglistSep)>, i: int, k: u8) -> bool {
    match items[i].1 {
        ReglistSep::Union => reg_bit(items[i].0) == k,
        ReglistSep::Range => reg_bit(items[i - 1].0) <= k <= reg_bit(items[i].0),
    }
}

proof fn lemma_reg_bit_bound(r: Reg)
    ensures
        reg_bit(r) < 16,
{
}

/// The `movem` mask is canonical: bit `k` is set exactly when some item of
/// the list names register bit `k`, directly or inside a range.
pub proof fn law_movem_mask_names_exactly_the_listed_registers(
    items: Seq<(Reg, ReglistSep)>,
    n: int,
    k: u8,
)
    requires
        0 <= n <= items.len(),
        k < 16,
    ensures
        movem_mask(items, n) matches Some(m) ==> (bit_set(m, k) <==> exists|i: int|
            0 <= i < n && #[trigger] item_covers(items, i, k)),
    decreases n,
{
    if n == 0 {
        lemma_bit_zero(k);
    } else {
        law_movem_mask_names_exactly_the_listed_registers(items, n - 1, k);
        if let Some(prev) = movem_mask(items, n - 1) {
            let reg = items[n - 1].0;
            lemma_reg_bit_bound(reg);
            lemma_reg_bit_bound(items[n - 2].0);
            if let Some(m) = movem_mask(items, n) {
                match items[n - 1].1 {
                    ReglistSep::Range => {
                        let lo = reg_bit(items[n - 2].0);
                        let hi = reg_bit(reg);
                        lemma_bit_or(prev, range_bits(lo, hi), k);
                        lemma_range_bits(lo, hi, k);
                    },
                    ReglistSep::Union => {
                        lemma_bit_or(prev, 1u16 << reg_bit(reg), k);
                        lemma_bit_single(reg_bit(reg), k);
                    },
                }
                if bit_set(m, k) && !bit_set(prev, k) {
                    assert(item_covers(items, n - 1, k));
                }
                if exists|i: int| 0 <= i < n && #[trigger] item_covers(items, i, k) {
                    let i = choose|i: int| 0 <= i < n && #[trigger] item_covers(items, i, k);
                    if i < n - 1 {
                        assert(bit_set(prev, k));
                    }
                }
            }
        }
    }
}

} // verus!
