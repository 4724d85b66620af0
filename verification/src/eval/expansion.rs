//! The `assert` / `raise_error` desugar: the exact statement sequence an
//! assertion or a raised error expands to, built directly as syntax for the
//! enclosing body to lower.
//!
//! The `.skip` / `.raise` labels are minted as unique literal symbols
//! (`$diag{n}$skip`), `$`-wrapped so no source spelling can collide with
//! them; each is used verbatim in both its definition and its reference.
use crate::ast::{
    clone_operand, same_operand, AsmStmt, Expr, InstrLine, Operand, Path, TextOrSplice,
};
use crate::eval::diag::{
    assert_message, assert_message_spec, exit_flag_bytes, is_register_name, parse_num,
    parse_num_spec, register_name, width_letter, AssertParts, Width,
};
use crate::eval::text::{chars_of, dec_digits, push_decimal, trim, trim_range};
use crate::value::Span;
use vstd::prelude::*;
use vstd::utf8::encode_utf8;

verus! {

// ---------------------------------------------------------------------------
// Shapes of the synthesized syntax.
// ---------------------------------------------------------------------------

/// `e` is the single-segment path `seg` at `span`.
pub open spec fn names(e: Expr, seg: Seq<char>, span: Span) -> bool {
    e matches Expr::Path(p) && p.segments@.len() == 1 && p.segments@[0]@ == seg && p.span == span
}

/// `t` is the literal text `s`.
pub open spec fn is_text(t: TextOrSplice, s: Seq<char>) -> bool {
    t matches TextOrSplice::Text(x) && x@ == s
}

/// An optional suffix is the literal `s`, or absent when `s` is.
pub open spec fn is_opt_text(t: Option<TextOrSplice>, s: Option<Seq<char>>) -> bool {
    match s {
        Some(x) => t matches Some(tt) && is_text(tt, x),
        None => t is None,
    }
}

/// `op` is the bare path operand `seg`.
pub open spec fn is_path_op(op: Operand, seg: Seq<char>, span: Span) -> bool {
    op matches Operand::Plain { expr, size: None, span: s } && names(expr, seg, span) && s == span
}

/// `op` is the one-part indirect `(seg)` with the given trailing size.
pub open spec fn is_ind_of(op: Operand, seg: Seq<char>, size: Option<Seq<char>>, span: Span) -> bool {
    &&& op matches Operand::Ind { parts, size: z, span: s }
    &&& parts@.len() == 1
    &&& names(parts@[0].0, seg, span)
    &&& parts@[0].1 is None
    &&& is_opt_text(z, size)
    &&& s == span
}

/// `-(sp)`.
pub open spec fn is_predec_sp(op: Operand, span: Span) -> bool {
    op matches Operand::PreDec(b) && is_ind_of(*b, "sp"@, None, span)
}

/// `(sp)+`.
pub open spec fn is_postinc_sp(op: Operand, span: Span) -> bool {
    op matches Operand::PostInc(b) && is_ind_of(*b, "sp"@, None, span)
}

/// `1(sp)`.
pub open spec fn is_disp1_sp(op: Operand, span: Span) -> bool {
    op matches Operand::DispInd { disp: Expr::Int(1, s1), inner, span: s2 } && s1 == span && s2
        == span && is_ind_of(*inner, "sp"@, None, span)
}

/// `label(pc)`.
pub open spec fn is_pcrel(op: Operand, label: Seq<char>, span: Span) -> bool {
    op matches Operand::DispInd { disp, inner, span: s } && names(disp, label, span) && is_ind_of(
        *inner,
        "pc"@,
        None,
        span,
    ) && s == span
}

/// `(sym).l`.
pub open spec fn is_abs_l(op: Operand, sym: Seq<char>, span: Span) -> bool {
    is_ind_of(op, sym, Some("l"@), span)
}

/// One `dc.b` element: the byte as an integer operand.
pub open spec fn is_dc_byte(op: Operand, b: u8, span: Span) -> bool {
    op matches Operand::Plain { expr: Expr::Int(v, s1), size: None, span: s2 } && v == b as i64
        && s1 == span && s2 == span
}

/// `st` is the instruction `m` with the given size suffix, at `span`.
pub open spec fn is_instr(st: AsmStmt, m: Seq<char>, size: Option<Seq<char>>, span: Span) -> bool {
    &&& st matches AsmStmt::Instr(line)
    &&& line.mnemonic@.len() == 1
    &&& is_text(line.mnemonic@[0], m)
    &&& is_opt_text(line.size, size)
    &&& line.span == span
}

/// The operands of an instruction statement.
pub open spec fn operands_of(st: AsmStmt) -> Seq<Operand> {
    match st {
        AsmStmt::Instr(line) => line.operands@,
        _ => Seq::empty(),
    }
}

/// `st` defines the non-exported label `name`.
pub open spec fn is_label_stmt(st: AsmStmt, name: Seq<char>, span: Span) -> bool {
    st matches AsmStmt::Label { name: n, export: false, span: s } && n@ == name && s == span
}

/// `st` is `dc.b` over `bytes`, one integer operand per byte.
pub open spec fn is_dc_b(st: AsmStmt, bytes: Seq<u8>, span: Span) -> bool {
    &&& is_instr(st, "dc"@, Some("b"@), span)
    &&& operands_of(st).len() == bytes.len()
    &&& forall|i: int| 0 <= i < bytes.len() ==> is_dc_byte(#[trigger] operands_of(st)[i], bytes[i], span)
}

/// `move.w sr, -(sp)`: the status-register save.
pub open spec fn is_sr_push(st: AsmStmt, span: Span) -> bool {
    &&& is_instr(st, "move"@, Some("w"@), span)
    &&& operands_of(st).len() == 2
    &&& is_path_op(operands_of(st)[0], "sr"@, span)
    &&& is_predec_sp(operands_of(st)[1], span)
}

/// `move.w (sp)+, sr`: the status-register restore.
pub open spec fn is_sr_pop(st: AsmStmt, span: Span) -> bool {
    &&& is_instr(st, "move"@, Some("w"@), span)
    &&& operands_of(st).len() == 2
    &&& is_postinc_sp(operands_of(st)[0], span)
    &&& is_path_op(operands_of(st)[1], "sr"@, span)
}

/// `st` is `<m> (sym).l`.
pub open spec fn is_abs_l_jump(st: AsmStmt, m: Seq<char>, sym: Seq<char>, span: Span) -> bool {
    &&& is_instr(st, m, None, span)
    &&& operands_of(st).len() == 1
    &&& is_abs_l(operands_of(st)[0], sym, span)
}

/// The error handler's entry point.
pub open spec fn handler_sym() -> Seq<char> {
    "MDDBG__ErrorHandler"@
}

/// The handler's page controller, jumped to after the inline data.
pub open spec fn pages_sym() -> Seq<char> {
    "MDDBG__ErrorHandler_PagesController"@
}

/// The exit-flag byte(s): `$A0 $00` (align bit and pad) when the flag lands
/// at an even offset, `$20` otherwise.
pub open spec fn exit_flag_seq(pad: bool) -> Seq<u8> {
    if pad {
        seq![0xA0u8, 0x00u8]
    } else {
        seq![0x20u8]
    }
}

/// The raise tail: `.raise:`, `pea .raise(pc)`, `move.w sr,-(sp)`, the
/// argument pushes, `jsr (handler).l`, the inline message, the exit flag,
/// and `jmp (pages).l`. Every instruction before the message is word-sized,
/// so the flag's offset parity is the message length's: an even-length
/// message takes the padded flag.
pub open spec fn raise_tail_spec(
    out: Seq<AsmStmt>,
    raise: Seq<char>,
    message: Seq<u8>,
    pushes: Seq<AsmStmt>,
    span: Span,
) -> bool {
    let k = pushes.len() as int;
    &&& out.len() == k + 7
    &&& is_label_stmt(out[0], raise, span)
    &&& is_instr(out[1], "pea"@, None, span)
    &&& operands_of(out[1]).len() == 1
    &&& is_pcrel(operands_of(out[1])[0], raise, span)
    &&& is_sr_push(out[2], span)
    &&& out.subrange(3, 3 + k) == pushes
    &&& is_abs_l_jump(out[3 + k], "jsr"@, handler_sym(), span)
    &&& is_dc_b(out[4 + k], message, span)
    &&& is_dc_b(out[5 + k], exit_flag_seq(message.len() % 2 == 0), span)
    &&& is_abs_l_jump(out[6 + k], "jmp"@, pages_sym(), span)
}

/// The number of statements an argument push takes.
pub open spec fn push_len(w: Width) -> int {
    match w {
        Width::B => 2,
        _ => 1,
    }
}

/// The shape of an argument push, apart from the pushed operand: `.b` is
/// `subq.w #2,sp` then `move.b <src>,1(sp)`; `.w`/`.l` is
/// `move.<w> <src>,-(sp)`.
pub open spec fn arg_push_shape(out: Seq<AsmStmt>, w: Width, span: Span) -> bool {
    &&& out.len() == push_len(w)
    &&& match w {
        Width::B => {
            &&& is_instr(out[0], "subq"@, Some("w"@), span)
            &&& operands_of(out[0]).len() == 2
            &&& operands_of(out[0])[0] matches Operand::Imm(Expr::Int(2, s)) && s == span
            &&& is_path_op(operands_of(out[0])[1], "sp"@, span)
            &&& is_instr(out[1], "move"@, Some("b"@), span)
            &&& operands_of(out[1]).len() == 2
            &&& is_disp1_sp(operands_of(out[1])[1], span)
        },
        _ => {
            &&& is_instr(out[0], "move"@, Some(seq![width_letter(w)]), span)
            &&& operands_of(out[0]).len() == 2
            &&& is_predec_sp(operands_of(out[0])[1], span)
        },
    }
}

/// The operand an argument push pushes.
pub open spec fn pushed_operand(out: Seq<AsmStmt>, w: Width) -> Operand {
    match w {
        Width::B => operands_of(out[1])[0],
        _ => operands_of(out[0])[0],
    }
}

/// A minted diagnostic label: `$diag<n><tail>`.
pub open spec fn diag_symbol(n: nat, tail: Seq<char>) -> Seq<char> {
    "$diag"@ + dec_digits(n) + tail
}

/// The full `assert` expansion, eleven steps in order: save SR; `cmp.<w>
/// dest,src` (or `tst.<w> src`); `b<cond>.w .skip`; the raise tail with the
/// auto-message and the push of `src`; `.skip:`; restore SR.
pub open spec fn assert_expansion_spec(out: Seq<AsmStmt>, n: nat, p: AssertParts, span: Span) -> bool {
    let k = push_len(p.width);
    let skip = diag_symbol(n, "$skip"@);
    let raise = diag_symbol(n, "$raise"@);
    let sfx = seq![width_letter(p.width)];
    let message = assert_message_spec(
        p.width,
        encode_utf8(p.src_spelling@),
        encode_utf8(p.cond@),
        match p.dest {
            Some((_, d)) => Some(encode_utf8(d@)),
            None => None,
        },
    );
    let pushes = out.subrange(6, 6 + k);
    &&& out.len() == k + 12
    &&& is_sr_push(out[0], span)
    &&& match p.dest {
        Some((d, _)) => {
            &&& is_instr(out[1], "cmp"@, Some(sfx), span)
            &&& operands_of(out[1]).len() == 2
            &&& same_operand(operands_of(out[1])[0], d)
            &&& same_operand(operands_of(out[1])[1], p.src)
        },
        None => {
            &&& is_instr(out[1], "tst"@, Some(sfx), span)
            &&& operands_of(out[1]).len() == 1
            &&& same_operand(operands_of(out[1])[0], p.src)
        },
    }
    &&& is_instr(out[2], seq!['b'] + p.cond@, Some("w"@), span)
    &&& operands_of(out[2]).len() == 1
    &&& is_path_op(operands_of(out[2])[0], skip, span)
    &&& raise_tail_spec(out.subrange(3, 10 + k), raise, message, pushes, span)
    &&& arg_push_shape(pushes, p.width, span)
    &&& same_operand(pushed_operand(pushes, p.width), p.src)
    &&& is_label_stmt(out[10 + k], skip, span)
    &&& is_sr_pop(out[11 + k], span)
}

// ---------------------------------------------------------------------------
// Builders.
// ---------------------------------------------------------------------------

fn name_expr(seg: &str, span: Span) -> (e: Expr)
    ensures
        names(e, seg@, span),
{
    let segments = vec![seg.to_owned()];
    assert(segments@[0]@ == seg@);
    Expr::Path(Path { segments, span })
}

/// One byte of inline data as a `dc.b` element operand.
fn dc_byte_op(b: u8, span: Span) -> (op: Operand)
    ensures
        is_dc_byte(op, b, span),
{
    Operand::Plain { expr: Expr::Int(b as i64, span), size: None, span }
}

/// A single-segment path operand (`sr`, `$diag0$skip`, ...).
fn path_op(seg: &str, span: Span) -> (op: Operand)
    ensures
        is_path_op(op, seg@, span),
{
    Operand::Plain { expr: name_expr(seg, span), size: None, span }
}

/// `(sp)`.
fn sp_ind(span: Span) -> (op: Operand)
    ensures
        is_ind_of(op, "sp"@, None, span),
{
    let parts = vec![(name_expr("sp", span), None)];
    Operand::Ind { parts, size: None, span }
}

/// `-(sp)`.
fn predec_sp(span: Span) -> (op: Operand)
    ensures
        is_predec_sp(op, span),
{
    Operand::PreDec(Box::new(sp_ind(span)))
}

/// `(sp)+`.
fn postinc_sp(span: Span) -> (op: Operand)
    ensures
        is_postinc_sp(op, span),
{
    Operand::PostInc(Box::new(sp_ind(span)))
}

/// `1(sp)`: the `.b` argument slot.
fn disp1_sp(span: Span) -> (op: Operand)
    ensures
        is_disp1_sp(op, span),
{
    Operand::DispInd { disp: Expr::Int(1, span), inner: Box::new(sp_ind(span)), span }
}

/// `label(pc)`.
fn pcrel(label: &str, span: Span) -> (op: Operand)
    ensures
        is_pcrel(op, label@, span),
{
    let parts = vec![(name_expr("pc", span), None)];
    Operand::DispInd {
        disp: name_expr(label, span),
        inner: Box::new(Operand::Ind { parts, size: None, span }),
        span,
    }
}

/// `(sym).l`: an explicit-long absolute indirect naming a link symbol.
fn abs_l(sym: &str, span: Span) -> (op: Operand)
    ensures
        is_abs_l(op, sym@, span),
{
    let parts = vec![(name_expr(sym, span), None)];
    Operand::Ind { parts, size: Some(TextOrSplice::Text("l".to_owned())), span }
}

/// A synthesized instruction line.
fn instr(mnemonic: &str, size: Option<&str>, operands: Vec<Operand>, span: Span) -> (st: AsmStmt)
    ensures
        is_instr(
            st,
            mnemonic@,
            match size {
                Some(s) => Some(s@),
                None => None,
            },
            span,
        ),
        operands_of(st) == operands@,
{
    let parts = vec![TextOrSplice::Text(mnemonic.to_owned())];
    let size = match size {
        Some(s) => Some(TextOrSplice::Text(s.to_owned())),
        None => None,
    };
    AsmStmt::Instr(InstrLine { mnemonic: parts, size, operands, span })
}

/// A synthesized `dc.b` line over `bytes`, one integer cell per byte.
fn dc_b(bytes: &[u8], span: Span) -> (st: AsmStmt)
    ensures
        is_dc_b(st, bytes@, span),
{
    let mut ops: Vec<Operand> = Vec::new();
    let mut i: usize = 0;
    while i < bytes.len()
        invariant
            i <= bytes@.len(),
            ops@.len() == i,
            forall|j: int| 0 <= j < i ==> is_dc_byte(#[trigger] ops@[j], bytes@[j], span),
        decreases bytes@.len() - i,
    {
        ops.push(dc_byte_op(bytes[i], span));
        i = i + 1;
    }
    instr("dc", Some("b"), ops, span)
}

/// A non-exported label definition.
fn label(name: &str, span: Span) -> (st: AsmStmt)
    ensures
        is_label_stmt(st, name@, span),
{
    AsmStmt::Label { name: name.to_owned(), export: false, span }
}

/// The raise tail shared by `assert` (auto-message) and `raise_error` (user
/// fstring); `message` is the full encoded run including its `$00`
/// terminator, `arg_pushes` the already-ordered stack pushes.
fn raise_tail(raise_label: &str, message: &[u8], arg_pushes: Vec<AsmStmt>, span: Span) -> (out: Vec<
    AsmStmt,
>)
    ensures
        raise_tail_spec(out@, raise_label@, message@, arg_pushes@, span),
{
    proof {
        reveal_strlit("MDDBG__ErrorHandler");
        reveal_strlit("MDDBG__ErrorHandler_PagesController");
    }
    let ghost pushes = arg_pushes@;
    let mut out: Vec<AsmStmt> = Vec::new();
    out.push(label(raise_label, span));
    out.push(instr("pea", None, vec![pcrel(raise_label, span)], span));
    out.push(instr("move", Some("w"), vec![path_op("sr", span), predec_sp(span)], span));
    let mut rest = arg_pushes;
    out.append(&mut rest);
    out.push(instr("jsr", None, vec![abs_l("MDDBG__ErrorHandler", span)], span));
    out.push(dc_b(message, span));
    let flag_at_even_offset = message.len() % 2 == 0;
    let flag = exit_flag_bytes(flag_at_even_offset);
    out.push(dc_b(flag.as_slice(), span));
    out.push(instr("jmp", None, vec![abs_l("MDDBG__ErrorHandler_PagesController", span)], span));
    assert(out@.subrange(3, 3 + pushes.len() as int) =~= pushes);
    out
}

/// The argument-push statements for handing `src` to the handler: `.b` is
/// `subq.w #2,sp` + `move.b src,1(sp)` (a two-byte slot, low byte written);
/// `.w`/`.l` is `move.<w> src,-(sp)`.
pub fn arg_push(w: Width, src: Operand, span: Span) -> (out: Vec<AsmStmt>)
    ensures
        arg_push_shape(out@, w, span),
        pushed_operand(out@, w) == src,
{
    match w {
        Width::B => {
            let mut v: Vec<AsmStmt> = Vec::new();
            v.push(
                instr("subq", Some("w"), vec![Operand::Imm(Expr::Int(2, span)), path_op("sp", span)], span),
            );
            v.push(instr("move", Some("b"), vec![src, disp1_sp(span)], span));
            v
        },
        Width::W => {
            proof {
                reveal_strlit("w");
                assert("w"@ =~= seq!['w']);
            }
            vec![instr("move", Some("w"), vec![src, predec_sp(span)], span)]
        },
        Width::L => {
            proof {
                reveal_strlit("l");
                assert("l"@ =~= seq!['l']);
            }
            vec![instr("move", Some("l"), vec![src, predec_sp(span)], span)]
        },
    }
}

/// `$diag<n><tail>`.
fn diag_label(n: u32, tail: &str) -> (s: String)
    ensures
        s@ == diag_symbol(n as nat, tail@),
{
    let mut s = String::from_str("$diag");
    push_decimal(&mut s, n as u64);
    s.append(tail);
    s
}

/// Build the full `assert` expansion (eleven steps in order). `n` is a fresh
/// instantiation id making the `.skip`/`.raise` symbols unique; `p` carries
/// the parsed operands, which ride through unchanged, and `p.src` is also
/// pushed for the handler to display. The message comes from
/// [`assert_message`] over the source spellings.
#[verifier::spinoff_prover]
pub fn build_assert_expansion(n: u32, p: &AssertParts, span: Span) -> (out: Vec<AsmStmt>)
    ensures
        assert_expansion_spec(out@, n as nat, *p, span),
{
    let skip = diag_label(n, "$skip");
    let raise = diag_label(n, "$raise");
    let wsfx = p.width.suffix();
    let mut out: Vec<AsmStmt> = Vec::new();
    out.push(instr("move", Some("w"), vec![path_op("sr", span), predec_sp(span)], span));
    match &p.dest {
        Some((dest, _)) => {
            out.push(instr("cmp", Some(wsfx), vec![clone_operand(dest), clone_operand(&p.src)], span));
        },
        None => {
            out.push(instr("tst", Some(wsfx), vec![clone_operand(&p.src)], span));
        },
    }
    proof {
        reveal_strlit("b");
    }
    let mut branch = String::from_str("b");
    branch.append(p.cond.as_str());
    out.push(instr(branch.as_str(), Some("w"), vec![path_op(skip.as_str(), span)], span));
    let dest_spelling = match &p.dest {
        Some((_, s)) => Some(s.as_str()),
        None => None,
    };
    let message = assert_message(p.width, p.src_spelling.as_str(), p.cond.as_str(), dest_spelling);
    let arg_pushes = arg_push(p.width, clone_operand(&p.src), span);
    let ghost pushes = arg_pushes@;
    let mut tail = raise_tail(raise.as_str(), message.as_slice(), arg_pushes, span);
    let ghost tail_v = tail@;
    out.append(&mut tail);
    out.push(label(skip.as_str(), span));
    out.push(instr("move", Some("w"), vec![postinc_sp(span), path_op("sr", span)], span));
    proof {
        let k = push_len(p.width);
        assert(out@.subrange(3, 10 + k) =~= tail_v);
        assert(out@.subrange(6, 6 + k) =~= tail_v.subrange(3, 3 + k));
        assert(branch@ =~= seq!['b'] + p.cond@);
    }
    out
}

/// Build the `raise_error` expansion: the raise tail alone, with no gate and
/// no compare. `n` mints the unique `.raise` label; `message` is the encoded
/// user fstring (including its `$00`); `arg_pushes` are the per-token pushes
/// in reverse token order.
pub fn build_raise_error_expansion(n: u32, message: &[u8], arg_pushes: Vec<AsmStmt>, span: Span) -> (out:
    Vec<AsmStmt>)
    ensures
        raise_tail_spec(out@, diag_symbol(n as nat, "$raise"@), message@, arg_pushes@, span),
{
    let raise = diag_label(n, "$raise");
    raise_tail(raise.as_str(), message, arg_pushes, span)
}

// ---------------------------------------------------------------------------
// FSTRING argument operands.
// ---------------------------------------------------------------------------

/// A bare symbol name: nonempty, ASCII letters, digits and `_`, not starting
/// with a digit.
pub open spec fn bare_ident(s: Seq<char>) -> bool {
    &&& s.len() > 0
    &&& forall|i: int|
        0 <= i < s.len() ==> (('a' <= #[trigger] s[i] <= 'z') || ('A' <= s[i] <= 'Z') || ('0' <= s[i]
            <= '9') || s[i] == '_')
    &&& !('0' <= s[0] <= '9')
}

/// What an immediate's remainder parses to: a numeric literal that fits an
/// `i64`, else a bare symbol; a literal too large for an `i64` is refused.
pub open spec fn imm_expr_shape(s: Seq<char>, e: Option<Expr>, span: Span) -> bool {
    match parse_num_spec(s) {
        Some(v) => if v <= i64::MAX {
            e matches Some(Expr::Int(x, sp)) && x == v && sp == span
        } else {
            e is None
        },
        None => if bare_ident(s) {
            e matches Some(x) && names(x, s, span)
        } else {
            e is None
        },
    }
}

fn is_ident_char(c: char) -> (b: bool)
    ensures
        b == (('a' <= c <= 'z') || ('A' <= c <= 'Z') || ('0' <= c <= '9') || c == '_'),
{
    ('a' <= c && c <= 'z') || ('A' <= c && c <= 'Z') || ('0' <= c && c <= '9') || c == '_'
}

/// Parse a simple immediate remainder (after `#`): a numeric literal or a
/// bare symbol. `None` for anything else (operators, dots, a literal too
/// wide for an `i64`).
fn parse_imm_expr(s: &str, span: Span) -> (r: Option<Expr>)
    ensures
        imm_expr_shape(s@, r, span),
{
    if let Some(n) = parse_num(s) {
        if n <= 0x7fff_ffff_ffff_ffff {
            return Some(Expr::Int(n as i64, span));
        }
        return None;
    }
    let cs = chars_of(s);
    if cs.len() == 0 {
        return None;
    }
    let mut i: usize = 0;
    while i < cs.len()
        invariant
            i <= cs@.len(),
            cs@ == s@,
            parse_num_spec(s@) is None,
            forall|j: int|
                0 <= j < i ==> (('a' <= #[trigger] cs@[j] <= 'z') || ('A' <= cs@[j] <= 'Z') || ('0'
                    <= cs@[j] <= '9') || cs@[j] == '_'),
        decreases cs@.len() - i,
    {
        if !is_ident_char(cs[i]) {
            assert(!bare_ident(s@)) by {
                assert(s@[i as int] == cs@[i as int]);
            }
            return None;
        }
        i = i + 1;
    }
    if '0' <= cs[0] && cs[0] <= '9' {
        return None;
    }
    Some(name_expr(s, span))
}

/// The operand an FSTRING argument spelling denotes, after trimming: `#`
/// and an immediate (see [`imm_expr_shape`]), or a register name as a bare
/// path; `None` for anything else.
pub open spec fn fstring_arg_shape(spelling: Seq<char>, r: Option<Operand>, span: Span) -> bool {
    let s = trim(spelling);
    if s.len() > 0 && s[0] == '#' {
        let rest = trim(s.drop_first());
        match r {
            Some(Operand::Imm(e)) => imm_expr_shape(rest, Some(e), span),
            None => imm_expr_shape(rest, None, span),
            _ => false,
        }
    } else if register_name(s) {
        r matches Some(op) && is_path_op(op, s, span)
    } else {
        r is None
    }
}

/// Build the operand for an FSTRING argument spelling (`d0`, `#$8000`,
/// ...), enforcing the register-or-immediate limit: a leading `#` is an
/// immediate parsed from the remainder, a register name a plain register
/// operand, anything else `None`.
pub fn fstring_arg_operand(spelling: &str, span: Span) -> (r: Option<Operand>)
    ensures
        fstring_arg_shape(spelling@, r, span),
{
    let cs = chars_of(spelling);
    let (lo, hi) = trim_range(&cs, 0, cs.len());
    assert(cs@.subrange(0, cs@.len() as int) =~= spelling@);
    let s = spelling.substring_char(lo, hi);
    if lo < hi && cs[lo] == '#' {
        let rest = s.substring_char(1, hi - lo);
        assert(rest@ =~= s@.drop_first());
        let rcs = chars_of(rest);
        let (rlo, rhi) = trim_range(&rcs, 0, rcs.len());
        assert(rcs@.subrange(0, rcs@.len() as int) =~= rest@);
        let imm = rest.substring_char(rlo, rhi);
        return match parse_imm_expr(imm, span) {
            Some(e) => Some(Operand::Imm(e)),
            None => None,
        };
    }
    if is_register_name(s) {
        return Some(path_op(s, span));
    }
    None
}

// ---------------------------------------------------------------------------
// Laws.
// ---------------------------------------------------------------------------

proof fn lemma_dec_digits_shape(n: nat)
    ensures
        dec_digits(n).len() >= 1,
        n >= 10 ==> dec_digits(n).len() >= 2,
        forall|i: int| 0 <= i < dec_digits(n).len() ==> '0' <= #[trigger] dec_digits(n)[i] <= '9',
    decreases n,
{
    if n >= 10 {
        lemma_dec_digits_shape(n / 10);
        let d = dec_digits(n / 10);
        assert forall|i: int| 0 <= i < dec_digits(n).len() implies '0' <= #[trigger] dec_digits(n)[i]
            <= '9' by {
            if i < d.len() {
                assert(dec_digits(n)[i] == d[i]);
            }
        }
    }
}

proof fn lemma_dec_digits_injective(a: nat, b: nat)
    requires
        dec_digits(a) == dec_digits(b),
    ensures
        a == b,
    decreases a,
{
    lemma_dec_digits_shape(a);
    lemma_dec_digits_shape(b);
    if a < 10 || b < 10 {
        assert(a < 10 && b < 10);
        assert(dec_digits(a)[0] == dec_digits(b)[0]);
    } else {
        let da = dec_digits(a);
        let db = dec_digits(b);
        assert(da.drop_last() =~= dec_digits(a / 10));
        assert(db.drop_last() =~= dec_digits(b / 10));
        lemma_dec_digits_injective(a / 10, b / 10);
        assert(da.last() == db.last());
    }
}

/// The symbols minted for diagnostic expansions never collide: two
/// instantiation ids, or the `.skip` and `.raise` of one, always spell
/// different labels.
pub proof fn law_minted_labels_are_unique(n1: nat, t1: Seq<char>, n2: nat, t2: Seq<char>)
    requires
        t1 == "$skip"@ || t1 == "$raise"@,
        t2 == "$skip"@ || t2 == "$raise"@,
        n1 != n2 || t1 != t2,
    ensures
        diag_symbol(n1, t1) != diag_symbol(n2, t2),
{
    reveal_strlit("$diag");
    reveal_strlit("$skip");
    reveal_strlit("$raise");
    let d1 = dec_digits(n1);
    let d2 = dec_digits(n2);
    lemma_dec_digits_shape(n1);
    lemma_dec_digits_shape(n2);
    let s1 = diag_symbol(n1, t1);
    let s2 = diag_symbol(n2, t2);
    assert(t1[0] == '$' && t2[0] == '$');
    let l1 = d1.len() as int;
    let l2 = d2.len() as int;
    if s1 == s2 {
        assert(s1.len() == 5 + l1 + t1.len());
        if l1 < l2 {
            assert(s1[5 + l1] == t1[0]);
            assert(s2[5 + l1] == d2[l1]);
        } else if l2 < l1 {
            assert(s2[5 + l2] == t2[0]);
            assert(s1[5 + l2] == d1[l2]);
        } else {
            assert(d1 =~= s1.subrange(5, 5 + l1));
            assert(d2 =~= s2.subrange(5, 5 + l2));
            lemma_dec_digits_injective(n1, n2);
            assert(t1 =~= s1.subrange(5 + l1, s1.len() as int));
            assert(t2 =~= s2.subrange(5 + l2, s2.len() as int));
        }
    }
}

} // verus!
