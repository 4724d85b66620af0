//! The decisions a proc body's statement lowering makes before it emits
//! anything: whether a `let` names a register, what a `todo!` /
//! `unreachable!` hole lowers to, whether an `assert` is well-formed, and
//! the whole `raise_error` expansion from its format string.
use crate::ast::{AsmStmt, Operand};
use crate::eval::diag::{args_view, encode_fstring, encode_spec, ArgModel, AssertParts};
use crate::eval::expansion::{
    arg_push, arg_push_shape, build_raise_error_expansion, diag_symbol, fstring_arg_operand,
    fstring_arg_shape, push_len, pushed_operand, raise_tail_spec,
};
use crate::eval::operands::{operand_is_register, reg_from_name, register_operand};
use crate::value::{reg_named, CodeItem, Cpu, Reg, Span};
use vstd::prelude::*;

verus! {

// ---------------------------------------------------------------------------
// `let <reg>: <Type>`
// ---------------------------------------------------------------------------

/// The error for a `let` whose name is not a register.
pub open spec fn let_not_register_msg(reg: Seq<char>) -> Seq<char> {
    "[asm.let-not-register] `"@ + reg
        + "` is not a register; `let <reg>: <Type>` types an address/data register (aN/dN)"@
}

/// The register a `let <reg>: <Type>` binds, or the error when the name is
/// not a register.
pub fn let_register(reg: &str) -> (r: Result<Reg, String>)
    ensures
        match reg_named(reg@) {
            Some(x) => r == Ok::<Reg, String>(x),
            None => r matches Err(m) && m@ == let_not_register_msg(reg@),
        },
{
    match reg_from_name(reg) {
        Some(x) => Ok(x),
        None => {
            let mut m = String::from_str("[asm.let-not-register] `");
            m.append(reg);
            m.append(
                "` is not a register; `let <reg>: <Type>` types an address/data register (aN/dN)",
            );
            Err(m)
        },
    }
}

// ---------------------------------------------------------------------------
// `todo!` / `unreachable!`
// ---------------------------------------------------------------------------

/// Which hole a trap statement marks.
#[derive(Clone, Copy, Debug, PartialEq, Eq, Structural)]
pub enum TrapKind {
    Todo,
    Unreachable,
}

/// What a trap statement lowers to: an error (and nothing else), or an
/// optional warning and the one instruction it assembles to.
pub struct TrapLowering {
    pub error: Option<String>,
    pub warning: Option<String>,
    pub item: Option<CodeItem>,
}

/// The error for a trap in a Z80 body.
pub open spec fn trap_non_68k_msg() -> Seq<char> {
    "[todo.non-68k] `todo!`/`unreachable!` are 68k-only in v1 (they assemble to the 68k ILLEGAL word; no Z80 trap encoding is ratified)"@
}

/// The warning a `todo!` leaves, with or without its message.
pub open spec fn todo_present_msg(message: Option<Seq<char>>) -> Seq<char> {
    match message {
        Some(m) => "[todo.present] todo!: "@ + m,
        None => "[todo.present] todo! left in the build"@,
    }
}

/// Lower a `todo!` / `unreachable!`: in a Z80 body it is an error and emits
/// nothing; otherwise it assembles to the 68k `illegal` word, and a `todo!`
/// also warns (one warning per site, with its message when it has one).
pub fn lower_trap(cpu: Option<Cpu>, kind: TrapKind, message: Option<&str>, span: Span) -> (r:
    TrapLowering)
    ensures
        cpu == Some(Cpu::Z80) ==> (r.error matches Some(e) && e@ == trap_non_68k_msg() && r.warning is None
            && r.item is None),
        cpu != Some(Cpu::Z80) ==> {
            &&& r.error is None
            &&& kind == TrapKind::Todo ==> (r.warning matches Some(w) && w@ == todo_present_msg(
                match message {
                    Some(m) => Some(m@),
                    None => None,
                },
            ))
            &&& kind == TrapKind::Unreachable ==> r.warning is None
            &&& r.item matches Some(CodeItem::Instr { mnemonic, ops, span: s }) && mnemonic@ == "illegal"@
                && ops@.len() == 0 && s == span
        },
{
    if let Some(Cpu::Z80) = cpu {
        return TrapLowering {
            error: Some(
                String::from_str(
                    "[todo.non-68k] `todo!`/`unreachable!` are 68k-only in v1 (they assemble to the 68k ILLEGAL word; no Z80 trap encoding is ratified)",
                ),
            ),
            warning: None,
            item: None,
        };
    }
    let warning = match kind {
        TrapKind::Todo => match message {
            Some(m) => {
                let mut w = String::from_str("[todo.present] todo!: ");
                w.append(m);
                Some(w)
            },
            None => Some(String::from_str("[todo.present] todo! left in the build")),
        },
        TrapKind::Unreachable => None,
    };
    TrapLowering {
        error: None,
        warning,
        item: Some(CodeItem::Instr { mnemonic: String::from_str("illegal"), ops: Vec::new(), span }),
    }
}

// ---------------------------------------------------------------------------
// `assert`
// ---------------------------------------------------------------------------

/// The sixteen branch condition codes an `assert` accepts, lowercase.
pub open spec fn assert_conds() -> Seq<Seq<char>> {
    seq![
        "eq"@, "ne"@, "cs"@, "cc"@, "pl"@, "mi"@, "hi"@, "hs"@, "ls"@, "lo"@, "gt"@, "ge"@, "le"@,
        "lt"@, "vs"@, "vc"@,
    ]
}

/// The error for a condition outside [`assert_conds`].
pub open spec fn unknown_cond_msg(cond: Seq<char>) -> Seq<char> {
    "unknown assert condition `"@ + cond
        + "` — expected one of eq, ne, cs, cc, pl, mi, hi, hs, ls, lo, gt, ge, le, lt, vs, vc"@
}

/// The error for an `assert` whose source is not a register.
pub open spec fn src_not_register_msg(src: Seq<char>) -> Seq<char> {
    "assert `src` must be a register (dn/an) in v1, got `"@ + src
        + "` — move the value to a register first (debugger.asm's message expansion cannot take a parenthesised memory operand; matches the rings.emp precedent / AS error #1300)"@
}

/// Check an `assert` before it expands: its condition must be one of the
/// sixteen branch codes (so the desugar never forms a bogus `b<cond>.w`),
/// then its source must be a bare register.
pub fn assert_precheck(p: &AssertParts) -> (r: Result<(), String>)
    ensures
        !assert_conds().contains(p.cond@) ==> (r matches Err(m) && m@ == unknown_cond_msg(p.cond@)),
        assert_conds().contains(p.cond@) && !register_operand(p.src) ==> (r matches Err(m) && m@
            == src_not_register_msg(p.src_spelling@)),
        r is Ok <==> assert_conds().contains(p.cond@) && register_operand(p.src),
{
    let conds: [&str; 16] = [
        "eq", "ne", "cs", "cc", "pl", "mi", "hi", "hs", "ls", "lo", "gt", "ge", "le", "lt", "vs", "vc",
    ];
    let ghost cv = conds@.map_values(|c: &str| c@);
    assert(cv =~= assert_conds());
    let mut known = false;
    let mut k: usize = 0;
    while k < 16
        invariant
            k <= 16,
            cv == conds@.map_values(|c: &str| c@),
            cv == assert_conds(),
            known <==> exists|j: int| 0 <= j < k && cv[j] == p.cond@,
        decreases 16 - k,
    {
        if crate::eval::text::str_eq(conds[k], p.cond.as_str()) {
            known = true;
        }
        k = k + 1;
    }
    if !known {
        assert(!assert_conds().contains(p.cond@));
        let mut m = String::from_str("unknown assert condition `");
        m.append(p.cond.as_str());
        m.append(
            "` — expected one of eq, ne, cs, cc, pl, mi, hi, hs, ls, lo, gt, ge, le, lt, vs, vc",
        );
        return Err(m);
    }
    if !operand_is_register(&p.src) {
        let mut m = String::from_str("assert `src` must be a register (dn/an) in v1, got `");
        m.append(p.src_spelling.as_str());
        m.append(
            "` — move the value to a register first (debugger.asm's message expansion cannot take a parenthesised memory operand; matches the rings.emp precedent / AS error #1300)",
        );
        return Err(m);
    }
    Ok(())
}

// ---------------------------------------------------------------------------
// `raise_error`
// ---------------------------------------------------------------------------

/// An FSTRING argument spelling that is neither a register nor an
/// immediate.
pub open spec fn arg_rejected(spelling: Seq<char>, span: Span) -> bool {
    fstring_arg_shape(spelling, None, span)
}

/// The error for such an argument.
pub open spec fn raise_arg_msg(spelling: Seq<char>) -> Seq<char> {
    "raise_error argument `"@ + spelling
        + "` must be a register or immediate in v1 (§5) — a memory/EA operand arg is a recorded extension"@
}

/// `pushes` hands the handler `args` in reverse order: the last argument's
/// push comes first, and each push moves the operand its spelling denotes.
pub open spec fn reversed_pushes(pushes: Seq<AsmStmt>, args: Seq<ArgModel>, span: Span) -> bool
    decreases args.len(),
{
    if args.len() == 0 {
        pushes.len() == 0
    } else {
        let w = args[0].0;
        let m = pushes.len() - push_len(w);
        let tail = pushes.subrange(m, pushes.len() as int);
        &&& m >= 0
        &&& arg_push_shape(tail, w, span)
        &&& fstring_arg_shape(args[0].1, Some(pushed_operand(tail, w)), span)
        &&& reversed_pushes(pushes.subrange(0, m), args.drop_first(), span)
    }
}

/// Expand `raise_error("<fstring>")` as instantiation `n`: encode the format
/// string, turn each `%<...>` argument into its register or immediate
/// operand (scanning from the last, which is pushed first), and build the
/// raise tail. An encoding error is returned as is; otherwise the first
/// argument from the end that is neither a register nor an immediate is
/// refused.
pub fn raise_error_expansion(n: u32, fstring: &str, span: Span) -> (r: Result<Vec<AsmStmt>, String>)
    ensures
        encode_spec(fstring@) matches Err(m) ==> (r matches Err(e) && e@ == m),
        encode_spec(fstring@) matches Ok((bytes, args)) ==> ((forall|k: int|
            0 <= k < args.len() ==> !arg_rejected(#[trigger] args[k].1, span)) ==> r is Ok),
        encode_spec(fstring@) matches Ok((bytes, args)) ==> (r matches Ok(out) ==> exists|
            pushes: Seq<AsmStmt>,
        |
            reversed_pushes(pushes, args, span) && raise_tail_spec(
                out@,
                diag_symbol(n as nat, "$raise"@),
                bytes,
                pushes,
                span,
            )),
        encode_spec(fstring@) matches Ok((bytes, args)) ==> (r matches Err(e) ==> exists|j: int|
            0 <= j < args.len() && arg_rejected(args[j].1, span) && (forall|k: int|
                j < k < args.len() ==> !arg_rejected(#[trigger] args[k].1, span)) && e@ == raise_arg_msg(
                args[j].1,
            )),
{
    let encoded = match encode_fstring(fstring) {
        Ok(e) => e,
        Err(m) => return Err(m),
    };
    let ghost av = args_view(encoded.args@);
    let mut pushes: Vec<AsmStmt> = Vec::new();
    let mut i: usize = encoded.args.len();
    assert(av.subrange(i as int, av.len() as int) =~= Seq::<ArgModel>::empty());
    while i > 0
        invariant
            i <= encoded.args@.len(),
            av == args_view(encoded.args@),
            encode_spec(fstring@) == Ok::<(Seq<u8>, Seq<ArgModel>), Seq<char>>((encoded.bytes@, av)),
            reversed_pushes(pushes@, av.subrange(i as int, av.len() as int), span),
            forall|k: int| i <= k < av.len() ==> !arg_rejected(#[trigger] av[k].1, span),
        decreases i,
    {
        let arg = &encoded.args[i - 1];
        assert(av[i - 1] == arg@);
        let operand = match fstring_arg_operand(arg.operand_spelling.as_str(), span) {
            Some(op) => op,
            None => {
                let mut m = String::from_str("raise_error argument `");
                m.append(arg.operand_spelling.as_str());
                m.append(
                    "` must be a register or immediate in v1 (§5) — a memory/EA operand arg is a recorded extension",
                );
                proof {
                    let j = i - 1;
                    assert(arg.operand_spelling@ == av[j].1);
                    assert(arg_rejected(av[j].1, span));
                    assert(0 <= j < av.len());
                    assert(encode_spec(fstring@) matches Ok((b, a)) && a == av);
                    assert(!(forall|k: int| 0 <= k < av.len() ==> !arg_rejected(#[trigger] av[k].1, span)));
                    assert(m@ == raise_arg_msg(av[j].1));
                    assert(forall|k: int| j < k < av.len() ==> !arg_rejected(#[trigger] av[k].1, span));
                }
                return Err(m);
            },
        };
        let ghost before = pushes@;
        let ghost op = operand;
        let mut more = arg_push(arg.width, operand, span);
        let ghost mv = more@;
        pushes.append(&mut more);
        proof {
            let sub = av.subrange(i - 1, av.len() as int);
            assert(sub[0] == av[i - 1]);
            assert(sub.drop_first() =~= av.subrange(i as int, av.len() as int));
            let m = pushes@.len() - push_len(arg.width);
            assert(m == before.len());
            assert(pushes@.subrange(m, pushes@.len() as int) =~= mv);
            assert(pushes@.subrange(0, m) =~= before);
        }
        i = i - 1;
    }
    assert(av.subrange(0, av.len() as int) =~= av);
    let ghost pv = pushes@;
    let out = build_raise_error_expansion(n, encoded.bytes.as_slice(), pushes, span);
    assert(reversed_pushes(pv, av, span));
    Ok(out)
}

} // verus!
