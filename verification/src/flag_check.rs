//! The caller-side flag-result must-use check and the control-flow graph it
//! runs on.
//!
//! A callee declaring `out(carry: name)` returns a status flag the caller
//! MUST consume. `[call.flag-result-unused]` verifies that, for every call to
//! a flag-result callee, the carry is READ (a carry-testing branch) before it
//! is REDEFINED (a CC-writing instruction / an intervening call) or the proc
//! RETURNS — on EVERY path. A path that abandons the flag fires, unless the
//! call carries an explicit `@discards(name)`.
//!
//! The analysis is a real CFG with joins over a proc's evaluated items (a
//! visited-set breadth-first reachability), never a straight-line
//! approximation.
//!
//! **Modeling stance (soundness):** the redefine set is a curated ALLOWLIST
//! of CC-writing operations; an unrecognized mnemonic is treated as
//! CC-TRANSPARENT, so the check never fires on an instruction it does not
//! model.
use crate::eval::text::str_eq;
use crate::value::{reg_name, reg_named, CodeItem, CodeOperand, Cpu, Reg, Span, Z80Cond};
use vstd::prelude::*;
use vstd::utf8::{encode_scalar, encode_utf8};

verus! {

// ---------------------------------------------------------------------------
// Mnemonic classes.
// ---------------------------------------------------------------------------

/// 68k call mnemonics (the `.emp` `jbsr` idiom and the resolved forms).
pub open spec fn is_call_mnemonic(m: Seq<char>) -> bool {
    m == "jsr"@ || m == "jbsr"@ || m == "bsr"@
}

/// 68k unconditional transfers.
pub open spec fn is_uncond_mnemonic(m: Seq<char>) -> bool {
    m == "bra"@ || m == "jbra"@ || m == "jmp"@ || m == "jra"@
}

/// 68k returns.
pub open spec fn is_return_68k(m: Seq<char>) -> bool {
    m == "rts"@ || m == "rte"@ || m == "rtr"@ || m == "rtd"@
}

/// Z80 returns.
pub open spec fn is_return_z80(m: Seq<char>) -> bool {
    m == "ret"@ || m == "reti"@ || m == "retn"@
}

/// Does `m` return from the proc on `cpu`?
pub open spec fn returns_on(m: Seq<char>, cpu: Cpu) -> bool {
    match cpu {
        Cpu::Z80 => is_return_z80(m),
        _ => is_return_68k(m),
    }
}

/// A 68k conditional branch (`bXX`, but not `bsr`) or counting loop (`dbXX`).
pub open spec fn is_cond_branch_68k(m: Seq<char>) -> bool {
    (encode_utf8(m).len() == 3 && m.len() > 0 && m[0] == 'b' && m != "bsr"@) || (m.len() >= 2 && m[0]
        == 'd' && m[1] == 'b')
}

/// The 68k carry consumers: the carry-testing branches and their set/dbcc
/// forms.
pub open spec fn consumes_carry_68k(m: Seq<char>) -> bool {
    ||| m == "bcs"@
    ||| m == "bcc"@
    ||| m == "bhi"@
    ||| m == "bls"@
    ||| m == "blo"@
    ||| m == "bhs"@
    ||| m == "scs"@
    ||| m == "scc"@
    ||| m == "shi"@
    ||| m == "sls"@
    ||| m == "slo"@
    ||| m == "shs"@
    ||| m == "dbcs"@
    ||| m == "dbcc"@
    ||| m == "dbhi"@
    ||| m == "dbls"@
}

/// A Z80 carry-testing control-flow form: `jr`/`jp`/`call`/`ret` whose
/// leading condition operand is `c` or `nc`.
pub open spec fn z80_reads_carry_spec(m: Seq<char>, ops: Seq<CodeOperand>) -> bool {
    &&& (m == "jr"@ || m == "jp"@ || m == "call"@ || m == "ret"@)
    &&& ops.len() > 0
    &&& (ops[0] == CodeOperand::Z80Cc(Z80Cond::C) || ops[0] == CodeOperand::Z80Cc(Z80Cond::Nc))
}

/// Does the instruction consume the carry flag?
pub open spec fn consumes_carry_spec(m: Seq<char>, ops: Seq<CodeOperand>, cpu: Cpu) -> bool {
    match cpu {
        Cpu::Z80 => z80_reads_carry_spec(m, ops),
        _ => consumes_carry_68k(m),
    }
}

/// The 68k CC-writing data operations (ADDX-class included: they write C).
pub open spec fn cc_writer_68k(m: Seq<char>) -> bool {
    ||| m == "move"@
    ||| m == "moveq"@
    ||| m == "clr"@
    ||| m == "add"@
    ||| m == "addi"@
    ||| m == "addq"@
    ||| m == "addx"@
    ||| m == "sub"@
    ||| m == "subi"@
    ||| m == "subq"@
    ||| m == "subx"@
    ||| m == "cmp"@
    ||| m == "cmpi"@
    ||| m == "cmpm"@
    ||| m == "cmpa"@
    ||| m == "and"@
    ||| m == "andi"@
    ||| m == "or"@
    ||| m == "ori"@
    ||| m == "eor"@
    ||| m == "eori"@
    ||| m == "not"@
    ||| m == "neg"@
    ||| m == "negx"@
    ||| m == "muls"@
    ||| m == "mulu"@
    ||| m == "divs"@
    ||| m == "divu"@
    ||| m == "tst"@
    ||| m == "ext"@
    ||| m == "extb"@
    ||| m == "swap"@
    ||| m == "tas"@
    ||| m == "nbcd"@
    ||| m == "abcd"@
    ||| m == "sbcd"@
    ||| m == "asl"@
    ||| m == "asr"@
    ||| m == "lsl"@
    ||| m == "lsr"@
    ||| m == "rol"@
    ||| m == "ror"@
    ||| m == "roxl"@
    ||| m == "roxr"@
}

/// The Z80 carry writers (including `call`/`rst`: a callee clobbers carry).
pub open spec fn z80_writes_carry_spec(m: Seq<char>) -> bool {
    ||| m == "add"@
    ||| m == "adc"@
    ||| m == "sub"@
    ||| m == "sbc"@
    ||| m == "cp"@
    ||| m == "and"@
    ||| m == "or"@
    ||| m == "xor"@
    ||| m == "neg"@
    ||| m == "daa"@
    ||| m == "ccf"@
    ||| m == "scf"@
    ||| m == "rlca"@
    ||| m == "rrca"@
    ||| m == "rla"@
    ||| m == "rra"@
    ||| m == "rlc"@
    ||| m == "rrc"@
    ||| m == "rl"@
    ||| m == "rr"@
    ||| m == "sla"@
    ||| m == "sra"@
    ||| m == "srl"@
    ||| m == "sll"@
    ||| m == "call"@
    ||| m == "rst"@
}

/// Does the mnemonic REDEFINE the carry flag on `cpu`? On the 68000 an
/// intervening call clobbers the condition codes too.
pub open spec fn writes_carry_spec(m: Seq<char>, cpu: Cpu) -> bool {
    match cpu {
        Cpu::Z80 => z80_writes_carry_spec(m),
        _ => is_call_mnemonic(m) || cc_writer_68k(m),
    }
}

/// A redefine reached through the operand: the destination is CCR or SR.
pub open spec fn writes_ccr_operand_spec(ops: Seq<CodeOperand>) -> bool {
    ops.len() > 0 && (ops.last() == CodeOperand::Ccr || ops.last() == CodeOperand::Sr)
}

/// A direct subroutine call site: 68k `jsr`/`bsr`/`jbsr`; Z80 `call`.
pub open spec fn is_call_site_spec(m: Seq<char>, cpu: Cpu) -> bool {
    match cpu {
        Cpu::Z80 => m == "call"@,
        _ => is_call_mnemonic(m),
    }
}

/// Does `mnem` RETURN from the proc on `cpu`?
pub fn is_return_mnemonic(mnem: &str, cpu: Cpu) -> (r: bool)
    ensures
        r == returns_on(mnem@, cpu),
{
    match cpu {
        Cpu::Z80 => str_eq(mnem, "ret") || str_eq(mnem, "reti") || str_eq(mnem, "retn"),
        _ => str_eq(mnem, "rts") || str_eq(mnem, "rte") || str_eq(mnem, "rtr") || str_eq(mnem, "rtd"),
    }
}

fn is_call_mnemonic_exec(mnem: &str) -> (r: bool)
    ensures
        r == is_call_mnemonic(mnem@),
{
    str_eq(mnem, "jsr") || str_eq(mnem, "jbsr") || str_eq(mnem, "bsr")
}

fn is_uncond_mnemonic_exec(mnem: &str) -> (r: bool)
    ensures
        r == is_uncond_mnemonic(mnem@),
{
    str_eq(mnem, "bra") || str_eq(mnem, "jbra") || str_eq(mnem, "jmp") || str_eq(mnem, "jra")
}

/// The UTF-8 width of a character.
pub open spec fn utf8_width(c: char) -> nat {
    encode_scalar(c as u32).len()
}

proof fn lemma_utf8_width(c: char)
    ensures
        1 <= utf8_width(c) <= 4,
        utf8_width(c) == 1 <==> (c as u32) <= 0x7F,
        utf8_width(c) == 2 <==> 0x80 <= (c as u32) <= 0x7FF,
{
}

proof fn lemma_utf8_len(s: Seq<char>)
    ensures
        encode_utf8(s).len() >= s.len(),
    decreases s.len(),
{
    if s.len() > 0 {
        lemma_utf8_width(s[0]);
        lemma_utf8_len(s.drop_first());
    }
}

/// Whether a mnemonic starts with `b` and is three bytes long in UTF-8, the
/// shape of a 68k conditional branch.
fn is_b_three_bytes(mnem: &str) -> (r: bool)
    ensures
        r == (mnem@.len() > 0 && mnem@[0] == 'b' && encode_utf8(mnem@).len() == 3),
{
    let n = mnem.unicode_len();
    if n == 0 || mnem.get_char(0) != 'b' {
        return false;
    }
    let ghost m = mnem@;
    proof {
        lemma_utf8_width(m[0]);
        assert(encode_utf8(m).len() == utf8_width(m[0]) + encode_utf8(m.drop_first()).len());
        lemma_utf8_len(m.drop_first());
        if m.len() >= 2 {
            let r1 = m.drop_first();
            lemma_utf8_width(r1[0]);
            assert(encode_utf8(r1).len() == utf8_width(r1[0]) + encode_utf8(r1.drop_first()).len());
            lemma_utf8_len(r1.drop_first());
            if m.len() >= 3 {
                let r2 = r1.drop_first();
                lemma_utf8_width(r2[0]);
                assert(encode_utf8(r2).len() == utf8_width(r2[0]) + encode_utf8(r2.drop_first()).len());
                lemma_utf8_len(r2.drop_first());
                assert(r1[0] == m[1] && r2[0] == m[2]);
            } else {
                assert(r1.drop_first().len() == 0);
                assert(r1[0] == m[1]);
            }
        } else {
            assert(m.drop_first().len() == 0);
        }
    }
    if n == 3 {
        let c1 = mnem.get_char(1) as u32;
        let c2 = mnem.get_char(2) as u32;
        c1 <= 0x7F && c2 <= 0x7F
    } else if n == 2 {
        let c1 = mnem.get_char(1) as u32;
        0x80 <= c1 && c1 <= 0x7FF
    } else {
        false
    }
}

fn is_cond_branch_68k_exec(mnem: &str) -> (r: bool)
    ensures
        r == is_cond_branch_68k(mnem@),
{
    let n = mnem.unicode_len();
    (is_b_three_bytes(mnem) && !str_eq(mnem, "bsr")) || (n >= 2 && mnem.get_char(0) == 'd'
        && mnem.get_char(1) == 'b')
}

/// Does this instruction CONSUME the carry flag — a reader whose presence
/// discharges the must-use obligation? On the 68000 only the carry-testing
/// branches and their set/dbcc forms; on the Z80 the `c`/`nc` conditional
/// control-flow forms.
fn consumes_carry(mnem: &str, ops: &[CodeOperand], cpu: Cpu) -> (r: bool)
    ensures
        r == consumes_carry_spec(mnem@, ops@, cpu),
{
    if cpu == Cpu::Z80 {
        return z80_reads_carry(mnem, ops);
    }
    str_eq(mnem, "bcs") || str_eq(mnem, "bcc") || str_eq(mnem, "bhi") || str_eq(mnem, "bls")
        || str_eq(mnem, "blo") || str_eq(mnem, "bhs") || str_eq(mnem, "scs") || str_eq(mnem, "scc")
        || str_eq(mnem, "shi") || str_eq(mnem, "sls") || str_eq(mnem, "slo") || str_eq(mnem, "shs")
        || str_eq(mnem, "dbcs") || str_eq(mnem, "dbcc") || str_eq(mnem, "dbhi") || str_eq(
        mnem,
        "dbls",
    )
}

/// A Z80 carry-testing control-flow form CONSUMES carry: `jr`/`jp`/`call`/
/// `ret` whose leading condition is `c` or `nc`. A `z`/`nz` form tests a
/// different flag.
pub fn z80_reads_carry(mnem: &str, ops: &[CodeOperand]) -> (r: bool)
    ensures
        r == z80_reads_carry_spec(mnem@, ops@),
{
    let m = str_eq(mnem, "jr") || str_eq(mnem, "jp") || str_eq(mnem, "call") || str_eq(mnem, "ret");
    if !m || ops.len() == 0 {
        return false;
    }
    match &ops[0] {
        CodeOperand::Z80Cc(Z80Cond::C) => true,
        CodeOperand::Z80Cc(Z80Cond::Nc) => true,
        _ => false,
    }
}

/// Does this mnemonic REDEFINE (write) the carry flag, ending the must-use
/// window? A curated allowlist; an intervening call clobbers the condition
/// codes too.
fn writes_carry(mnem: &str, cpu: Cpu) -> (r: bool)
    ensures
        r == writes_carry_spec(mnem@, cpu),
{
    if cpu == Cpu::Z80 {
        return z80_writes_carry(mnem);
    }
    if is_call_mnemonic_exec(mnem) {
        return true;
    }
    str_eq(mnem, "move") || str_eq(mnem, "moveq") || str_eq(mnem, "clr") || str_eq(mnem, "add")
        || str_eq(mnem, "addi") || str_eq(mnem, "addq") || str_eq(mnem, "addx") || str_eq(
        mnem,
        "sub",
    ) || str_eq(mnem, "subi") || str_eq(mnem, "subq") || str_eq(mnem, "subx") || str_eq(
        mnem,
        "cmp",
    ) || str_eq(mnem, "cmpi") || str_eq(mnem, "cmpm") || str_eq(mnem, "cmpa") || str_eq(
        mnem,
        "and",
    ) || str_eq(mnem, "andi") || str_eq(mnem, "or") || str_eq(mnem, "ori") || str_eq(mnem, "eor")
        || str_eq(mnem, "eori") || str_eq(mnem, "not") || str_eq(mnem, "neg") || str_eq(
        mnem,
        "negx",
    ) || str_eq(mnem, "muls") || str_eq(mnem, "mulu") || str_eq(mnem, "divs") || str_eq(
        mnem,
        "divu",
    ) || str_eq(mnem, "tst") || str_eq(mnem, "ext") || str_eq(mnem, "extb") || str_eq(
        mnem,
        "swap",
    ) || str_eq(mnem, "tas") || str_eq(mnem, "nbcd") || str_eq(mnem, "abcd") || str_eq(
        mnem,
        "sbcd",
    ) || str_eq(mnem, "asl") || str_eq(mnem, "asr") || str_eq(mnem, "lsl") || str_eq(mnem, "lsr")
        || str_eq(mnem, "rol") || str_eq(mnem, "ror") || str_eq(mnem, "roxl") || str_eq(
        mnem,
        "roxr",
    )
}

/// The Z80 carry-writer allowlist — the mnemonics that REDEFINE carry.
pub fn z80_writes_carry(mnem: &str) -> (r: bool)
    ensures
        r == z80_writes_carry_spec(mnem@),
{
    str_eq(mnem, "add") || str_eq(mnem, "adc") || str_eq(mnem, "sub") || str_eq(mnem, "sbc")
        || str_eq(mnem, "cp") || str_eq(mnem, "and") || str_eq(mnem, "or") || str_eq(mnem, "xor")
        || str_eq(mnem, "neg") || str_eq(mnem, "daa") || str_eq(mnem, "ccf") || str_eq(mnem, "scf")
        || str_eq(mnem, "rlca") || str_eq(mnem, "rrca") || str_eq(mnem, "rla") || str_eq(
        mnem,
        "rra",
    ) || str_eq(mnem, "rlc") || str_eq(mnem, "rrc") || str_eq(mnem, "rl") || str_eq(mnem, "rr")
        || str_eq(mnem, "sla") || str_eq(mnem, "sra") || str_eq(mnem, "srl") || str_eq(mnem, "sll")
        || str_eq(mnem, "call") || str_eq(mnem, "rst")
}

/// A redefine reached through the OPERAND: an instruction whose destination
/// is CCR or SR writes the carry directly.
pub fn writes_ccr_operand(ops: &[CodeOperand]) -> (r: bool)
    ensures
        r == writes_ccr_operand_spec(ops@),
{
    if ops.len() == 0 {
        return false;
    }
    match &ops[ops.len() - 1] {
        CodeOperand::Ccr => true,
        CodeOperand::Sr => true,
        _ => false,
    }
}

/// Whether a mnemonic names a DIRECT subroutine call — the site whose flag
/// result must be consumed.
fn is_call_site(mnem: &str, cpu: Cpu) -> (r: bool)
    ensures
        r == is_call_site_spec(mnem@, cpu),
{
    match cpu {
        Cpu::Z80 => str_eq(mnem, "call"),
        _ => is_call_mnemonic_exec(mnem),
    }
}

// ---------------------------------------------------------------------------
// Branch targets.
// ---------------------------------------------------------------------------

/// The LAST `Sym` operand's name.
pub open spec fn branch_target_spec(ops: Seq<CodeOperand>) -> Option<Seq<char>>
    decreases ops.len(),
{
    if ops.len() == 0 {
        None
    } else {
        match ops.last() {
            CodeOperand::Sym(name) => Some(name@),
            _ => branch_target_spec(ops.drop_last()),
        }
    }
}

/// The LAST operand naming a link symbol: a bare `Sym`, a `SymOff`'s symbol or
/// an `AbsSym`'s target.
pub open spec fn transfer_target_spec(ops: Seq<CodeOperand>) -> Option<Seq<char>>
    decreases ops.len(),
{
    if ops.len() == 0 {
        None
    } else {
        match ops.last() {
            CodeOperand::Sym(name) => Some(name@),
            CodeOperand::SymOff { sym, .. } => Some(sym@),
            CodeOperand::AbsSym { target, .. } => Some(target@),
            _ => transfer_target_spec(ops.drop_last()),
        }
    }
}

/// The target label of a branch/tail/call instruction — the LAST `Sym`
/// operand (for `dbcc dN, label` the label is the second operand). `None`
/// for a register-indirect form (`jsr (a1)`) with no symbolic target.
pub fn branch_target(ops: &[CodeOperand]) -> (r: Option<&str>)
    ensures
        match branch_target_spec(ops@) {
            Some(t) => r matches Some(s) && s@ == t,
            None => r is None,
        },
{
    let mut i = ops.len();
    assert(ops@.subrange(0, i as int) =~= ops@);
    while i > 0
        invariant
            i <= ops@.len(),
            branch_target_spec(ops@) == branch_target_spec(ops@.subrange(0, i as int)),
        decreases i,
    {
        assert(ops@.subrange(0, i as int).drop_last() =~= ops@.subrange(0, i - 1));
        match &ops[i - 1] {
            CodeOperand::Sym(name) => {
                return Some(name.as_str());
            },
            _ => {},
        }
        i = i - 1;
    }
    None
}

/// The link symbol a transfer NAMES, across every direct-target spelling:
/// the bare `Sym` a branch/tail takes, plus the pinned/offset absolute forms.
/// `None` for a register-indirect or a computed dispatch.
pub fn transfer_target_sym(ops: &[CodeOperand]) -> (r: Option<&str>)
    ensures
        match transfer_target_spec(ops@) {
            Some(t) => r matches Some(s) && s@ == t,
            None => r is None,
        },
{
    let mut i = ops.len();
    assert(ops@.subrange(0, i as int) =~= ops@);
    while i > 0
        invariant
            i <= ops@.len(),
            transfer_target_spec(ops@) == transfer_target_spec(ops@.subrange(0, i as int)),
        decreases i,
    {
        assert(ops@.subrange(0, i as int).drop_last() =~= ops@.subrange(0, i - 1));
        match &ops[i - 1] {
            CodeOperand::Sym(name) => {
                return Some(name.as_str());
            },
            CodeOperand::SymOff { sym, .. } => {
                return Some(sym.as_str());
            },
            CodeOperand::AbsSym { target, .. } => {
                return Some(target.as_str());
            },
            _ => {},
        }
        i = i - 1;
    }
    None
}


// ---------------------------------------------------------------------------
// The control-flow graph.
// ---------------------------------------------------------------------------

/// The first instruction at or after item `i`.
pub open spec fn first_instr_from(items: Seq<CodeItem>, i: int) -> Option<int>
    decreases items.len() - i,
{
    if i < 0 || i >= items.len() {
        None
    } else if items[i] is Instr {
        Some(i)
    } else {
        first_instr_from(items, i + 1)
    }
}

/// The fall-through instruction after the instruction at `idx`.
pub open spec fn next_instr_of(items: Seq<CodeItem>, idx: int) -> Option<int> {
    if 0 <= idx < items.len() && items[idx] is Instr {
        first_instr_from(items, idx + 1)
    } else {
        None
    }
}

/// Whether item `k` defines the label `name`.
pub open spec fn labels(items: Seq<CodeItem>, k: int, name: Seq<char>) -> bool {
    0 <= k < items.len() && match items[k] {
        CodeItem::Label { name: n, .. } => n@ == name,
        _ => false,
    }
}

/// Among the first `n` items, the target of the LAST definition of `name`
/// that has an instruction at or after it.
pub open spec fn last_label_target(items: Seq<CodeItem>, name: Seq<char>, n: int) -> Option<int>
    decreases n,
{
    if n <= 0 {
        None
    } else if labels(items, n - 1, name) && first_instr_from(items, n - 1) is Some {
        first_instr_from(items, n - 1)
    } else {
        last_label_target(items, name, n - 1)
    }
}

/// The instruction a label targets: the first instruction at or after its
/// (last) definition. A label that closes the body has none.
pub open spec fn label_target_of(items: Seq<CodeItem>, name: Seq<char>) -> Option<int> {
    last_label_target(items, name, items.len() as int)
}

/// Whether `name` labels this body's own items (a closing label included).
pub open spec fn is_local_label_of(items: Seq<CodeItem>, name: Seq<char>) -> bool {
    exists|k: int| labels(items, k, name)
}

/// A control-flow edge out of one instruction.
///
/// `Return` and `FallOff` are facts about the machine; `TailOut` and
/// `BranchOut` say only that control leaves the body, from an unconditional
/// or a conditional terminator respectively.
#[derive(Clone, Copy, PartialEq, Eq, Debug, Structural)]
pub enum Edge {
    /// Control stays in this proc, arriving at item index `.0`.
    Follow(usize),
    /// The path RETURNED to the caller.
    Return,
    /// Control ran off the END of the body.
    FallOff,
    /// The successor of an UNCONDITIONAL transfer that leaves the body; it is
    /// that instruction's ONLY edge.
    TailOut,
    /// The TAKEN successor of a CONDITIONAL terminator whose target is outside
    /// the body; always accompanied by a sibling local edge.
    BranchOut,
}

/// Which transfer-out variant a terminator's leaving edge carries.
#[derive(Clone, Copy, PartialEq, Eq, Debug, Structural)]
pub enum OutFlavor {
    /// An unconditional transfer: produces [`Edge::TailOut`].
    TailOut,
    /// A conditional terminator's taken side: produces [`Edge::BranchOut`].
    BranchOut,
}

/// The leaving edge of a flavor.
pub open spec fn out_edge_of(flavor: OutFlavor) -> Edge {
    match flavor {
        OutFlavor::TailOut => Edge::TailOut,
        OutFlavor::BranchOut => Edge::BranchOut,
    }
}

impl OutFlavor {
    /// The 1:1 map onto the leaving edge.
    pub fn out_edge(self) -> (e: Edge)
        ensures
            e == out_edge_of(self),
    {
        match self {
            OutFlavor::TailOut => Edge::TailOut,
            OutFlavor::BranchOut => Edge::BranchOut,
        }
    }
}

/// The taken edge of a branch, classified by its TARGET: a local label with
/// an instruction after it is followed; a local label that CLOSES the body is
/// a fall-off; an external symbol, or no symbol at all, leaves the body with
/// the caller's flavor.
pub open spec fn branch_edge_spec(items: Seq<CodeItem>, ops: Seq<CodeOperand>, flavor: OutFlavor) -> Edge {
    match branch_target_spec(ops) {
        Some(t) => match label_target_of(items, t) {
            Some(tgt) => Edge::Follow(tgt as usize),
            None => if is_local_label_of(items, t) {
                Edge::FallOff
            } else {
                out_edge_of(flavor)
            },
        },
        None => out_edge_of(flavor),
    }
}

/// The fall-through edge of the instruction at `idx`.
pub open spec fn fall_edge(items: Seq<CodeItem>, idx: int) -> Edge {
    match next_instr_of(items, idx) {
        Some(f) => Edge::Follow(f as usize),
        None => Edge::FallOff,
    }
}

/// The 68k successor edges of the instruction at `idx`.
pub open spec fn edges_68k(items: Seq<CodeItem>, idx: int) -> Seq<Edge> {
    if 0 <= idx < items.len() {
        match items[idx] {
            CodeItem::Instr { mnemonic, ops, .. } => {
                let m = mnemonic@;
                if is_return_68k(m) {
                    seq![Edge::Return]
                } else if is_uncond_mnemonic(m) {
                    seq![branch_edge_spec(items, ops@, OutFlavor::TailOut)]
                } else if is_cond_branch_68k(m) {
                    seq![branch_edge_spec(items, ops@, OutFlavor::BranchOut), fall_edge(items, idx)]
                } else {
                    seq![fall_edge(items, idx)]
                }
            },
            _ => Seq::empty(),
        }
    } else {
        Seq::empty()
    }
}

/// The Z80 successor edges of the instruction at `idx`: `ret` returns, a
/// `ret cc` returns or falls through, `jp`/`jr` take their target, the
/// conditional forms and `djnz` add the fall-through, and everything else
/// (calls included) falls through.
pub open spec fn edges_z80(items: Seq<CodeItem>, idx: int) -> Seq<Edge> {
    if 0 <= idx < items.len() {
        match items[idx] {
            CodeItem::Instr { mnemonic, ops, .. } => {
                let m = mnemonic@;
                let leads_cc = ops@.len() > 0 && ops@[0] is Z80Cc;
                if is_return_z80(m) && !leads_cc {
                    seq![Edge::Return]
                } else if is_return_z80(m) && leads_cc {
                    seq![Edge::Return, fall_edge(items, idx)]
                } else if (m == "jp"@ || m == "jr"@) && !leads_cc {
                    seq![branch_edge_spec(items, ops@, OutFlavor::TailOut)]
                } else if (m == "jp"@ || m == "jr"@) && leads_cc {
                    seq![branch_edge_spec(items, ops@, OutFlavor::BranchOut), fall_edge(items, idx)]
                } else if m == "djnz"@ {
                    seq![branch_edge_spec(items, ops@, OutFlavor::BranchOut), fall_edge(items, idx)]
                } else {
                    seq![fall_edge(items, idx)]
                }
            },
            _ => Seq::empty(),
        }
    } else {
        Seq::empty()
    }
}

/// The successor edges under `cpu`'s terminator semantics.
pub open spec fn edges_on(items: Seq<CodeItem>, idx: int, cpu: Cpu) -> Seq<Edge> {
    match cpu {
        Cpu::Z80 => edges_z80(items, idx),
        _ => edges_68k(items, idx),
    }
}

/// The item index of a body's FIRST instruction.
pub open spec fn entry_instr_of(items: Seq<CodeItem>) -> Option<int> {
    first_instr_from(items, 0)
}

/// The item index of a body's FIRST instruction — the entry point every
/// per-proc walk starts from. `None` for a body with no instructions.
pub fn entry_instr_idx(items: &[CodeItem]) -> (r: Option<usize>)
    ensures
        match entry_instr_of(items@) {
            Some(i) => r == Some(i as usize),
            None => r is None,
        },
{
    let mut i: usize = 0;
    while i < items.len()
        invariant
            i <= items@.len(),
            first_instr_from(items@, 0) == first_instr_from(items@, i as int),
        decreases items@.len() - i,
    {
        match &items[i] {
            CodeItem::Instr { .. } => {
                return Some(i);
            },
            _ => {},
        }
        i = i + 1;
    }
    None
}

/// The span of the instruction at item index `idx`, or `None` when that
/// item is not an instruction (or there is no such item).
pub fn instr_span(items: &[CodeItem], idx: usize) -> (r: Option<Span>)
    ensures
        r == if idx < items@.len() {
            match items@[idx as int] {
                CodeItem::Instr { span, .. } => Some(span),
                _ => None,
            }
        } else {
            None
        },
{
    if idx >= items.len() {
        return None;
    }
    match &items[idx] {
        CodeItem::Instr { span, .. } => Some(*span),
        _ => None,
    }
}

/// The value the last entry for `name` carries in an association list.
pub open spec fn assoc_last(v: Seq<(String, usize)>, name: Seq<char>) -> Option<int>
    decreases v.len(),
{
    if v.len() == 0 {
        None
    } else if v.last().0@ == name {
        Some(v.last().1 as int)
    } else {
        assoc_last(v.drop_last(), name)
    }
}

/// A resolved per-proc control-flow view over a body's items.
pub struct Cfg<'a> {
    items: &'a [CodeItem],
    /// For each item index, the next instruction after it when it is an
    /// instruction.
    next: Vec<Option<usize>>,
    /// Label name → the first instruction at/after it, one entry per
    /// definition in item order (the last entry for a name is the live one).
    label_target: Vec<(String, usize)>,
}

impl<'a> Cfg<'a> {
    /// The items this graph is built over.
    pub closed spec fn items(&self) -> Seq<CodeItem> {
        self.items@
    }

    /// The graph agrees with its items.
    pub closed spec fn wf(&self) -> bool {
        &&& self.items@.len() <= usize::MAX
        &&& self.next@.len() == self.items@.len()
        &&& forall|i: int|
            0 <= i < self.items@.len() ==> match #[trigger] self.next@[i] {
                Some(j) => next_instr_of(self.items@, i) == Some(j as int),
                None => next_instr_of(self.items@, i) is None,
            }
        &&& forall|name: Seq<char>|
            #[trigger] assoc_last(self.label_target@, name) == label_target_of(self.items@, name)
    }

    /// Build the graph over `items`.
    #[verifier::spinoff_prover]
    pub fn build(items: &'a [CodeItem]) -> (cfg: Self)
        ensures
            cfg.wf(),
            cfg.items() == items@,
    {
        let n = items.len();
        // first[i] = the first instruction at or after item i.
        let mut first: Vec<Option<usize>> = Vec::new();
        let mut k: usize = 0;
        while k < n
            invariant
                k <= n,
                n == items@.len(),
                first@.len() == k,
                forall|j: int| 0 <= j < k ==> first@[j] is None,
            decreases n + 1 - k,
        {
            first.push(None);
            k = k + 1;
        }
        first.push(None);
        let mut i = n;
        while i > 0
            invariant
                i <= n,
                n == items@.len(),
                first@.len() == n + 1,
                forall|j: int|
                    i <= j <= n ==> match #[trigger] first@[j] {
                        Some(t) => first_instr_from(items@, j) == Some(t as int),
                        None => first_instr_from(items@, j) is None,
                    },
            decreases i,
        {
            let is_instr = match &items[i - 1] {
                CodeItem::Instr { .. } => true,
                _ => false,
            };
            if is_instr {
                first.set(i - 1, Some(i - 1));
            } else {
                let f = first[i];
                first.set(i - 1, f);
            }
            i = i - 1;
        }
        let mut next: Vec<Option<usize>> = Vec::new();
        let mut label_target: Vec<(String, usize)> = Vec::new();
        let mut i: usize = 0;
        while i < n
            invariant
                i <= n,
                n == items@.len(),
                first@.len() == n + 1,
                forall|j: int|
                    0 <= j <= n ==> match #[trigger] first@[j] {
                        Some(t) => first_instr_from(items@, j) == Some(t as int),
                        None => first_instr_from(items@, j) is None,
                    },
                next@.len() == i,
                forall|j: int|
                    0 <= j < i ==> match #[trigger] next@[j] {
                        Some(t) => next_instr_of(items@, j) == Some(t as int),
                        None => next_instr_of(items@, j) is None,
                    },
                forall|name: Seq<char>|
                    #[trigger] assoc_last(label_target@, name) == last_label_target(
                        items@,
                        name,
                        i as int,
                    ),
            decreases n - i,
        {
            let ghost before = label_target@;
            assert(forall|nm: Seq<char>|
                #[trigger] assoc_last(before, nm) == last_label_target(items@, nm, i as int));
            match &items[i] {
                CodeItem::Instr { .. } => {
                    next.push(first[i + 1]);
                    assert forall|nm: Seq<char>|
                        #[trigger] assoc_last(label_target@, nm) == last_label_target(
                            items@,
                            nm,
                            i + 1,
                        ) by {
                        assert(!labels(items@, i as int, nm));
                    }
                },
                CodeItem::Label { name, .. } => {
                    next.push(None);
                    match first[i] {
                        Some(t) => {
                            let entry = (name.clone(), t);
                            label_target.push(entry);
                            assert forall|nm: Seq<char>|
                                #[trigger] assoc_last(label_target@, nm) == last_label_target(
                                    items@,
                                    nm,
                                    i + 1,
                                ) by {
                                assert(label_target@.drop_last() =~= before);
                                assert(label_target@.last() == entry);
                                assert(entry.0@ == name@);
                                assert(first_instr_from(items@, i as int) == Some(t as int));
                                assert(labels(items@, i as int, nm) == (name@ == nm));
                                if name@ == nm {
                                    assert(assoc_last(label_target@, nm) == Some(t as int));
                                    assert(last_label_target(items@, nm, i + 1) == Some(t as int));
                                } else {
                                    assert(assoc_last(label_target@, nm) == assoc_last(before, nm));
                                    assert(last_label_target(items@, nm, i + 1) == last_label_target(items@, nm, i as int));
                                }
                            }
                        },
                        None => {
                            assert forall|nm: Seq<char>|
                                #[trigger] assoc_last(label_target@, nm) == last_label_target(
                                    items@,
                                    nm,
                                    i + 1,
                                ) by {}
                        },
                    }
                },
                _ => {
                    next.push(None);
                    assert forall|nm: Seq<char>|
                        #[trigger] assoc_last(label_target@, nm) == last_label_target(
                            items@,
                            nm,
                            i + 1,
                        ) by {
                        assert(!labels(items@, i as int, nm));
                    }
                },
            }
            i = i + 1;
        }
        Cfg { items, next, label_target }
    }

    /// The number of items the graph is built over.
    pub fn len(&self) -> (r: usize)
        ensures
            r == self.items().len(),
    {
        self.items.len()
    }

    /// The instruction at item index `idx`, as `(mnemonic, ops)`.
    pub fn instr(&self, idx: usize) -> (r: Option<(&str, &[CodeOperand])>)
        requires
            idx < self.items().len(),
        ensures
            match self.items()[idx as int] {
                CodeItem::Instr { mnemonic, ops, .. } => r matches Some((m, o)) && m@ == mnemonic@
                    && o@ == ops@,
                _ => r is None,
            },
    {
        match &self.items[idx] {
            CodeItem::Instr { mnemonic, ops, .. } => Some((mnemonic.as_str(), ops.as_slice())),
            _ => None,
        }
    }

    /// The fall-through instruction index after `idx` (the textually next
    /// instruction), or `None` at the end of the body.
    pub fn next_instr(&self, idx: usize) -> (r: Option<usize>)
        requires
            self.wf(),
        ensures
            match next_instr_of(self.items(), idx as int) {
                Some(j) => r == Some(j as usize),
                None => r is None,
            },
    {
        if idx < self.next.len() {
            self.next[idx]
        } else {
            None
        }
    }

    /// The instruction index a LOCAL label targets, or `None` for a
    /// non-local / unknown symbol, or a label that closes the body.
    pub fn label_index(&self, name: &str) -> (r: Option<usize>)
        requires
            self.wf(),
        ensures
            match label_target_of(self.items(), name@) {
                Some(j) => r == Some(j as usize),
                None => r is None,
            },
    {
        assert(assoc_last(self.label_target@, name@) == label_target_of(self.items(), name@));
        let mut i = self.label_target.len();
        assert(self.label_target@.subrange(0, i as int) =~= self.label_target@);
        while i > 0
            invariant
                i <= self.label_target@.len(),
                assoc_last(self.label_target@, name@) == assoc_last(
                    self.label_target@.subrange(0, i as int),
                    name@,
                ),
                assoc_last(self.label_target@, name@) == label_target_of(self.items(), name@),
            decreases i,
        {
            assert(self.label_target@.subrange(0, i as int).drop_last() =~= self.label_target@.subrange(
                0,
                i - 1,
            ));
            if str_eq(self.label_target[i - 1].0.as_str(), name) {
                let ghost sub = self.label_target@.subrange(0, i as int);
                assert(sub.last() == self.label_target@[i - 1]);
                assert(assoc_last(sub, name@) == Some(self.label_target@[i - 1].1 as int));
                assert(label_target_of(self.items(), name@) == Some(
                    self.label_target@[i - 1].1 as int,
                ));
                return Some(self.label_target[i - 1].1);
            }
            i = i - 1;
        }
        proof {
            assert(assoc_last(self.label_target@, name@) == label_target_of(self.items(), name@));
        }
        None
    }

    /// The fall-through edge of the instruction at `idx`.
    fn fall(&self, idx: usize) -> (e: Edge)
        requires
            self.wf(),
        ensures
            e == fall_edge(self.items(), idx as int),
    {
        match self.next_instr(idx) {
            Some(f) => Edge::Follow(f),
            None => Edge::FallOff,
        }
    }

    /// The taken edge of a branch — 68k `bra`/`jmp`/`bXX`/`dbXX` OR Z80
    /// `jp`/`jr` — classified by its TARGET: a local label with an
    /// instruction after it is followed; a local label that CLOSES the proc is
    /// a fall-off exit; an external symbol, or a computed target naming no
    /// symbol, is a transfer out of the proc with the caller's `flavor`.
    fn branch_edge(&self, ops: &[CodeOperand], flavor: OutFlavor) -> (e: Edge)
        requires
            self.wf(),
        ensures
            e == branch_edge_spec(self.items(), ops@, flavor),
    {
        match branch_target(ops) {
            Some(t) => match self.label_index(t) {
                Some(tgt) => Edge::Follow(tgt),
                None => if self.is_local_label(t) {
                    Edge::FallOff
                } else {
                    flavor.out_edge()
                },
            },
            None => flavor.out_edge(),
        }
    }

    /// The successor edges of the instruction at `idx` under 68k terminator
    /// semantics: `rts`/`rte`/`rtr`/`rtd` return; `bra`/`jbra`/`jmp`/`jra`
    /// take their target alone; a conditional branch (`bXX` but not `bsr`,
    /// or `dbXX`) takes its target plus the fall-through; anything else
    /// (calls included) falls through, or runs off the end of the body.
    pub fn edges(&self, idx: usize) -> (r: Vec<Edge>)
        requires
            self.wf(),
            idx < self.items().len(),
        ensures
            r@ == edges_68k(self.items(), idx as int),
    {
        let Some((mnem, ops)) = self.instr(idx) else { return vec![] };
        if is_return_mnemonic(mnem, Cpu::M68000) {
            return vec![Edge::Return];
        }
        if is_uncond_mnemonic_exec(mnem) {
            return vec![self.branch_edge(ops, OutFlavor::TailOut)];
        }
        if is_cond_branch_68k_exec(mnem) {
            let taken = self.branch_edge(ops, OutFlavor::BranchOut);
            return vec![taken, self.fall(idx)];
        }
        vec![self.fall(idx)]
    }

    /// The Z80 successor edges of instruction `idx`: `ret`/`reti`/`retn`
    /// return; a conditional `ret cc` returns on its taken side and falls
    /// through (or off the end) on the other; `jp`/`jr` take their target; a
    /// conditional `jp cc`/`jr cc` and `djnz` add the fall-through; anything
    /// else — `call` and `call cc` included, which come back — falls through.
    pub fn z80_edges(&self, idx: usize) -> (r: Vec<Edge>)
        requires
            self.wf(),
            idx < self.items().len(),
        ensures
            r@ == edges_z80(self.items(), idx as int),
    {
        let Some((mnem, ops)) = self.instr(idx) else { return vec![] };
        let leads_cc = ops.len() > 0 && match &ops[0] {
            CodeOperand::Z80Cc(_) => true,
            _ => false,
        };
        let ret = is_return_mnemonic(mnem, Cpu::Z80);
        if ret && !leads_cc {
            return vec![Edge::Return];
        }
        if ret && leads_cc {
            return vec![Edge::Return, self.fall(idx)];
        }
        let jump = str_eq(mnem, "jp") || str_eq(mnem, "jr");
        if jump && !leads_cc {
            return vec![self.branch_edge(ops, OutFlavor::TailOut)];
        }
        if jump && leads_cc {
            let taken = self.branch_edge(ops, OutFlavor::BranchOut);
            return vec![taken, self.fall(idx)];
        }
        if str_eq(mnem, "djnz") {
            let taken = self.branch_edge(ops, OutFlavor::BranchOut);
            return vec![taken, self.fall(idx)];
        }
        vec![self.fall(idx)]
    }

    /// The successor edges under `cpu`'s terminator semantics.
    fn edges_for(&self, idx: usize, cpu: Cpu) -> (r: Vec<Edge>)
        requires
            self.wf(),
            idx < self.items().len(),
        ensures
            r@ == edges_on(self.items(), idx as int, cpu),
    {
        match cpu {
            Cpu::Z80 => self.z80_edges(idx),
            _ => self.edges(idx),
        }
    }

    /// Whether `name` labels this proc's OWN body — any label DEFINED among
    /// these items, INCLUDING a body-closing one at the very end.
    pub fn is_local_label(&self, name: &str) -> (r: bool)
        ensures
            r == is_local_label_of(self.items(), name@),
    {
        let mut i: usize = 0;
        while i < self.items.len()
            invariant
                i <= self.items@.len(),
                forall|k: int| 0 <= k < i ==> !labels(self.items@, k, name@),
            decreases self.items@.len() - i,
        {
            match &self.items[i] {
                CodeItem::Label { name: n, .. } => {
                    if str_eq(n.as_str(), name) {
                        assert(labels(self.items@, i as int, name@));
                        return true;
                    }
                },
                _ => {},
            }
            i = i + 1;
        }
        false
    }
}


// ---------------------------------------------------------------------------
// The carry walk.
// ---------------------------------------------------------------------------

/// The instruction at `i` consumes the carry.
pub open spec fn carry_consumer_at(items: Seq<CodeItem>, i: int, cpu: Cpu) -> bool {
    0 <= i < items.len() && match items[i] {
        CodeItem::Instr { mnemonic, ops, .. } => consumes_carry_spec(mnemonic@, ops@, cpu),
        _ => false,
    }
}

/// The instruction at `i` redefines the carry without consuming it first.
pub open spec fn carry_redefiner_at(items: Seq<CodeItem>, i: int, cpu: Cpu) -> bool {
    0 <= i < items.len() && match items[i] {
        CodeItem::Instr { mnemonic, ops, .. } => !consumes_carry_spec(mnemonic@, ops@, cpu) && (
        writes_carry_spec(mnemonic@, cpu) || writes_ccr_operand_spec(ops@)),
        _ => false,
    }
}

/// The instruction at `i` neither consumes nor redefines the carry: a walk
/// carries the flag on through it.
pub open spec fn carry_passes_at(items: Seq<CodeItem>, i: int, cpu: Cpu) -> bool {
    0 <= i < items.len() && match items[i] {
        CodeItem::Instr { mnemonic, ops, .. } => !consumes_carry_spec(mnemonic@, ops@, cpu) && !(
        writes_carry_spec(mnemonic@, cpu) || writes_ccr_operand_spec(ops@)),
        _ => false,
    }
}

/// `e` is an edge out of the instruction at `i`.
pub open spec fn succ_edge(items: Seq<CodeItem>, cpu: Cpu, i: int, e: Edge) -> bool {
    edges_on(items, i, cpu).contains(e)
}

/// Step `k` of the edge path `p` carries the flag on: `p[k]` arrives at an
/// instruction that lets the carry pass, and `p[k + 1]` leaves it.
pub open spec fn carry_step_at(items: Seq<CodeItem>, cpu: Cpu, p: Seq<Edge>, k: int) -> bool {
    match p[k] {
        Edge::Follow(i) => carry_passes_at(items, i as int, cpu) && succ_edge(
            items,
            cpu,
            i as int,
            p[k + 1],
        ),
        _ => false,
    }
}

/// `p` is a path of edges the carry set by the call at `call_idx` travels
/// unconsumed: it starts with one of the call's own edges and passes only
/// through instructions that neither read nor redefine the carry.
pub open spec fn carry_walk(items: Seq<CodeItem>, call_idx: int, cpu: Cpu, p: Seq<Edge>) -> bool {
    &&& p.len() > 0
    &&& succ_edge(items, cpu, call_idx, p[0])
    &&& forall|k: int| 0 <= k < p.len() - 1 ==> #[trigger] carry_step_at(items, cpu, p, k)
}

/// Where a walk ending on edge `e` abandons the carry: it returns, runs off
/// the body's end, or arrives at an instruction that redefines the carry.
pub open spec fn abandons_at(items: Seq<CodeItem>, cpu: Cpu, e: Edge) -> bool {
    match e {
        Edge::Return => true,
        Edge::FallOff => true,
        Edge::Follow(i) => carry_redefiner_at(items, i as int, cpu),
        _ => false,
    }
}

/// Some path abandons the carry the call at `call_idx` sets.
pub open spec fn abandons_flag_spec(items: Seq<CodeItem>, call_idx: int, cpu: Cpu) -> bool {
    exists|p: Seq<Edge>| #[trigger]
        carry_walk(items, call_idx, cpu, p) && abandons_at(items, cpu, p.last())
}

/// The number of `true` entries.
pub open spec fn count_true(s: Seq<bool>) -> nat
    decreases s.len(),
{
    if s.len() == 0 {
        0
    } else {
        count_true(s.drop_last()) + if s.last() {
            1nat
        } else {
            0nat
        }
    }
}

proof fn lemma_count_true_bound(s: Seq<bool>)
    ensures
        count_true(s) <= s.len(),
    decreases s.len(),
{
    if s.len() > 0 {
        lemma_count_true_bound(s.drop_last());
    }
}

proof fn lemma_count_true_set(s: Seq<bool>, i: int)
    requires
        0 <= i < s.len(),
        !s[i],
    ensures
        count_true(s.update(i, true)) == count_true(s) + 1,
    decreases s.len(),
{
    let t = s.update(i, true);
    if i == s.len() - 1 {
        assert(t.drop_last() =~= s.drop_last());
    } else {
        assert(t.drop_last() =~= s.drop_last().update(i, true));
        lemma_count_true_set(s.drop_last(), i);
    }
}

proof fn lemma_push_keeps(q: Seq<Edge>, x: Edge)
    ensures
        forall|e: Edge| q.contains(e) ==> #[trigger] q.push(x).contains(e),
        q.push(x).contains(x),
{
    assert forall|e: Edge| q.contains(e) implies #[trigger] q.push(x).contains(e) by {
        let j = choose|j: int| 0 <= j < q.len() && q[j] == e;
        assert(q.push(x)[j] == e);
    }
    assert(q.push(x)[q.len() as int] == x);
}

/// Every edge of a carry walk lies in a queue that holds the call's edges and
/// the edges of every visited pass-through instruction, when every queued
/// `Follow` was visited.
proof fn lemma_walk_queued(
    items: Seq<CodeItem>,
    call_idx: int,
    cpu: Cpu,
    p: Seq<Edge>,
    q: Seq<Edge>,
    vis: Seq<bool>,
    k: int,
)
    requires
        carry_walk(items, call_idx, cpu, p),
        0 <= k < p.len(),
        forall|e: Edge| #[trigger] succ_edge(items, cpu, call_idx, e) ==> q.contains(e),
        forall|i: int, e: Edge|
            0 <= i < vis.len() && vis[i] && carry_passes_at(items, i, cpu) && #[trigger] succ_edge(
                items,
                cpu,
                i,
                e,
            ) ==> q.contains(e),
        forall|j: int|
            0 <= j < q.len() ==> (#[trigger] q[j] matches Edge::Follow(i) ==> i < vis.len()
                && vis[i as int]),
    ensures
        q.contains(p[k]),
    decreases k,
{
    if k > 0 {
        lemma_walk_queued(items, call_idx, cpu, p, q, vis, k - 1);
        assert(carry_step_at(items, cpu, p, k - 1));
        let j = choose|j: int| 0 <= j < q.len() && q[j] == p[k - 1];
        assert(q[j] == p[k - 1]);
        if let Edge::Follow(i) = p[k - 1] {
            assert(succ_edge(items, cpu, i as int, p[k]));
        }
    } else {
        assert(succ_edge(items, cpu, call_idx, p[0]));
    }
}

/// Breadth-first reachability from the edges of the call at `call_idx`: is
/// there a path that REACHES a redefine, a return or the body's end without
/// first crossing a carry consumer? Consumers prune (that path is satisfied);
/// a transfer-out edge of either flavor prunes too (the flag flows out of the
/// proc). The visited set gives the graph real joins so loops terminate.
#[verifier::spinoff_prover]
fn abandons_flag(cfg: &Cfg, call_idx: usize, cpu: Cpu) -> (r: bool)
    requires
        cfg.wf(),
        call_idx < cfg.items().len(),
    ensures
        r == abandons_flag_spec(cfg.items(), call_idx as int, cpu),
{
    let ghost items = cfg.items();
    let n = cfg.len();
    let mut visited: Vec<bool> = Vec::new();
    let mut k: usize = 0;
    while k < n
        invariant
            k <= n,
            visited@.len() == k,
            forall|j: int| 0 <= j < k ==> !visited@[j],
        decreases n - k,
    {
        visited.push(false);
        k = k + 1;
    }
    proof {
        assert(count_true(visited@) == 0) by {
            assert(visited@ =~= Seq::new(visited@.len(), |j: int| false));
            lemma_count_false(visited@.len());
        }
    }
    let mut nvis: usize = 0;
    let mut queue: Vec<Edge> = cfg.edges_for(call_idx, cpu);
    let ghost mut wit: Seq<Seq<Edge>> = Seq::new(queue@.len(), |q: int| seq![queue@[q]]);
    let mut head: usize = 0;
    proof {
        assert forall|q: int| 0 <= q < queue@.len() implies (#[trigger] queue@[q] matches Edge::Follow(
            i,
        ) ==> i < n) by {
            if let Edge::Follow(i) = queue@[q] {
                assert(edges_on(items, call_idx as int, cpu).contains(Edge::Follow(i)));
                law_follow_targets_are_instructions(items, call_idx as int, cpu, i);
            }
        }
        assert forall|q: int| 0 <= q < queue@.len() implies carry_walk(
            items,
            call_idx as int,
            cpu,
            #[trigger] wit[q],
        ) && wit[q].last() == queue@[q] by {
            assert(wit[q] == seq![queue@[q]]);
            assert(succ_edge(items, cpu, call_idx as int, queue@[q]));
        }
        assert forall|e: Edge| #[trigger] succ_edge(items, cpu, call_idx as int, e) implies queue@.contains(e) by {}
    }
    while head < queue.len()
        invariant
            cfg.wf(),
            items == cfg.items(),
            n == items.len(),
            call_idx < n,
            visited@.len() == n,
            head <= queue@.len(),
            nvis == count_true(visited@),
            nvis <= n,
            wit.len() == queue@.len(),
            forall|q: int|
                0 <= q < queue@.len() ==> (#[trigger] queue@[q] matches Edge::Follow(i) ==> i < n),
            forall|q: int|
                0 <= q < queue@.len() ==> carry_walk(items, call_idx as int, cpu, #[trigger] wit[q])
                    && wit[q].last() == queue@[q],
            forall|e: Edge| #[trigger] succ_edge(items, cpu, call_idx as int, e) ==> queue@.contains(e),
            forall|i: int| 0 <= i < n && #[trigger] visited@[i] ==> !carry_redefiner_at(items, i, cpu),
            forall|i: int, e: Edge|
                0 <= i < n && visited@[i] && carry_passes_at(items, i, cpu) && #[trigger] succ_edge(
                    items,
                    cpu,
                    i,
                    e,
                ) ==> queue@.contains(e),
            forall|q: int|
                0 <= q < head ==> (#[trigger] queue@[q] != Edge::Return && queue@[q] != Edge::FallOff
                    && (queue@[q] matches Edge::Follow(i) ==> visited@[i as int])),
        decreases n - nvis, queue@.len() - head,
    {
        let e = queue[head];
        let ghost path = wit[head as int];
        head = head + 1;
        match e {
            Edge::Return | Edge::FallOff => {
                assert(carry_walk(items, call_idx as int, cpu, path) && abandons_at(items, cpu, path.last()));
                return true;
            },
            Edge::TailOut | Edge::BranchOut => {},
            Edge::Follow(i) => {
                if !visited[i] {
                    proof {
                        lemma_count_true_set(visited@, i as int);
                        lemma_count_true_bound(visited@.update(i as int, true));
                    }
                    visited.set(i, true);
                    nvis = nvis + 1;
                    match cfg.instr(i) {
                        None => {},
                        Some((mnem, ops)) => {
                            if !consumes_carry(mnem, ops, cpu) {
                                if writes_carry(mnem, cpu) || writes_ccr_operand(ops) {
                                    assert(carry_walk(items, call_idx as int, cpu, path)
                                        && abandons_at(items, cpu, path.last()));
                                    return true;
                                }
                                let es = cfg.edges_for(i, cpu);
                                let mut j: usize = 0;
                                while j < es.len()
                                    invariant
                                        cfg.wf(),
                                        items == cfg.items(),
                                        n == items.len(),
                                        i < n,
                                        carry_passes_at(items, i as int, cpu),
                                        es@ == edges_on(items, i as int, cpu),
                                        j <= es@.len(),
                                        wit.len() == queue@.len(),
                                        head <= queue@.len(),
                                        carry_walk(items, call_idx as int, cpu, path),
                                        path.last() == Edge::Follow(i),
                                        forall|q: int|
                                            0 <= q < queue@.len() ==> (#[trigger] queue@[q] matches Edge::Follow(
                                                t,
                                            ) ==> t < n),
                                        forall|q: int|
                                            0 <= q < queue@.len() ==> carry_walk(
                                                items,
                                                call_idx as int,
                                                cpu,
                                                #[trigger] wit[q],
                                            ) && wit[q].last() == queue@[q],
                                        forall|jj: int| 0 <= jj < j ==> queue@.contains(#[trigger] es@[jj]),
                                        forall|ee: Edge| #[trigger] succ_edge(items, cpu, call_idx as int, ee) ==> queue@.contains(ee),
                                        forall|t: int, ee: Edge|
                                            0 <= t < n && visited@[t] && carry_passes_at(items, t, cpu)
                                                && t != i && #[trigger] succ_edge(items, cpu, t, ee)
                                                ==> queue@.contains(ee),
                                        forall|q: int|
                                            0 <= q < head ==> (#[trigger] queue@[q] != Edge::Return
                                                && queue@[q] != Edge::FallOff && (queue@[q] matches Edge::Follow(
                                                t,
                                            ) ==> visited@[t as int])),
                                    decreases es@.len() - j,
                                {
                                    let x = es[j];
                                    proof {
                                        lemma_push_keeps(queue@, x);
                                        assert(edges_on(items, i as int, cpu).contains(x)) by {
                                            assert(es@[j as int] == x);
                                        }
                                        if let Edge::Follow(t) = x {
                                            law_follow_targets_are_instructions(items, i as int, cpu, t);
                                        }
                                        let np = path.push(x);
                                        assert forall|kk: int| 0 <= kk < np.len() - 1 implies #[trigger] carry_step_at(items, cpu, np, kk) by {
                                            if kk < path.len() - 1 {
                                                assert(carry_step_at(items, cpu, path, kk));
                                            } else {
                                                assert(np[kk] == Edge::Follow(i));
                                                assert(succ_edge(items, cpu, i as int, x));
                                            }
                                        }
                                        wit = wit.push(np);
                                    }
                                    queue.push(x);
                                    j = j + 1;
                                }
                                proof {
                                    assert forall|ee: Edge| #[trigger] succ_edge(items, cpu, i as int, ee) implies queue@.contains(ee) by {
                                        let jj = choose|jj: int| 0 <= jj < es@.len() && es@[jj] == ee;
                                        assert(queue@.contains(es@[jj]));
                                    }
                                }
                            }
                        },
                    }
                }
            },
        }
    }
    proof {
        assert forall|p: Seq<Edge>| #[trigger] carry_walk(items, call_idx as int, cpu, p) implies !abandons_at(items, cpu, p.last()) by {
            lemma_walk_queued(items, call_idx as int, cpu, p, queue@, visited@, p.len() - 1);
            let j = choose|j: int| 0 <= j < queue@.len() && queue@[j] == p.last();
            assert(queue@[j] == p.last());
        }
    }
    false
}

proof fn lemma_count_false(n: nat)
    ensures
        count_true(Seq::new(n, |j: int| false)) == 0,
    decreases n,
{
    if n > 0 {
        assert(Seq::new(n, |j: int| false).drop_last() =~= Seq::new((n - 1) as nat, |j: int| false));
        lemma_count_false((n - 1) as nat);
    }
}

// ---------------------------------------------------------------------------
// [call.flag-result-unused]
// ---------------------------------------------------------------------------

/// The kind of flag-result violation.
#[derive(Clone, Debug, PartialEq, Eq)]
pub enum FlagFiringKind {
    /// `[call.flag-result-unused]`: a flag result reaches a redefine, a return
    /// or the proc's end on some path without being consumed.
    Unused,
    /// `[call.result-invalid-path]`: a conditional register result
    /// `out(rN if cc)` is read on the path where `cc` says it is invalid.
    /// `reg`/`cc` name the offending result and its validity guard.
    InvalidPathRead { reg: String, cc: String },
}

/// One flag-result firing.
#[derive(Clone, Debug, PartialEq, Eq)]
pub struct FlagFiring {
    /// The calling proc.
    pub proc: String,
    /// The flag-result callee whose result was abandoned or mis-read.
    pub callee: String,
    /// The flag that went unconsumed (or the guard, for an invalid-path read).
    pub flag: String,
    /// The call site.
    pub span: Span,
    /// Which check fired.
    pub kind: FlagFiringKind,
}

/// What the FIRST entry for `name` carries, in a table of `(callee, value)`
/// entries.
pub open spec fn callee_entry<V>(callees: Seq<(String, V)>, name: Seq<char>) -> Option<V>
    decreases callees.len(),
{
    if callees.len() == 0 {
        None
    } else if callees[0].0@ == name {
        Some(callees[0].1)
    } else {
        callee_entry(callees.drop_first(), name)
    }
}

/// Whether a flag list names the carry.
pub open spec fn names_carry(flags: Seq<String>) -> bool {
    exists|j: int| 0 <= j < flags.len() && #[trigger] flags[j]@ == "carry"@
}

/// The firing (callee, call span) the item at `idx` contributes, if any: a
/// direct call site to a callee whose flags name the carry, not marked
/// `@discards`, from which some path abandons the carry.
pub open spec fn unused_flag_at(
    items: Seq<CodeItem>,
    callees: Seq<(String, Vec<String>)>,
    discarded: Seq<Span>,
    cpu: Cpu,
    idx: int,
) -> Option<(Seq<char>, Span)> {
    match items[idx] {
        CodeItem::Instr { mnemonic, ops, span } => {
            if is_call_site_spec(mnemonic@, cpu) {
                match branch_target_spec(ops@) {
                    Some(c) => match callee_entry(callees, c) {
                        Some(fl) => if !discarded.contains(span) && names_carry(fl@)
                            && abandons_flag_spec(items, idx, cpu) {
                            Some((c, span))
                        } else {
                            None
                        },
                        None => None,
                    },
                    None => None,
                }
            } else {
                None
            }
        },
        _ => None,
    }
}

/// The firings of the first `n` items, in item order.
pub open spec fn unused_flag_sites(
    items: Seq<CodeItem>,
    callees: Seq<(String, Vec<String>)>,
    discarded: Seq<Span>,
    cpu: Cpu,
    n: int,
) -> Seq<(Seq<char>, Span)>
    decreases n,
{
    if n <= 0 {
        Seq::empty()
    } else {
        let prev = unused_flag_sites(items, callees, discarded, cpu, n - 1);
        match unused_flag_at(items, callees, discarded, cpu, n - 1) {
            Some(x) => prev.push(x),
            None => prev,
        }
    }
}

fn lookup_callee_entry<'b, V>(callees: &'b [(String, V)], name: &str) -> (r: Option<&'b V>)
    ensures
        match callee_entry(callees@, name@) {
            Some(e) => r matches Some(v) && *v == e,
            None => r is None,
        },
{
    let mut j: usize = 0;
    assert(callees@.subrange(0, callees@.len() as int) =~= callees@);
    while j < callees.len()
        invariant
            j <= callees@.len(),
            callee_entry(callees@, name@) == callee_entry(
                callees@.subrange(j as int, callees@.len() as int),
                name@,
            ),
        decreases callees@.len() - j,
    {
        let ghost rest = callees@.subrange(j as int, callees@.len() as int);
        assert(rest[0] == callees@[j as int]);
        if str_eq(callees[j].0.as_str(), name) {
            return Some(&callees[j].1);
        }
        assert(rest.drop_first() =~= callees@.subrange(j + 1, callees@.len() as int));
        j = j + 1;
    }
    None
}

fn flags_name_carry(flags: &Vec<String>) -> (r: bool)
    ensures
        r == names_carry(flags@),
{
    let mut j: usize = 0;
    while j < flags.len()
        invariant
            j <= flags@.len(),
            forall|k: int| 0 <= k < j ==> flags@[k]@ != "carry"@,
        decreases flags@.len() - j,
    {
        if str_eq(flags[j].as_str(), "carry") {
            return true;
        }
        j = j + 1;
    }
    false
}

fn span_listed(spans: &[Span], span: Span) -> (r: bool)
    ensures
        r == spans@.contains(span),
{
    let mut j: usize = 0;
    while j < spans.len()
        invariant
            j <= spans@.len(),
            forall|k: int| 0 <= k < j ==> spans@[k] != span,
        decreases spans@.len() - j,
    {
        if spans[j] == span {
            assert(spans@[j as int] == span);
            return true;
        }
        j = j + 1;
    }
    false
}

/// Run `[call.flag-result-unused]` over one proc's evaluated `items`. For
/// each direct call to a callee whose entry in `flag_callees` names the
/// `carry` flag, fire once when some path abandons the carry (see
/// [`abandons_flag_spec`]). `discarded` lists the call-site spans carrying
/// `@discards`; those calls never fire.
#[verifier::spinoff_prover]
pub fn check_flag_unused(
    proc_name: &str,
    items: &[CodeItem],
    flag_callees: &[(String, Vec<String>)],
    discarded: &[Span],
    cpu: Cpu,
) -> (r: Vec<FlagFiring>)
    ensures
        ({
            let sites = unused_flag_sites(items@, flag_callees@, discarded@, cpu, items@.len() as int);
            &&& r@.len() == sites.len()
            &&& forall|k: int|
                0 <= k < r@.len() ==> {
                    &&& (#[trigger] r@[k]).proc@ == proc_name@
                    &&& r@[k].callee@ == sites[k].0
                    &&& r@[k].flag@ == "carry"@
                    &&& r@[k].span == sites[k].1
                    &&& r@[k].kind == FlagFiringKind::Unused
                }
        }),
{
    let cfg = Cfg::build(items);
    let mut firings: Vec<FlagFiring> = Vec::new();
    let mut idx: usize = 0;
    while idx < items.len()
        invariant
            idx <= items@.len(),
            cfg.wf(),
            cfg.items() == items@,
            ({
                let sites = unused_flag_sites(items@, flag_callees@, discarded@, cpu, idx as int);
                &&& firings@.len() == sites.len()
                &&& forall|k: int|
                    0 <= k < firings@.len() ==> {
                        &&& (#[trigger] firings@[k]).proc@ == proc_name@
                        &&& firings@[k].callee@ == sites[k].0
                        &&& firings@[k].flag@ == "carry"@
                        &&& firings@[k].span == sites[k].1
                        &&& firings@[k].kind == FlagFiringKind::Unused
                    }
            }),
        decreases items@.len() - idx,
    {
        let ghost fired = unused_flag_at(items@, flag_callees@, discarded@, cpu, idx as int);
        let mut hit: Option<(&str, Span)> = None;
        match &items[idx] {
            CodeItem::Instr { mnemonic, ops, span } => {
                if is_call_site(mnemonic.as_str(), cpu) {
                    match branch_target(ops.as_slice()) {
                        Some(callee) => match lookup_callee_entry(flag_callees, callee) {
                            Some(flags) => {
                                if !span_listed(discarded, *span) && flags_name_carry(flags)
                                    && abandons_flag(&cfg, idx, cpu) {
                                    hit = Some((callee, *span));
                                }
                            },
                            None => {},
                        },
                        None => {},
                    }
                }
            },
            _ => {},
        }
        assert(match fired {
            Some(x) => hit matches Some(h) && h.0@ == x.0 && h.1 == x.1,
            None => hit is None,
        });
        match hit {
            Some((callee, span)) => {
                proof {
                    reveal_strlit("carry");
                }
                let f = FlagFiring {
                    proc: proc_name.to_owned(),
                    callee: callee.to_owned(),
                    flag: String::from_str("carry"),
                    span,
                    kind: FlagFiringKind::Unused,
                };
                firings.push(f);
            },
            None => {},
        }
        idx = idx + 1;
    }
    firings
}


// ---------------------------------------------------------------------------
// [call.result-invalid-path]: conditional register results.
// ---------------------------------------------------------------------------

/// The canonical condition a two-letter branch condition spells (`hs` is
/// `cc`, `lo` is `cs`); `None` for anything else.
pub open spec fn canonical_cond(bare: Seq<char>) -> Option<Seq<char>> {
    if bare == "cc"@ {
        Some("cc"@)
    } else if bare == "hs"@ {
        Some("cc"@)
    } else if bare == "cs"@ {
        Some("cs"@)
    } else if bare == "lo"@ {
        Some("cs"@)
    } else if bare == "eq"@ {
        Some("eq"@)
    } else if bare == "ne"@ {
        Some("ne"@)
    } else if bare == "hi"@ {
        Some("hi"@)
    } else if bare == "ls"@ {
        Some("ls"@)
    } else if bare == "pl"@ {
        Some("pl"@)
    } else if bare == "mi"@ {
        Some("mi"@)
    } else if bare == "vc"@ {
        Some("vc"@)
    } else if bare == "vs"@ {
        Some("vs"@)
    } else if bare == "ge"@ {
        Some("ge"@)
    } else if bare == "lt"@ {
        Some("lt"@)
    } else if bare == "gt"@ {
        Some("gt"@)
    } else if bare == "le"@ {
        Some("le"@)
    } else {
        None
    }
}

/// The condition a `bXX`/`sXX` branch or set tests, canonicalized.
pub open spec fn branch_cond_spec(m: Seq<char>) -> Option<Seq<char>> {
    if m.len() > 0 && (m[0] == 'b' || m[0] == 's') {
        canonical_cond(m.drop_first())
    } else {
        None
    }
}

/// The negation of a condition code, its `hs`/`lo` aliases included.
pub open spec fn negated_cond(cc: Seq<char>) -> Option<Seq<char>> {
    if cc == "cc"@ {
        Some("cs"@)
    } else if cc == "hs"@ {
        Some("cs"@)
    } else if cc == "cs"@ {
        Some("cc"@)
    } else if cc == "lo"@ {
        Some("cc"@)
    } else if cc == "eq"@ {
        Some("ne"@)
    } else if cc == "ne"@ {
        Some("eq"@)
    } else if cc == "hi"@ {
        Some("ls"@)
    } else if cc == "ls"@ {
        Some("hi"@)
    } else if cc == "pl"@ {
        Some("mi"@)
    } else if cc == "mi"@ {
        Some("pl"@)
    } else if cc == "vc"@ {
        Some("vs"@)
    } else if cc == "vs"@ {
        Some("vc"@)
    } else if cc == "ge"@ {
        Some("lt"@)
    } else if cc == "lt"@ {
        Some("ge"@)
    } else if cc == "gt"@ {
        Some("le"@)
    } else if cc == "le"@ {
        Some("gt"@)
    } else {
        None
    }
}

/// A declared guard spelled canonically: `hs` as `cc`, `lo` as `cs`, any
/// other spelling as itself.
pub open spec fn canonical_guard(cc: Seq<char>) -> Seq<char> {
    if cc == "hs"@ {
        "cc"@
    } else if cc == "lo"@ {
        "cs"@
    } else {
        cc
    }
}

fn canonical_cond_exec(bare: &str) -> (r: Option<&'static str>)
    ensures
        match canonical_cond(bare@) {
            Some(c) => r matches Some(s) && s@ == c,
            None => r is None,
        },
{
    if str_eq(bare, "cc") {
        Some("cc")
    } else if str_eq(bare, "hs") {
        Some("cc")
    } else if str_eq(bare, "cs") {
        Some("cs")
    } else if str_eq(bare, "lo") {
        Some("cs")
    } else if str_eq(bare, "eq") {
        Some("eq")
    } else if str_eq(bare, "ne") {
        Some("ne")
    } else if str_eq(bare, "hi") {
        Some("hi")
    } else if str_eq(bare, "ls") {
        Some("ls")
    } else if str_eq(bare, "pl") {
        Some("pl")
    } else if str_eq(bare, "mi") {
        Some("mi")
    } else if str_eq(bare, "vc") {
        Some("vc")
    } else if str_eq(bare, "vs") {
        Some("vs")
    } else if str_eq(bare, "ge") {
        Some("ge")
    } else if str_eq(bare, "lt") {
        Some("lt")
    } else if str_eq(bare, "gt") {
        Some("gt")
    } else if str_eq(bare, "le") {
        Some("le")
    } else {
        None
    }
}

/// The condition a `bXX`/`sXX` branch or set tests, stripped of the
/// mnemonic prefix and canonicalized (`bcc` and `bhs` test `cc`, `blo`
/// tests `cs`, `beq` tests `eq`, ...). `None` for a non-branch, an
/// unconditional `bra`, or `dbf`/`dbra`.
pub fn branch_cond(mnem: &str) -> (r: Option<&'static str>)
    ensures
        match branch_cond_spec(mnem@) {
            Some(c) => r matches Some(s) && s@ == c,
            None => r is None,
        },
{
    let n = mnem.unicode_len();
    if n == 0 {
        return None;
    }
    let c0 = mnem.get_char(0);
    if c0 != 'b' && c0 != 's' {
        return None;
    }
    let bare = mnem.substring_char(1, n);
    assert(bare@ =~= mnem@.drop_first());
    canonical_cond_exec(bare)
}

/// The negation of a condition code (`cc` and `cs`, `eq` and `ne`, ...),
/// with the `hs`/`lo` aliases canonicalized first.
pub fn negate_cc(cc: &str) -> (r: Option<&'static str>)
    ensures
        match negated_cond(cc@) {
            Some(c) => r matches Some(s) && s@ == c,
            None => r is None,
        },
{
    if str_eq(cc, "cc") {
        Some("cs")
    } else if str_eq(cc, "hs") {
        Some("cs")
    } else if str_eq(cc, "cs") {
        Some("cc")
    } else if str_eq(cc, "lo") {
        Some("cc")
    } else if str_eq(cc, "eq") {
        Some("ne")
    } else if str_eq(cc, "ne") {
        Some("eq")
    } else if str_eq(cc, "hi") {
        Some("ls")
    } else if str_eq(cc, "ls") {
        Some("hi")
    } else if str_eq(cc, "pl") {
        Some("mi")
    } else if str_eq(cc, "mi") {
        Some("pl")
    } else if str_eq(cc, "vc") {
        Some("vs")
    } else if str_eq(cc, "vs") {
        Some("vc")
    } else if str_eq(cc, "ge") {
        Some("lt")
    } else if str_eq(cc, "lt") {
        Some("ge")
    } else if str_eq(cc, "gt") {
        Some("le")
    } else if str_eq(cc, "le") {
        Some("gt")
    } else {
        None
    }
}

/// A declared guard in the canonical spelling [`branch_cond`] yields.
pub fn canonical_cc(cc: &str) -> (r: &str)
    ensures
        r@ == canonical_guard(cc@),
{
    if str_eq(cc, "hs") {
        "cc"
    } else if str_eq(cc, "lo") {
        "cs"
    } else {
        cc
    }
}

/// `s` with `r` added at its end unless already present.
pub open spec fn add_reg(s: Seq<Reg>, r: Reg) -> Seq<Reg> {
    if s.contains(r) {
        s
    } else {
        s.push(r)
    }
}

/// The registers an operand mentions, added to `s`: a direct register, an
/// indirect base, or an indexed form's base and index.
pub open spec fn operand_regs(s: Seq<Reg>, op: CodeOperand) -> Seq<Reg> {
    match op {
        CodeOperand::Reg(r) => add_reg(s, r),
        CodeOperand::Ind(r) => add_reg(s, r),
        CodeOperand::PreDec(r) => add_reg(s, r),
        CodeOperand::PostInc(r) => add_reg(s, r),
        CodeOperand::DispInd { reg, .. } => add_reg(s, reg),
        CodeOperand::DispSymInd { reg, .. } => add_reg(s, reg),
        CodeOperand::IndIdx { reg, xn, .. } => add_reg(add_reg(s, reg), xn),
        _ => s,
    }
}

/// The registers the first `n` operands mention, each once, in order of
/// first mention.
pub open spec fn regs_mentioned_upto(ops: Seq<CodeOperand>, n: int) -> Seq<Reg>
    decreases n,
{
    if n <= 0 {
        Seq::empty()
    } else {
        operand_regs(regs_mentioned_upto(ops, n - 1), ops[n - 1])
    }
}

/// Every register an operand list mentions, each once, in order of first
/// mention.
pub open spec fn regs_mentioned_spec(ops: Seq<CodeOperand>) -> Seq<Reg> {
    regs_mentioned_upto(ops, ops.len() as int)
}

fn reg_listed(v: &Vec<Reg>, r: Reg) -> (b: bool)
    ensures
        b == v@.contains(r),
{
    let mut j: usize = 0;
    while j < v.len()
        invariant
            j <= v@.len(),
            forall|k: int| 0 <= k < j ==> v@[k] != r,
        decreases v@.len() - j,
    {
        if v[j] == r {
            assert(v@[j as int] == r);
            return true;
        }
        j = j + 1;
    }
    false
}

fn add_reg_exec(v: &mut Vec<Reg>, r: Reg)
    ensures
        final(v)@ == add_reg(old(v)@, r),
{
    if !reg_listed(v, r) {
        v.push(r);
    }
}

/// Every register an operand list MENTIONS (any position, an indirect base
/// or an index included), each once, in order of first mention; so
/// mentioned minus written is the read set.
pub fn regs_mentioned(ops: &[CodeOperand]) -> (r: Vec<Reg>)
    ensures
        r@ == regs_mentioned_spec(ops@),
{
    let mut regs: Vec<Reg> = Vec::new();
    let mut i: usize = 0;
    while i < ops.len()
        invariant
            i <= ops@.len(),
            regs@ == regs_mentioned_upto(ops@, i as int),
        decreases ops@.len() - i,
    {
        match &ops[i] {
            CodeOperand::Reg(r) => add_reg_exec(&mut regs, *r),
            CodeOperand::Ind(r) => add_reg_exec(&mut regs, *r),
            CodeOperand::PreDec(r) => add_reg_exec(&mut regs, *r),
            CodeOperand::PostInc(r) => add_reg_exec(&mut regs, *r),
            CodeOperand::DispInd { reg, .. } => add_reg_exec(&mut regs, *reg),
            CodeOperand::DispSymInd { reg, .. } => add_reg_exec(&mut regs, *reg),
            CodeOperand::IndIdx { reg, xn, .. } => {
                add_reg_exec(&mut regs, *reg);
                add_reg_exec(&mut regs, *xn);
            },
            _ => {},
        }
        i = i + 1;
    }
    regs
}

/// Following the fall-through chain from the instruction at `idx`, the item
/// index that begins the edge where the guard `cc` does NOT hold: at the first
/// branch testing `cc` that is its fall-through, at one testing `neg` its
/// taken label; an unrelated branch, a return, or a carry redefine on the way
/// gives `None`.
pub open spec fn invalid_edge_from(items: Seq<CodeItem>, idx: int, cc: Seq<char>, neg: Seq<char>) -> Option<int>
    decreases items.len() - idx,
{
    if 0 <= idx < items.len() {
        match items[idx] {
            CodeItem::Instr { mnemonic, ops, .. } => {
                let m = mnemonic@;
                match branch_cond_spec(m) {
                    Some(bc) => if bc == cc {
                        next_instr_of(items, idx)
                    } else if bc == neg {
                        match branch_target_spec(ops@) {
                            Some(t) => label_target_of(items, t),
                            None => None,
                        }
                    } else {
                        None
                    },
                    None => if is_return_68k(m) || writes_carry_spec(m, Cpu::M68000)
                        || writes_ccr_operand_spec(ops@) {
                        None
                    } else {
                        match next_instr_of(items, idx) {
                            Some(j) => if idx < j < items.len() {
                                invalid_edge_from(items, j, cc, neg)
                            } else {
                                None
                            },
                            None => None,
                        }
                    },
                }
            },
            _ => None,
        }
    } else {
        None
    }
}

/// The item index that begins the INVALID edge of the guard `cc` after the
/// call at `call_idx` (see [`invalid_edge_from`]); the guard is canonicalized
/// first, and a guard with no negation gives `None`.
pub open spec fn invalid_edge_spec(items: Seq<CodeItem>, call_idx: int, cc: Seq<char>) -> Option<int> {
    let c = canonical_guard(cc);
    match negated_cond(c) {
        Some(neg) => match next_instr_of(items, call_idx) {
            Some(j) => invalid_edge_from(items, j, c, neg),
            None => None,
        },
        None => None,
    }
}

impl<'a> Cfg<'a> {
    /// From the call at `call_idx`, walk the fall-through chain to the first
    /// branch that tests `cc` (or its negation) and return the item index that
    /// begins the INVALID edge (where `cc` does NOT hold). `None` when the
    /// guard is redefined first, the path returns, or an unrelated branch is
    /// reached.
    pub fn invalid_edge(&self, call_idx: usize, cc: &str) -> (r: Option<usize>)
        requires
            self.wf(),
        ensures
            match invalid_edge_spec(self.items(), call_idx as int, cc@) {
                Some(j) => r == Some(j as usize),
                None => r is None,
            },
    {
        let ghost items = self.items();
        let guard = canonical_cc(cc);
        let neg = match negate_cc(guard) {
            Some(n) => n,
            None => return None,
        };
        let mut idx = match self.next_instr(call_idx) {
            Some(j) => j,
            None => return None,
        };
        proof {
            lemma_first_instr_from(items, call_idx + 1);
        }
        loop
            invariant
                self.wf(),
                items == self.items(),
                idx < items.len(),
                guard@ == canonical_guard(cc@),
                invalid_edge_spec(items, call_idx as int, cc@) == invalid_edge_from(
                    items,
                    idx as int,
                    guard@,
                    neg@,
                ),
            decreases items.len() - idx,
        {
            let Some((mnem, ops)) = self.instr(idx) else { return None };
            match branch_cond(mnem) {
                Some(bc) => {
                    if str_eq(bc, guard) {
                        return self.next_instr(idx);
                    } else if str_eq(bc, neg) {
                        return match branch_target(ops) {
                            Some(t) => self.label_index(t),
                            None => None,
                        };
                    } else {
                        return None;
                    }
                },
                None => {},
            }
            if is_return_mnemonic(mnem, Cpu::M68000) || writes_carry(mnem, Cpu::M68000)
                || writes_ccr_operand(ops) {
                return None;
            }
            match self.next_instr(idx) {
                Some(j) => {
                    proof {
                        lemma_first_instr_from(items, idx + 1);
                    }
                    idx = j;
                },
                None => return None,
            }
        }
    }
}

/// Whether a list of register names names `r` (in the `d0`..`a7` spelling).
pub open spec fn names_reg(outs: Seq<String>, r: Reg) -> bool {
    exists|j: int| 0 <= j < outs.len() && #[trigger] outs[j]@ == reg_name(r)
}

/// The unconditional outs of the callee a direct 68k call names, looked up in
/// a `(callee, registers)` table; `None` for anything but such a call.
pub open spec fn call_outs_spec(
    m: Seq<char>,
    ops: Seq<CodeOperand>,
    uncond_outs: Seq<(String, Vec<String>)>,
) -> Option<Seq<String>> {
    if is_call_mnemonic(m) {
        match branch_target_spec(ops) {
            Some(t) => match callee_entry(uncond_outs, t) {
                Some(v) => Some(v@),
                None => None,
            },
            None => None,
        }
    } else {
        None
    }
}

/// The registers item `i` writes, per a table indexed by item; an item past
/// the table's end writes none.
pub open spec fn written_at(written: Seq<Vec<Reg>>, i: int) -> Seq<Reg> {
    if 0 <= i < written.len() {
        written[i]@
    } else {
        Seq::empty()
    }
}

/// The instruction at `i` reads `reg`: it mentions it and does not write it.
pub open spec fn reads_reg_at(items: Seq<CodeItem>, written: Seq<Vec<Reg>>, i: int, reg: Reg) -> bool {
    0 <= i < items.len() && match items[i] {
        CodeItem::Instr { ops, .. } => regs_mentioned_spec(ops@).contains(reg)
            && !written_at(written, i).contains(reg),
        _ => false,
    }
}

/// The instruction at `i` is a call whose callee unconditionally defines
/// `reg` on return.
pub open spec fn call_defines_at(
    items: Seq<CodeItem>,
    uncond_outs: Seq<(String, Vec<String>)>,
    i: int,
    reg: Reg,
) -> bool {
    0 <= i < items.len() && match items[i] {
        CodeItem::Instr { mnemonic, ops, .. } => match call_outs_spec(mnemonic@, ops@, uncond_outs) {
            Some(outs) => names_reg(outs, reg),
            None => false,
        },
        _ => false,
    }
}

/// The instruction at `i` neither reads nor redefines `reg`: the invalid
/// value travels on through it.
pub open spec fn reg_passes_at(
    items: Seq<CodeItem>,
    written: Seq<Vec<Reg>>,
    uncond_outs: Seq<(String, Vec<String>)>,
    i: int,
    reg: Reg,
) -> bool {
    &&& 0 <= i < items.len()
    &&& items[i] is Instr
    &&& !reads_reg_at(items, written, i, reg)
    &&& !call_defines_at(items, uncond_outs, i, reg)
    &&& !written_at(written, i).contains(reg)
}

/// Step `k` of the node path `p` carries the invalid `reg` on.
pub open spec fn reg_step_at(
    items: Seq<CodeItem>,
    written: Seq<Vec<Reg>>,
    uncond_outs: Seq<(String, Vec<String>)>,
    reg: Reg,
    p: Seq<usize>,
    k: int,
) -> bool {
    &&& reg_passes_at(items, written, uncond_outs, p[k] as int, reg)
    &&& edges_68k(items, p[k] as int).contains(Edge::Follow(p[k + 1]))
}

/// `p` is a path of item indices from `start` along which `reg` stays
/// neither read nor redefined, following in-body edges.
pub open spec fn reg_walk(
    items: Seq<CodeItem>,
    written: Seq<Vec<Reg>>,
    uncond_outs: Seq<(String, Vec<String>)>,
    start: usize,
    reg: Reg,
    p: Seq<usize>,
) -> bool {
    &&& p.len() > 0
    &&& p[0] == start
    &&& forall|k: int| 0 <= k < p.len() - 1 ==> #[trigger] reg_step_at(items, written, uncond_outs, reg, p, k)
}

/// Some path from `start` reads `reg` before redefining it.
pub open spec fn reads_before_redefine_spec(
    items: Seq<CodeItem>,
    written: Seq<Vec<Reg>>,
    uncond_outs: Seq<(String, Vec<String>)>,
    start: usize,
    reg: Reg,
) -> bool {
    exists|p: Seq<usize>| #[trigger]
        reg_walk(items, written, uncond_outs, start, reg, p) && reads_reg_at(
            items,
            written,
            p.last() as int,
            reg,
        )
}

/// The unconditional outs of the callee a direct call names; `None` for any
/// other instruction or a callee the table does not list.
fn call_unconditional_outs<'b>(
    mnem: &str,
    ops: &[CodeOperand],
    uncond_outs: &'b [(String, Vec<String>)],
) -> (r: Option<&'b Vec<String>>)
    ensures
        match call_outs_spec(mnem@, ops@, uncond_outs@) {
            Some(outs) => r matches Some(v) && v@ == outs,
            None => r is None,
        },
{
    if !is_call_mnemonic_exec(mnem) {
        return None;
    }
    match branch_target(ops) {
        Some(t) => lookup_callee_entry(uncond_outs, t),
        None => None,
    }
}

fn names_reg_exec(outs: &Vec<String>, r: Reg) -> (b: bool)
    ensures
        b == names_reg(outs@, r),
{
    let name = r.name();
    let mut j: usize = 0;
    while j < outs.len()
        invariant
            j <= outs@.len(),
            name@ == reg_name(r),
            forall|k: int| 0 <= k < j ==> outs@[k]@ != reg_name(r),
        decreases outs@.len() - j,
    {
        if str_eq(outs[j].as_str(), name) {
            return true;
        }
        j = j + 1;
    }
    false
}

proof fn lemma_push_keeps_index(q: Seq<usize>, x: usize)
    ensures
        forall|e: usize| q.contains(e) ==> #[trigger] q.push(x).contains(e),
        q.push(x).contains(x),
{
    assert forall|e: usize| q.contains(e) implies #[trigger] q.push(x).contains(e) by {
        let j = choose|j: int| 0 <= j < q.len() && q[j] == e;
        assert(q.push(x)[j] == e);
    }
    assert(q.push(x)[q.len() as int] == x);
}

proof fn lemma_reg_walk_queued(
    items: Seq<CodeItem>,
    written: Seq<Vec<Reg>>,
    uncond_outs: Seq<(String, Vec<String>)>,
    start: usize,
    reg: Reg,
    p: Seq<usize>,
    q: Seq<usize>,
    vis: Seq<bool>,
    k: int,
)
    requires
        reg_walk(items, written, uncond_outs, start, reg, p),
        0 <= k < p.len(),
        q.contains(start),
        forall|i: int, t: usize|
            0 <= i < vis.len() && vis[i] && reg_passes_at(items, written, uncond_outs, i, reg)
                && #[trigger] edges_68k(items, i).contains(Edge::Follow(t)) ==> q.contains(t),
        forall|j: int| 0 <= j < q.len() ==> #[trigger] q[j] < vis.len() && vis[q[j] as int],
    ensures
        q.contains(p[k]),
    decreases k,
{
    if k > 0 {
        lemma_reg_walk_queued(items, written, uncond_outs, start, reg, p, q, vis, k - 1);
        assert(reg_step_at(items, written, uncond_outs, reg, p, k - 1));
        let j = choose|j: int| 0 <= j < q.len() && q[j] == p[k - 1];
        assert(q[j] == p[k - 1]);
        assert(edges_68k(items, p[k - 1] as int).contains(Edge::Follow(p[k])));
    }
}

/// Breadth-first: does any path from `start` READ `reg` (as a source or an
/// address base) before `reg` is redefined or the path leaves the body?
/// `written[i]` holds the registers item `i` writes; a call whose callee
/// unconditionally defines `reg` (per `uncond_outs`) redefines it too.
#[verifier::spinoff_prover]
fn reads_reg_before_redefine(
    cfg: &Cfg,
    start: usize,
    reg: Reg,
    written: &[Vec<Reg>],
    uncond_outs: &[(String, Vec<String>)],
) -> (r: bool)
    requires
        cfg.wf(),
        start < cfg.items().len(),
    ensures
        r == reads_before_redefine_spec(cfg.items(), written@, uncond_outs@, start, reg),
{
    let ghost items = cfg.items();
    let ghost wr = written@;
    let ghost uo = uncond_outs@;
    let n = cfg.len();
    let mut visited: Vec<bool> = Vec::new();
    let mut k: usize = 0;
    while k < n
        invariant
            k <= n,
            visited@.len() == k,
            forall|j: int| 0 <= j < k ==> !visited@[j],
        decreases n - k,
    {
        visited.push(false);
        k = k + 1;
    }
    proof {
        assert(visited@ =~= Seq::new(visited@.len(), |j: int| false));
        lemma_count_false(visited@.len());
    }
    let mut nvis: usize = 0;
    let mut queue: Vec<usize> = vec![start];
    let ghost mut wit: Seq<Seq<usize>> = seq![seq![start]];
    let mut head: usize = 0;
    proof {
        assert(queue@[0] == start);
        assert(wit[0] == seq![start]);
    }
    while head < queue.len()
        invariant
            cfg.wf(),
            items == cfg.items(),
            wr == written@,
            uo == uncond_outs@,
            n == items.len(),
            visited@.len() == n,
            head <= queue@.len(),
            nvis == count_true(visited@),
            nvis <= n,
            wit.len() == queue@.len(),
            queue@.contains(start),
            forall|q: int| 0 <= q < queue@.len() ==> #[trigger] queue@[q] < n,
            forall|q: int|
                0 <= q < queue@.len() ==> reg_walk(items, wr, uo, start, reg, #[trigger] wit[q])
                    && wit[q].last() == queue@[q],
            forall|i: int| 0 <= i < n && #[trigger] visited@[i] ==> !reads_reg_at(items, wr, i, reg),
            forall|i: int, t: usize|
                0 <= i < n && visited@[i] && reg_passes_at(items, wr, uo, i, reg)
                    && #[trigger] edges_68k(items, i).contains(Edge::Follow(t)) ==> queue@.contains(t),
            forall|q: int| 0 <= q < head ==> visited@[#[trigger] queue@[q] as int],
        decreases n - nvis, queue@.len() - head,
    {
        let idx = queue[head];
        let ghost path = wit[head as int];
        head = head + 1;
        if !visited[idx] {
            proof {
                lemma_count_true_set(visited@, idx as int);
                lemma_count_true_bound(visited@.update(idx as int, true));
            }
            visited.set(idx, true);
            nvis = nvis + 1;
            match cfg.instr(idx) {
                None => {},
                Some((mnem, ops)) => {
                    let mentioned = regs_mentioned(ops);
                    let writes = if idx < written.len() {
                        reg_listed(&written[idx], reg)
                    } else {
                        false
                    };
                    if reg_listed(&mentioned, reg) && !writes {
                        assert(reg_walk(items, wr, uo, start, reg, path) && reads_reg_at(
                            items,
                            wr,
                            path.last() as int,
                            reg,
                        ));
                        return true;
                    }
                    let killed = match call_unconditional_outs(mnem, ops, uncond_outs) {
                        Some(outs) => names_reg_exec(outs, reg),
                        None => false,
                    };
                    if !killed && !writes {
                        let es = cfg.edges(idx);
                        let mut j: usize = 0;
                        while j < es.len()
                            invariant
                                cfg.wf(),
                                items == cfg.items(),
                                wr == written@,
                                uo == uncond_outs@,
                                n == items.len(),
                                idx < n,
                                visited@.len() == n,
                                visited@[idx as int],
                                reg_passes_at(items, wr, uo, idx as int, reg),
                                es@ == edges_68k(items, idx as int),
                                j <= es@.len(),
                                wit.len() == queue@.len(),
                                head <= queue@.len(),
                                queue@.contains(start),
                                reg_walk(items, wr, uo, start, reg, path),
                                path.last() == idx,
                                forall|q: int| 0 <= q < queue@.len() ==> #[trigger] queue@[q] < n,
                                forall|q: int|
                                    0 <= q < queue@.len() ==> reg_walk(
                                        items,
                                        wr,
                                        uo,
                                        start,
                                        reg,
                                        #[trigger] wit[q],
                                    ) && wit[q].last() == queue@[q],
                                forall|jj: int|
                                    0 <= jj < j ==> (#[trigger] es@[jj] matches Edge::Follow(t)
                                        ==> queue@.contains(t)),
                                forall|i: int, t: usize|
                                    0 <= i < n && visited@[i] && reg_passes_at(items, wr, uo, i, reg)
                                        && i != idx && #[trigger] edges_68k(items, i).contains(
                                        Edge::Follow(t),
                                    ) ==> queue@.contains(t),
                                forall|q: int| 0 <= q < head ==> visited@[#[trigger] queue@[q] as int],
                            decreases es@.len() - j,
                        {
                            match es[j] {
                                Edge::Follow(t) => {
                                    proof {
                                        lemma_push_keeps_index(queue@, t);
                                        assert(edges_68k(items, idx as int).contains(Edge::Follow(t))) by {
                                            assert(es@[j as int] == Edge::Follow(t));
                                        }
                                        law_follow_targets_are_instructions(items, idx as int, Cpu::M68000, t);
                                        let np = path.push(t);
                                        assert forall|kk: int|
                                            0 <= kk < np.len() - 1 implies #[trigger] reg_step_at(
                                            items,
                                            wr,
                                            uo,
                                            reg,
                                            np,
                                            kk,
                                        ) by {
                                            if kk < path.len() - 1 {
                                                assert(reg_step_at(items, wr, uo, reg, path, kk));
                                            } else {
                                                assert(np[kk] == idx);
                                                assert(np[kk + 1] == t);
                                            }
                                        }
                                        wit = wit.push(np);
                                    }
                                    queue.push(t);
                                },
                                _ => {},
                            }
                            j = j + 1;
                        }
                        proof {
                            assert forall|t: usize|
                                #[trigger] edges_68k(items, idx as int).contains(Edge::Follow(t)) implies queue@.contains(t) by {
                                let jj = choose|jj: int| 0 <= jj < es@.len() && es@[jj] == Edge::Follow(t);
                                assert(es@[jj] == Edge::Follow(t));
                            }
                        }
                    }
                },
            }
        }
    }
    proof {
        assert forall|p: Seq<usize>| #[trigger] reg_walk(items, wr, uo, start, reg, p) implies !reads_reg_at(
            items,
            wr,
            p.last() as int,
            reg,
        ) by {
            lemma_reg_walk_queued(items, wr, uo, start, reg, p, queue@, visited@, p.len() - 1);
            let j = choose|j: int| 0 <= j < queue@.len() && queue@[j] == p.last();
            assert(queue@[j] == p.last());
        }
    }
    false
}

proof fn lemma_invalid_edge_from_bound(items: Seq<CodeItem>, idx: int, cc: Seq<char>, neg: Seq<char>)
    ensures
        invalid_edge_from(items, idx, cc, neg) matches Some(j) ==> 0 <= j < items.len(),
    decreases items.len() - idx,
{
    if 0 <= idx < items.len() {
        lemma_first_instr_from(items, idx + 1);
        if let CodeItem::Instr { ops, .. } = items[idx] {
            if let Some(t) = branch_target_spec(ops@) {
                lemma_last_label_target(items, t, items.len() as int);
            }
            if let Some(j) = next_instr_of(items, idx) {
                if idx < j < items.len() {
                    lemma_invalid_edge_from_bound(items, j, cc, neg);
                }
            }
        }
    }
}

/// The invalid-path reads one call's declared conditional results give, for
/// the first `n` `(register, guard)` pairs: `(callee, call span, register,
/// guard)` for each pair whose guard's invalid edge reads the register before
/// redefining it.
pub open spec fn invalid_reads_for(
    items: Seq<CodeItem>,
    written: Seq<Vec<Reg>>,
    uncond_outs: Seq<(String, Vec<String>)>,
    idx: int,
    callee: Seq<char>,
    span: Span,
    conds: Seq<(String, String)>,
    n: int,
) -> Seq<(Seq<char>, Span, Seq<char>, Seq<char>)>
    decreases n,
{
    if n <= 0 {
        Seq::empty()
    } else {
        let prev = invalid_reads_for(items, written, uncond_outs, idx, callee, span, conds, n - 1);
        let rn = conds[n - 1].0@;
        let cc = conds[n - 1].1@;
        match reg_named(rn) {
            Some(reg) => match invalid_edge_spec(items, idx, cc) {
                Some(st) => if reads_before_redefine_spec(items, written, uncond_outs, st as usize, reg) {
                    prev.push((callee, span, rn, cc))
                } else {
                    prev
                },
                None => prev,
            },
            None => prev,
        }
    }
}

/// The invalid-path reads the item at `idx` contributes: a direct 68k call
/// to a callee declaring conditional register results.
pub open spec fn invalid_reads_at(
    items: Seq<CodeItem>,
    cond_callees: Seq<(String, Vec<(String, String)>)>,
    written: Seq<Vec<Reg>>,
    uncond_outs: Seq<(String, Vec<String>)>,
    idx: int,
) -> Seq<(Seq<char>, Span, Seq<char>, Seq<char>)> {
    match items[idx] {
        CodeItem::Instr { mnemonic, ops, span } => if is_call_mnemonic(mnemonic@) {
            match branch_target_spec(ops@) {
                Some(c) => match callee_entry(cond_callees, c) {
                    Some(conds) => invalid_reads_for(
                        items,
                        written,
                        uncond_outs,
                        idx,
                        c,
                        span,
                        conds@,
                        conds@.len() as int,
                    ),
                    None => Seq::empty(),
                },
                None => Seq::empty(),
            }
        } else {
            Seq::empty()
        },
        _ => Seq::empty(),
    }
}

/// The invalid-path reads of the first `n` items, in item order.
pub open spec fn invalid_read_sites(
    items: Seq<CodeItem>,
    cond_callees: Seq<(String, Vec<(String, String)>)>,
    written: Seq<Vec<Reg>>,
    uncond_outs: Seq<(String, Vec<String>)>,
    n: int,
) -> Seq<(Seq<char>, Span, Seq<char>, Seq<char>)>
    decreases n,
{
    if n <= 0 {
        Seq::empty()
    } else {
        invalid_read_sites(items, cond_callees, written, uncond_outs, n - 1) + invalid_reads_at(
            items,
            cond_callees,
            written,
            uncond_outs,
            n - 1,
        )
    }
}

/// The firings match the sites, one for one: `(callee, span, register,
/// guard)` each.
pub open spec fn invalid_firings_match(
    proc: Seq<char>,
    fs: Seq<FlagFiring>,
    sites: Seq<(Seq<char>, Span, Seq<char>, Seq<char>)>,
) -> bool {
    &&& fs.len() == sites.len()
    &&& forall|k: int|
        0 <= k < fs.len() ==> {
            &&& (#[trigger] fs[k]).proc@ == proc
            &&& fs[k].callee@ == sites[k].0
            &&& fs[k].flag@ == sites[k].3
            &&& fs[k].span == sites[k].1
            &&& fs[k].kind matches FlagFiringKind::InvalidPathRead { reg, cc } && reg@ == sites[k].2
                && cc@ == sites[k].3
        }
}

/// Run `[call.result-invalid-path]` over one proc's `items`. For each direct
/// 68k call to a callee whose `cond_callees` entry declares `out(rN if cc)`
/// results, find the branch that tests `cc`, take the INVALID edge (where
/// `cc` does not hold), and fire when `rN` is read there before it is
/// redefined. `written[i]` lists the registers item `i` writes;
/// `callee_uncond_out` lists, per callee, the registers it defines on every
/// return, so a call to one of those redefines them.
#[verifier::spinoff_prover]
pub fn check_result_invalid_path(
    proc_name: &str,
    items: &[CodeItem],
    cond_callees: &[(String, Vec<(String, String)>)],
    callee_uncond_out: &[(String, Vec<String>)],
    written: &[Vec<Reg>],
) -> (r: Vec<FlagFiring>)
    ensures
        invalid_firings_match(
            proc_name@,
            r@,
            invalid_read_sites(items@, cond_callees@, written@, callee_uncond_out@, items@.len() as int),
        ),
{
    let cfg = Cfg::build(items);
    let mut firings: Vec<FlagFiring> = Vec::new();
    let mut idx: usize = 0;
    while idx < items.len()
        invariant
            idx <= items@.len(),
            cfg.wf(),
            cfg.items() == items@,
            invalid_firings_match(
                proc_name@,
                firings@,
                invalid_read_sites(items@, cond_callees@, written@, callee_uncond_out@, idx as int),
            ),
        decreases items@.len() - idx,
    {
        let ghost sites = invalid_read_sites(items@, cond_callees@, written@, callee_uncond_out@, idx as int);
        let ghost here = invalid_reads_at(items@, cond_callees@, written@, callee_uncond_out@, idx as int);
        match &items[idx] {
            CodeItem::Instr { mnemonic, ops, span } => {
                if is_call_mnemonic_exec(mnemonic.as_str()) {
                    match branch_target(ops.as_slice()) {
                        Some(callee) => match lookup_callee_entry(cond_callees, callee) {
                            Some(conds) => {
                                let mut c: usize = 0;
                                while c < conds.len()
                                    invariant
                                        idx < items@.len(),
                                        cfg.wf(),
                                        cfg.items() == items@,
                                        c <= conds@.len(),
                                        items@[idx as int] matches CodeItem::Instr { span: sp, .. } && sp == *span,
                                        invalid_firings_match(
                                            proc_name@,
                                            firings@,
                                            sites + invalid_reads_for(
                                                items@,
                                                written@,
                                                callee_uncond_out@,
                                                idx as int,
                                                callee@,
                                                *span,
                                                conds@,
                                                c as int,
                                            ),
                                        ),
                                    decreases conds@.len() - c,
                                {
                                    let ghost acc = sites + invalid_reads_for(
                                        items@,
                                        written@,
                                        callee_uncond_out@,
                                        idx as int,
                                        callee@,
                                        *span,
                                        conds@,
                                        c as int,
                                    );
                                    let rn = &conds[c].0;
                                    let cc = &conds[c].1;
                                    match Reg::from_name(rn.as_str()) {
                                        Some(reg) => match cfg.invalid_edge(idx, cc.as_str()) {
                                            Some(st) => {
                                                proof {
                                                    let c0 = canonical_guard(cc@);
                                                    if let Some(neg) = negated_cond(c0) {
                                                        if let Some(j) = next_instr_of(items@, idx as int) {
                                                            lemma_invalid_edge_from_bound(items@, j, c0, neg);
                                                        }
                                                    }
                                                }
                                                if reads_reg_before_redefine(&cfg, st, reg, written, callee_uncond_out) {
                                                    let f = FlagFiring {
                                                        proc: proc_name.to_owned(),
                                                        callee: callee.to_owned(),
                                                        flag: cc.as_str().to_owned(),
                                                        span: *span,
                                                        kind: FlagFiringKind::InvalidPathRead {
                                                            reg: rn.as_str().to_owned(),
                                                            cc: cc.as_str().to_owned(),
                                                        },
                                                    };
                                                    firings.push(f);
                                                    proof {
                                                        let nacc = sites + invalid_reads_for(
                                                            items@,
                                                            written@,
                                                            callee_uncond_out@,
                                                            idx as int,
                                                            callee@,
                                                            *span,
                                                            conds@,
                                                            c + 1,
                                                        );
                                                        assert(nacc =~= acc.push((callee@, *span, rn@, cc@)));
                                                    }
                                                } else {
                                                    proof {
                                                        assert(sites + invalid_reads_for(
                                                            items@,
                                                            written@,
                                                            callee_uncond_out@,
                                                            idx as int,
                                                            callee@,
                                                            *span,
                                                            conds@,
                                                            c + 1,
                                                        ) =~= acc);
                                                    }
                                                }
                                            },
                                            None => {
                                                proof {
                                                    assert(sites + invalid_reads_for(
                                                        items@,
                                                        written@,
                                                        callee_uncond_out@,
                                                        idx as int,
                                                        callee@,
                                                        *span,
                                                        conds@,
                                                        c + 1,
                                                    ) =~= acc);
                                                }
                                            },
                                        },
                                        None => {
                                            proof {
                                                assert(sites + invalid_reads_for(
                                                    items@,
                                                    written@,
                                                    callee_uncond_out@,
                                                    idx as int,
                                                    callee@,
                                                    *span,
                                                    conds@,
                                                    c + 1,
                                                ) =~= acc);
                                            }
                                        },
                                    }
                                    c = c + 1;
                                }
                                proof {
                                    assert(invalid_read_sites(
                                        items@,
                                        cond_callees@,
                                        written@,
                                        callee_uncond_out@,
                                        idx + 1,
                                    ) =~= sites + here);
                                }
                            },
                            None => {
                                proof {
                                    assert(here =~= Seq::empty());
                                    assert(invalid_read_sites(
                                        items@,
                                        cond_callees@,
                                        written@,
                                        callee_uncond_out@,
                                        idx + 1,
                                    ) =~= sites);
                                }
                            },
                        },
                        None => {
                            proof {
                                assert(invalid_read_sites(
                                    items@,
                                    cond_callees@,
                                    written@,
                                    callee_uncond_out@,
                                    idx + 1,
                                ) =~= sites);
                            }
                        },
                    }
                } else {
                    proof {
                        assert(invalid_read_sites(
                            items@,
                            cond_callees@,
                            written@,
                            callee_uncond_out@,
                            idx + 1,
                        ) =~= sites);
                    }
                }
            },
            _ => {
                proof {
                    assert(invalid_read_sites(
                        items@,
                        cond_callees@,
                        written@,
                        callee_uncond_out@,
                        idx + 1,
                    ) =~= sites);
                }
            },
        }
        idx = idx + 1;
    }
    firings
}

/// Whether `m` is one of the listed mnemonics.
pub open spec fn listed(names: Seq<String>, m: Seq<char>) -> bool {
    exists|j: int| 0 <= j < names.len() && #[trigger] names[j]@ == m
}

/// No label stands strictly between items `a` and `b`.
pub open spec fn no_label_between(items: Seq<CodeItem>, a: int, b: int) -> bool {
    forall|k: int| a < k < b ==> !(#[trigger] items[k] is Label)
}

/// Walking the straight-line fall-through from the instruction at `idx`
/// (reached from `prev`), the guard branch testing `cc` and the item index
/// that begins its cc-SUCCESS edge: the taken label when the guard tests
/// `cc`, the fall-through when it tests `neg`. A label on the way (a join),
/// any other branch, a return, an unconditional transfer, or a mnemonic not
/// listed as CC-transparent gives `None`.
pub open spec fn valid_edge_from(
    items: Seq<CodeItem>,
    prev: int,
    idx: int,
    cc: Seq<char>,
    neg: Seq<char>,
    transparent: Seq<String>,
) -> Option<(int, int)>
    decreases items.len() - idx,
{
    if !(0 <= idx < items.len()) || !no_label_between(items, prev, idx) {
        None
    } else {
        match items[idx] {
            CodeItem::Instr { mnemonic, ops, .. } => {
                let m = mnemonic@;
                if m.len() > 0 && m[0] == 'b' && encode_utf8(m).len() == 3 {
                    match branch_cond_spec(m) {
                        None => None,
                        Some(bc) => if bc == cc {
                            match branch_target_spec(ops@) {
                                Some(t) => match label_target_of(items, t) {
                                    Some(tg) => Some((idx, tg)),
                                    None => None,
                                },
                                None => None,
                            }
                        } else if bc == neg {
                            match next_instr_of(items, idx) {
                                Some(f) => Some((idx, f)),
                                None => None,
                            }
                        } else {
                            None
                        },
                    }
                } else if is_return_68k(m) || is_uncond_mnemonic(m) || !listed(transparent, m) {
                    None
                } else {
                    match next_instr_of(items, idx) {
                        Some(j) => if idx < j < items.len() {
                            valid_edge_from(items, idx, j, cc, neg, transparent)
                        } else {
                            None
                        },
                        None => None,
                    }
                }
            },
            _ => None,
        }
    }
}

/// The guard and cc-success edge start after the call at `call_idx` (see
/// [`valid_edge_from`]); the guard is canonicalized first.
pub open spec fn valid_edge_spec(
    items: Seq<CodeItem>,
    call_idx: int,
    cc: Seq<char>,
    transparent: Seq<String>,
) -> Option<(int, int)> {
    let c = canonical_guard(cc);
    match negated_cond(c) {
        Some(neg) => match next_instr_of(items, call_idx) {
            Some(j) => valid_edge_from(items, call_idx, j, c, neg, transparent),
            None => None,
        },
        None => None,
    }
}

proof fn lemma_valid_edge_from_bound(
    items: Seq<CodeItem>,
    prev: int,
    idx: int,
    cc: Seq<char>,
    neg: Seq<char>,
    transparent: Seq<String>,
)
    ensures
        valid_edge_from(items, prev, idx, cc, neg, transparent) matches Some((g, t)) ==> 0 <= g
            < items.len() && 0 <= t < items.len(),
    decreases items.len() - idx,
{
    if 0 <= idx < items.len() {
        lemma_first_instr_from(items, idx + 1);
        if let CodeItem::Instr { ops, .. } = items[idx] {
            if let Some(t) = branch_target_spec(ops@) {
                lemma_last_label_target(items, t, items.len() as int);
            }
            if let Some(j) = next_instr_of(items, idx) {
                if idx < j < items.len() {
                    lemma_valid_edge_from_bound(items, idx, j, cc, neg, transparent);
                }
            }
        }
    }
}

fn listed_exec(names: &[String], m: &str) -> (r: bool)
    ensures
        r == listed(names@, m@),
{
    let mut j: usize = 0;
    while j < names.len()
        invariant
            j <= names@.len(),
            forall|k: int| 0 <= k < j ==> names@[k]@ != m@,
        decreases names@.len() - j,
    {
        if str_eq(names[j].as_str(), m) {
            return true;
        }
        j = j + 1;
    }
    false
}

impl<'a> Cfg<'a> {
    fn label_between(&self, a: usize, b: usize) -> (r: bool)
        requires
            b <= self.items().len(),
        ensures
            r == !no_label_between(self.items(), a as int, b as int),
    {
        if a >= b {
            return false;
        }
        let mut k = a + 1;
        while k < b
            invariant
                a < k <= b,
                b <= self.items@.len(),
                forall|j: int| a < j < k ==> !(#[trigger] self.items@[j] is Label),
            decreases b - k,
        {
            match &self.items[k] {
                CodeItem::Label { .. } => {
                    assert(self.items@[k as int] is Label);
                    return true;
                },
                _ => {},
            }
            k = k + 1;
        }
        false
    }

    /// From the call at `call_idx`, walk the straight-line fall-through to the
    /// guard branch testing `cc` and return `(guard_idx, success_idx)`: the
    /// guard and the item index that BEGINS the edge where `cc` provably HOLDS
    /// (the taken edge for a guard testing `cc`, the fall-through for one
    /// testing its negation). Bails with `None` on a label between the call
    /// and the guard (a join a bypass path could enter by), on any other
    /// branch, a return, an unconditional transfer, or an instruction not in
    /// `transparent`, the mnemonics known to preserve the condition codes.
    pub fn valid_edge(&self, call_idx: usize, cc: &str, transparent: &[String]) -> (r: Option<(usize, usize)>)
        requires
            self.wf(),
        ensures
            match valid_edge_spec(self.items(), call_idx as int, cc@, transparent@) {
                Some((g, t)) => r == Some((g as usize, t as usize)),
                None => r is None,
            },
    {
        let ghost items = self.items();
        let guard = canonical_cc(cc);
        let neg = match negate_cc(guard) {
            Some(n) => n,
            None => return None,
        };
        let mut prev = call_idx;
        let mut idx = match self.next_instr(call_idx) {
            Some(j) => j,
            None => return None,
        };
        proof {
            lemma_first_instr_from(items, call_idx + 1);
        }
        loop
            invariant
                self.wf(),
                items == self.items(),
                idx < items.len(),
                prev < idx,
                guard@ == canonical_guard(cc@),
                valid_edge_spec(items, call_idx as int, cc@, transparent@) == valid_edge_from(
                    items,
                    prev as int,
                    idx as int,
                    guard@,
                    neg@,
                    transparent@,
                ),
            decreases items.len() - idx,
        {
            if self.label_between(prev, idx) {
                return None;
            }
            let Some((mnem, ops)) = self.instr(idx) else { return None };
            if is_b_three_bytes(mnem) {
                let Some(bc) = branch_cond(mnem) else { return None };
                if str_eq(bc, guard) {
                    return match branch_target(ops) {
                        Some(t) => match self.label_index(t) {
                            Some(tg) => Some((idx, tg)),
                            None => None,
                        },
                        None => None,
                    };
                } else if str_eq(bc, neg) {
                    return match self.next_instr(idx) {
                        Some(f) => Some((idx, f)),
                        None => None,
                    };
                } else {
                    return None;
                }
            }
            if is_return_mnemonic(mnem, Cpu::M68000) || is_uncond_mnemonic_exec(mnem) {
                return None;
            }
            if !listed_exec(transparent, mnem) {
                return None;
            }
            match self.next_instr(idx) {
                Some(j) => {
                    proof {
                        lemma_first_instr_from(items, idx + 1);
                    }
                    prev = idx;
                    idx = j;
                },
                None => return None,
            }
        }
    }
}

/// `s` with `x` added at its end unless already present.
pub open spec fn add_credit(s: Seq<((int, int), Seq<char>)>, x: ((int, int), Seq<char>)) -> Seq<
    ((int, int), Seq<char>),
> {
    if s.contains(x) {
        s
    } else {
        s.push(x)
    }
}

/// The credits the first `n` `(register, guard)` pairs of one call give, added
/// to `acc`: each pair naming a register whose guard's success edge is found
/// credits that edge with the register's canonical name.
pub open spec fn call_credits(
    items: Seq<CodeItem>,
    idx: int,
    conds: Seq<(String, String)>,
    transparent: Seq<String>,
    acc: Seq<((int, int), Seq<char>)>,
    n: int,
) -> Seq<((int, int), Seq<char>)>
    decreases n,
{
    if n <= 0 {
        acc
    } else {
        let prev = call_credits(items, idx, conds, transparent, acc, n - 1);
        match reg_named(conds[n - 1].0@) {
            Some(reg) => match valid_edge_spec(items, idx, conds[n - 1].1@, transparent) {
                Some(e) => add_credit(prev, (e, reg_name(reg))),
                None => prev,
            },
            None => prev,
        }
    }
}

/// The credits of the first `n` items: every direct 68k call to a callee
/// declaring conditional outs credits its cc-success edge.
pub open spec fn edge_credits_upto(
    cfg_items: Seq<CodeItem>,
    items: Seq<CodeItem>,
    cond_callees: Seq<(String, Vec<(String, String)>)>,
    transparent: Seq<String>,
    n: int,
) -> Seq<((int, int), Seq<char>)>
    decreases n,
{
    if n <= 0 {
        Seq::empty()
    } else {
        let prev = edge_credits_upto(cfg_items, items, cond_callees, transparent, n - 1);
        match items[n - 1] {
            CodeItem::Instr { mnemonic, ops, .. } => if is_call_mnemonic(mnemonic@) {
                match branch_target_spec(ops@) {
                    Some(c) => match callee_entry(cond_callees, c) {
                        Some(conds) => call_credits(
                            cfg_items,
                            n - 1,
                            conds@,
                            transparent,
                            prev,
                            conds@.len() as int,
                        ),
                        None => prev,
                    },
                    None => prev,
                }
            } else {
                prev
            },
            _ => prev,
        }
    }
}

/// A credit as plain values.
pub open spec fn credit_view(c: ((usize, usize), String)) -> ((int, int), Seq<char>) {
    ((c.0.0 as int, c.0.1 as int), c.1@)
}

fn push_credit(v: &mut Vec<((usize, usize), String)>, e: (usize, usize), name: &str)
    ensures
        final(v)@.map_values(|c: ((usize, usize), String)| credit_view(c)) == add_credit(
            old(v)@.map_values(|c: ((usize, usize), String)| credit_view(c)),
            ((e.0 as int, e.1 as int), name@),
        ),
{
    let ghost before = v@.map_values(|c: ((usize, usize), String)| credit_view(c));
    let ghost x = ((e.0 as int, e.1 as int), name@);
    let mut j: usize = 0;
    while j < v.len()
        invariant
            j <= v@.len(),
            before == v@.map_values(|c: ((usize, usize), String)| credit_view(c)),
            x == ((e.0 as int, e.1 as int), name@),
            forall|k: int| 0 <= k < j ==> before[k] != x,
        decreases v@.len() - j,
    {
        let ent = &v[j];
        let (g, t) = ent.0;
        let same_name = str_eq(ent.1.as_str(), name);
        assert(before[j as int] == credit_view(v@[j as int]));
        assert(credit_view(*ent) == ((g as int, t as int), ent.1@));
        if g == e.0 && t == e.1 && same_name {
            assert(before[j as int] == x);
            return;
        }
        assert(before[j as int] != x);
        j = j + 1;
    }
    assert(!before.contains(x));
    v.push((e, name.to_owned()));
    assert(v@.map_values(|c: ((usize, usize), String)| credit_view(c)) =~= before.push(x));
}

/// For every direct 68k call in `items` to a callee declaring conditional
/// outs, identify the caller's cc-SUCCESS edge with [`Cfg::valid_edge`] and
/// credit that edge `(guard_idx, succ_idx)` with the register. Each credit
/// appears once, in the order first found; register names take the
/// canonical `d0`..`a7` spelling. A bail contributes nothing.
#[verifier::spinoff_prover]
pub fn conditional_out_edge_credits(
    cfg: &Cfg,
    items: &[CodeItem],
    cond_callees: &[(String, Vec<(String, String)>)],
    transparent: &[String],
) -> (r: Vec<((usize, usize), String)>)
    requires
        cfg.wf(),
    ensures
        r@.map_values(|c: ((usize, usize), String)| credit_view(c)) == edge_credits_upto(
            cfg.items(),
            items@,
            cond_callees@,
            transparent@,
            items@.len() as int,
        ),
{
    let mut credits: Vec<((usize, usize), String)> = Vec::new();
    let mut idx: usize = 0;
    while idx < items.len()
        invariant
            idx <= items@.len(),
            cfg.wf(),
            credits@.map_values(|c: ((usize, usize), String)| credit_view(c)) == edge_credits_upto(
                cfg.items(),
                items@,
                cond_callees@,
                transparent@,
                idx as int,
            ),
        decreases items@.len() - idx,
    {
        match &items[idx] {
            CodeItem::Instr { mnemonic, ops, .. } => {
                if is_call_mnemonic_exec(mnemonic.as_str()) {
                    match branch_target(ops.as_slice()) {
                        Some(callee) => match lookup_callee_entry(cond_callees, callee) {
                            Some(conds) => {
                                let ghost acc0 = edge_credits_upto(
                                    cfg.items(),
                                    items@,
                                    cond_callees@,
                                    transparent@,
                                    idx as int,
                                );
                                let mut c: usize = 0;
                                while c < conds.len()
                                    invariant
                                        cfg.wf(),
                                        c <= conds@.len(),
                                        credits@.map_values(|c: ((usize, usize), String)| credit_view(c))
                                            == call_credits(
                                            cfg.items(),
                                            idx as int,
                                            conds@,
                                            transparent@,
                                            acc0,
                                            c as int,
                                        ),
                                    decreases conds@.len() - c,
                                {
                                    match Reg::from_name(conds[c].0.as_str()) {
                                        Some(reg) => match cfg.valid_edge(idx, conds[c].1.as_str(), transparent) {
                                            Some(e) => {
                                                proof {
                                                    let c0 = canonical_guard(conds@[c as int].1@);
                                                    if let Some(neg) = negated_cond(c0) {
                                                        if let Some(j) = next_instr_of(cfg.items(), idx as int) {
                                                            lemma_valid_edge_from_bound(cfg.items(), idx as int, j, c0, neg, transparent@);
                                                        }
                                                    }
                                                }
                                                push_credit(&mut credits, e, reg.name());
                                            },
                                            None => {},
                                        },
                                        None => {},
                                    }
                                    c = c + 1;
                                }
                            },
                            None => {},
                        },
                        None => {},
                    }
                }
            },
            _ => {},
        }
        idx = idx + 1;
    }
    credits
}

// ---------------------------------------------------------------------------
// Laws of the carry walk.
// ---------------------------------------------------------------------------

/// A call whose every edge arrives at a carry consumer never abandons its
/// carry: the consumer satisfies each path on the spot.
pub proof fn law_consumed_on_every_edge_never_abandons(items: Seq<CodeItem>, call_idx: int, cpu: Cpu)
    requires
        forall|e: Edge|
            #[trigger] edges_on(items, call_idx, cpu).contains(e) ==> (e matches Edge::Follow(j)
                && carry_consumer_at(items, j as int, cpu)),
    ensures
        !abandons_flag_spec(items, call_idx, cpu),
{
    assert forall|p: Seq<Edge>| #[trigger] carry_walk(items, call_idx, cpu, p) implies !abandons_at(
        items,
        cpu,
        p.last(),
    ) by {
        assert(succ_edge(items, cpu, call_idx, p[0]));
        assert(edges_on(items, call_idx, cpu).contains(p[0]));
        if p.len() > 1 {
            assert(carry_step_at(items, cpu, p, 0));
        }
    }
}

/// A call whose every edge leaves the body never abandons its carry: the
/// flag flows out with the transfer.
pub proof fn law_transfer_out_carries_the_flag_away(items: Seq<CodeItem>, call_idx: int, cpu: Cpu)
    requires
        forall|e: Edge|
            #[trigger] edges_on(items, call_idx, cpu).contains(e) ==> (e == Edge::TailOut || e
                == Edge::BranchOut),
    ensures
        !abandons_flag_spec(items, call_idx, cpu),
{
    assert forall|p: Seq<Edge>| #[trigger] carry_walk(items, call_idx, cpu, p) implies !abandons_at(
        items,
        cpu,
        p.last(),
    ) by {
        assert(succ_edge(items, cpu, call_idx, p[0]));
        assert(edges_on(items, call_idx, cpu).contains(p[0]));
        if p.len() > 1 {
            assert(carry_step_at(items, cpu, p, 0));
        }
    }
}

/// A call with an edge that returns, runs off the body's end, or arrives
/// straight at a carry redefiner always abandons its carry.
pub proof fn law_direct_exit_abandons(items: Seq<CodeItem>, call_idx: int, cpu: Cpu, e: Edge)
    requires
        edges_on(items, call_idx, cpu).contains(e),
        abandons_at(items, cpu, e),
    ensures
        abandons_flag_spec(items, call_idx, cpu),
{
    let p = seq![e];
    assert(succ_edge(items, cpu, call_idx, p[0]));
    assert(carry_walk(items, call_idx, cpu, p));
    assert(p.last() == e);
}

/// A call whose span is marked `@discards` never fires: every firing's span
/// is a call site outside the discard list.
pub proof fn law_discarded_calls_never_fire(
    items: Seq<CodeItem>,
    callees: Seq<(String, Vec<String>)>,
    discarded: Seq<Span>,
    cpu: Cpu,
    n: int,
)
    ensures
        forall|k: int|
            0 <= k < unused_flag_sites(items, callees, discarded, cpu, n).len() ==> !discarded.contains(
                (#[trigger] unused_flag_sites(items, callees, discarded, cpu, n)[k]).1,
            ),
    decreases n,
{
    if n > 0 {
        law_discarded_calls_never_fire(items, callees, discarded, cpu, n - 1);
        let prev = unused_flag_sites(items, callees, discarded, cpu, n - 1);
        let cur = unused_flag_sites(items, callees, discarded, cpu, n);
        if let Some(x) = unused_flag_at(items, callees, discarded, cpu, n - 1) {
            assert(!discarded.contains(x.1));
            assert forall|k: int| 0 <= k < cur.len() implies !discarded.contains(#[trigger] cur[k].1) by {
                if k < prev.len() {
                    assert(cur[k] == prev[k]);
                }
            }
        } else {
            assert(cur == prev);
        }
    }
}

// ---------------------------------------------------------------------------
// Laws of the condition codes and register lists.
// ---------------------------------------------------------------------------

/// The 68000's condition tests by their assembler names: the sixteen
/// tests, `hs` and `lo` standing for `cc` and `cs`.
pub open spec fn is_cond_name(cc: Seq<char>) -> bool {
    ||| cc == "cc"@
    ||| cc == "hs"@
    ||| cc == "cs"@
    ||| cc == "lo"@
    ||| cc == "eq"@
    ||| cc == "ne"@
    ||| cc == "hi"@
    ||| cc == "ls"@
    ||| cc == "pl"@
    ||| cc == "mi"@
    ||| cc == "vc"@
    ||| cc == "vs"@
    ||| cc == "ge"@
    ||| cc == "lt"@
    ||| cc == "gt"@
    ||| cc == "le"@
}

/// Whether the test `cc` passes on a condition code register holding the
/// flags N, Z, V and C, as the 68000 defines its condition tests.
pub open spec fn cond_holds(cc: Seq<char>, n: bool, z: bool, v: bool, c: bool) -> bool {
    if cc == "cc"@ || cc == "hs"@ {
        !c
    } else if cc == "cs"@ || cc == "lo"@ {
        c
    } else if cc == "eq"@ {
        z
    } else if cc == "ne"@ {
        !z
    } else if cc == "hi"@ {
        !c && !z
    } else if cc == "ls"@ {
        c || z
    } else if cc == "pl"@ {
        !n
    } else if cc == "mi"@ {
        n
    } else if cc == "vc"@ {
        !v
    } else if cc == "vs"@ {
        v
    } else if cc == "ge"@ {
        n == v
    } else if cc == "lt"@ {
        n != v
    } else if cc == "gt"@ {
        !z && n == v
    } else if cc == "le"@ {
        z || n != v
    } else {
        false
    }
}

/// Whether the outcome of the test `cc` depends on the carry flag: some
/// register state passes it with C set and fails it with C clear, or the
/// other way round.
pub open spec fn tests_carry(cc: Seq<char>) -> bool {
    exists|n: bool, z: bool, v: bool| #[trigger] cond_holds(cc, n, z, v, true) != cond_holds(cc, n, z, v, false)
}

proof fn lemma_cond_name_literals()
    ensures
        "cc"@ =~= seq!['c', 'c'],
        "hs"@ =~= seq!['h', 's'],
        "cs"@ =~= seq!['c', 's'],
        "lo"@ =~= seq!['l', 'o'],
        "eq"@ =~= seq!['e', 'q'],
        "ne"@ =~= seq!['n', 'e'],
        "hi"@ =~= seq!['h', 'i'],
        "ls"@ =~= seq!['l', 's'],
        "pl"@ =~= seq!['p', 'l'],
        "mi"@ =~= seq!['m', 'i'],
        "vc"@ =~= seq!['v', 'c'],
        "vs"@ =~= seq!['v', 's'],
        "ge"@ =~= seq!['g', 'e'],
        "lt"@ =~= seq!['l', 't'],
        "gt"@ =~= seq!['g', 't'],
        "le"@ =~= seq!['l', 'e'],
{
    reveal_strlit("cc");
    assert("cc"@.len() == 2 && "cc"@[0] == 'c' && "cc"@[1] == 'c');
    reveal_strlit("hs");
    assert("hs"@.len() == 2 && "hs"@[0] == 'h' && "hs"@[1] == 's');
    reveal_strlit("cs");
    assert("cs"@.len() == 2 && "cs"@[0] == 'c' && "cs"@[1] == 's');
    reveal_strlit("lo");
    assert("lo"@.len() == 2 && "lo"@[0] == 'l' && "lo"@[1] == 'o');
    reveal_strlit("eq");
    assert("eq"@.len() == 2 && "eq"@[0] == 'e' && "eq"@[1] == 'q');
    reveal_strlit("ne");
    assert("ne"@.len() == 2 && "ne"@[0] == 'n' && "ne"@[1] == 'e');
    reveal_strlit("hi");
    assert("hi"@.len() == 2 && "hi"@[0] == 'h' && "hi"@[1] == 'i');
    reveal_strlit("ls");
    assert("ls"@.len() == 2 && "ls"@[0] == 'l' && "ls"@[1] == 's');
    reveal_strlit("pl");
    assert("pl"@.len() == 2 && "pl"@[0] == 'p' && "pl"@[1] == 'l');
    reveal_strlit("mi");
    assert("mi"@.len() == 2 && "mi"@[0] == 'm' && "mi"@[1] == 'i');
    reveal_strlit("vc");
    assert("vc"@.len() == 2 && "vc"@[0] == 'v' && "vc"@[1] == 'c');
    reveal_strlit("vs");
    assert("vs"@.len() == 2 && "vs"@[0] == 'v' && "vs"@[1] == 's');
    reveal_strlit("ge");
    assert("ge"@.len() == 2 && "ge"@[0] == 'g' && "ge"@[1] == 'e');
    reveal_strlit("lt");
    assert("lt"@.len() == 2 && "lt"@[0] == 'l' && "lt"@[1] == 't');
    reveal_strlit("gt");
    assert("gt"@.len() == 2 && "gt"@[0] == 'g' && "gt"@[1] == 't');
    reveal_strlit("le");
    assert("le"@.len() == 2 && "le"@[0] == 'l' && "le"@[1] == 'e');
}

/// The shape of a 68000 carry consumer: a branch or set on a carry test,
/// or a counting loop on one of the canonically spelled carry tests.
spec fn carry_consumer_shape(m: Seq<char>) -> bool {
    let carry_pair = |x: char, y: char|
        (x == 'c' && (y == 's' || y == 'c')) || (x == 'h' && (y == 'i' || y == 's')) || (x == 'l' && (y == 's' || y == 'o'));
    let canonical_pair = |x: char, y: char| (x == 'c' && (y == 's' || y == 'c')) || (x == 'h' && y == 'i') || (x == 'l' && y == 's');
    ||| m.len() == 3 && (m[0] == 'b' || m[0] == 's') && carry_pair(m[1], m[2])
    ||| m.len() == 4 && m[0] == 'd' && m[1] == 'b' && canonical_pair(m[2], m[3])
}

proof fn lemma_carry_consumer_shape(m: Seq<char>)
    ensures
        consumes_carry_68k(m) == carry_consumer_shape(m),
{
    reveal_strlit("bcs");
    assert("bcs"@.len() == 3 && "bcs"@[0] == 'b' && "bcs"@[1] == 'c' && "bcs"@[2] == 's');
    reveal_strlit("bcc");
    assert("bcc"@.len() == 3 && "bcc"@[0] == 'b' && "bcc"@[1] == 'c' && "bcc"@[2] == 'c');
    reveal_strlit("bhi");
    assert("bhi"@.len() == 3 && "bhi"@[0] == 'b' && "bhi"@[1] == 'h' && "bhi"@[2] == 'i');
    reveal_strlit("bls");
    assert("bls"@.len() == 3 && "bls"@[0] == 'b' && "bls"@[1] == 'l' && "bls"@[2] == 's');
    reveal_strlit("blo");
    assert("blo"@.len() == 3 && "blo"@[0] == 'b' && "blo"@[1] == 'l' && "blo"@[2] == 'o');
    reveal_strlit("bhs");
    assert("bhs"@.len() == 3 && "bhs"@[0] == 'b' && "bhs"@[1] == 'h' && "bhs"@[2] == 's');
    reveal_strlit("scs");
    assert("scs"@.len() == 3 && "scs"@[0] == 's' && "scs"@[1] == 'c' && "scs"@[2] == 's');
    reveal_strlit("scc");
    assert("scc"@.len() == 3 && "scc"@[0] == 's' && "scc"@[1] == 'c' && "scc"@[2] == 'c');
    reveal_strlit("shi");
    assert("shi"@.len() == 3 && "shi"@[0] == 's' && "shi"@[1] == 'h' && "shi"@[2] == 'i');
    reveal_strlit("sls");
    assert("sls"@.len() == 3 && "sls"@[0] == 's' && "sls"@[1] == 'l' && "sls"@[2] == 's');
    reveal_strlit("slo");
    assert("slo"@.len() == 3 && "slo"@[0] == 's' && "slo"@[1] == 'l' && "slo"@[2] == 'o');
    reveal_strlit("shs");
    assert("shs"@.len() == 3 && "shs"@[0] == 's' && "shs"@[1] == 'h' && "shs"@[2] == 's');
    reveal_strlit("dbcs");
    assert("dbcs"@.len() == 4 && "dbcs"@[0] == 'd' && "dbcs"@[1] == 'b' && "dbcs"@[2] == 'c' && "dbcs"@[3] == 's');
    reveal_strlit("dbcc");
    assert("dbcc"@.len() == 4 && "dbcc"@[0] == 'd' && "dbcc"@[1] == 'b' && "dbcc"@[2] == 'c' && "dbcc"@[3] == 'c');
    reveal_strlit("dbhi");
    assert("dbhi"@.len() == 4 && "dbhi"@[0] == 'd' && "dbhi"@[1] == 'b' && "dbhi"@[2] == 'h' && "dbhi"@[3] == 'i');
    reveal_strlit("dbls");
    assert("dbls"@.len() == 4 && "dbls"@[0] == 'd' && "dbls"@[1] == 'b' && "dbls"@[2] == 'l' && "dbls"@[3] == 's');
    if m.len() == 3 && m[0] == 'b' && m[1] == 'c' && m[2] == 's' {
        assert(m =~= "bcs"@);
    }
    if m.len() == 3 && m[0] == 'b' && m[1] == 'c' && m[2] == 'c' {
        assert(m =~= "bcc"@);
    }
    if m.len() == 3 && m[0] == 'b' && m[1] == 'h' && m[2] == 'i' {
        assert(m =~= "bhi"@);
    }
    if m.len() == 3 && m[0] == 'b' && m[1] == 'l' && m[2] == 's' {
        assert(m =~= "bls"@);
    }
    if m.len() == 3 && m[0] == 'b' && m[1] == 'l' && m[2] == 'o' {
        assert(m =~= "blo"@);
    }
    if m.len() == 3 && m[0] == 'b' && m[1] == 'h' && m[2] == 's' {
        assert(m =~= "bhs"@);
    }
    if m.len() == 3 && m[0] == 's' && m[1] == 'c' && m[2] == 's' {
        assert(m =~= "scs"@);
    }
    if m.len() == 3 && m[0] == 's' && m[1] == 'c' && m[2] == 'c' {
        assert(m =~= "scc"@);
    }
    if m.len() == 3 && m[0] == 's' && m[1] == 'h' && m[2] == 'i' {
        assert(m =~= "shi"@);
    }
    if m.len() == 3 && m[0] == 's' && m[1] == 'l' && m[2] == 's' {
        assert(m =~= "sls"@);
    }
    if m.len() == 3 && m[0] == 's' && m[1] == 'l' && m[2] == 'o' {
        assert(m =~= "slo"@);
    }
    if m.len() == 3 && m[0] == 's' && m[1] == 'h' && m[2] == 's' {
        assert(m =~= "shs"@);
    }
    if m.len() == 4 && m[0] == 'd' && m[1] == 'b' && m[2] == 'c' && m[3] == 's' {
        assert(m =~= "dbcs"@);
    }
    if m.len() == 4 && m[0] == 'd' && m[1] == 'b' && m[2] == 'c' && m[3] == 'c' {
        assert(m =~= "dbcc"@);
    }
    if m.len() == 4 && m[0] == 'd' && m[1] == 'b' && m[2] == 'h' && m[3] == 'i' {
        assert(m =~= "dbhi"@);
    }
    if m.len() == 4 && m[0] == 'd' && m[1] == 'b' && m[2] == 'l' && m[3] == 's' {
        assert(m =~= "dbls"@);
    }
}

/// The 68000 carry consumers are exactly the branches, sets and counting
/// loops on a test whose outcome depends on the carry: `bcs`, `bcc`,
/// `bhi`, `bls`, `blo` and `bhs`, the same tests as `sXX`, and the
/// counting loops `dbcs`, `dbcc`, `dbhi` and `dbls` (spelled canonically).
/// A branch or set on any other test (`beq`, `smi`, `bge`, ...) does not
/// read the carry, so it does not discharge a call's carry result.
pub proof fn law_carry_consumers_are_the_carry_tests(cc: Seq<char>, ops: Seq<CodeOperand>)
    requires
        is_cond_name(cc),
    ensures
        consumes_carry_spec("b"@ + cc, ops, Cpu::M68000) == tests_carry(cc),
        consumes_carry_spec("s"@ + cc, ops, Cpu::M68000) == tests_carry(cc),
        cc != "hs"@ && cc != "lo"@ ==> consumes_carry_spec("db"@ + cc, ops, Cpu::M68000) == tests_carry(cc),
{
    lemma_cond_name_literals();
    reveal_strlit("b");
    reveal_strlit("s");
    reveal_strlit("db");
    lemma_carry_consumer_shape("b"@ + cc);
    lemma_carry_consumer_shape("s"@ + cc);
    lemma_carry_consumer_shape("db"@ + cc);
    assert(("b"@ + cc).len() == 3 && ("b"@ + cc)[0] == 'b' && ("b"@ + cc)[1] == cc[0] && ("b"@ + cc)[2] == cc[1]);
    assert(("s"@ + cc).len() == 3 && ("s"@ + cc)[0] == 's' && ("s"@ + cc)[1] == cc[0] && ("s"@ + cc)[2] == cc[1]);
    assert(("db"@ + cc).len() == 4 && ("db"@ + cc)[0] == 'd' && ("db"@ + cc)[1] == 'b' && ("db"@ + cc)[2] == cc[0]
        && ("db"@ + cc)[3] == cc[1]);
    if cond_holds(cc, false, false, false, true) != cond_holds(cc, false, false, false, false) {
        assert(tests_carry(cc));
    }
}

/// Whether the Z80 condition `k` holds with the flags S, Z, P/V and C.
pub open spec fn z80_cond_holds(k: Z80Cond, s: bool, z: bool, pv: bool, c: bool) -> bool {
    match k {
        Z80Cond::Nz => !z,
        Z80Cond::Z => z,
        Z80Cond::Nc => !c,
        Z80Cond::C => c,
        Z80Cond::Po => !pv,
        Z80Cond::Pe => pv,
        Z80Cond::P => !s,
        Z80Cond::M => s,
    }
}

/// Whether the outcome of the Z80 condition `k` depends on the carry flag.
pub open spec fn z80_tests_carry(k: Z80Cond) -> bool {
    exists|s: bool, z: bool, pv: bool| #[trigger] z80_cond_holds(k, s, z, pv, true) != z80_cond_holds(k, s, z, pv, false)
}

/// On the Z80 the carry consumers are the conditional `jr`, `jp`, `call`
/// and `ret` whose condition depends on the carry (`c`, `nc`); the same
/// forms on `z`, `nz`, `po`, `pe`, `p` or `m` do not read it.
pub proof fn law_z80_carry_consumers_are_the_carry_tests(m: Seq<char>, k: Z80Cond, ops: Seq<CodeOperand>)
    requires
        m == "jr"@ || m == "jp"@ || m == "call"@ || m == "ret"@,
        ops.len() > 0,
        ops[0] == CodeOperand::Z80Cc(k),
    ensures
        consumes_carry_spec(m, ops, Cpu::Z80) == z80_tests_carry(k),
{
    if z80_cond_holds(k, false, false, false, true) != z80_cond_holds(k, false, false, false, false) {
        assert(z80_tests_carry(k));
    }
}

/// A branch or set on a named test tests that very condition: the
/// condition read off `bXX` or `sXX` passes on exactly the register states
/// on which `XX` does (aliases such as `hs` and `lo` resolve to their
/// canonical tests).
pub proof fn law_branch_tests_its_named_condition(cc: Seq<char>, n: bool, z: bool, v: bool, c: bool)
    requires
        is_cond_name(cc),
    ensures
        branch_cond_spec("b"@ + cc) matches Some(d) && is_cond_name(d) && cond_holds(d, n, z, v, c) == cond_holds(cc, n, z, v, c),
        branch_cond_spec("s"@ + cc) matches Some(d) && is_cond_name(d) && cond_holds(d, n, z, v, c) == cond_holds(cc, n, z, v, c),
{
    lemma_cond_name_literals();
    reveal_strlit("b");
    reveal_strlit("s");
    assert(("b"@ + cc).drop_first() =~= cc);
    assert(("s"@ + cc).drop_first() =~= cc);
    assert(("b"@ + cc)[0] == 'b');
    assert(("s"@ + cc)[0] == 's');
}

/// Negating a test gives its complement: for every register state, the
/// negated test passes exactly when the test fails (`eq`/`ne`, `cc`/`cs`,
/// `hi`/`ls`, `pl`/`mi`, `vc`/`vs`, `ge`/`lt`, `gt`/`le`, with `hs` and
/// `lo` negated as `cc` and `cs`). So a branch on the negation is taken
/// exactly when a branch on the test falls through.
pub proof fn law_negation_is_the_complement(cc: Seq<char>, n: bool, z: bool, v: bool, c: bool)
    requires
        is_cond_name(cc),
    ensures
        negated_cond(cc) matches Some(d) && is_cond_name(d) && cond_holds(d, n, z, v, c) == !cond_holds(cc, n, z, v, c),
{
    lemma_cond_name_literals();
}

/// Negating a guard twice gives the guard back, in its canonical spelling
/// (`hs` negates to `cs`, which negates to `cc`).
pub proof fn law_negation_involutive(cc: Seq<char>)
    requires
        negated_cond(cc) is Some,
    ensures
        negated_cond(negated_cond(cc)->0) == Some(canonical_guard(cc)),
{
    reveal_strlit("cc");
    reveal_strlit("hs");
    reveal_strlit("cs");
    reveal_strlit("lo");
    reveal_strlit("eq");
    reveal_strlit("ne");
    reveal_strlit("hi");
    reveal_strlit("ls");
    reveal_strlit("pl");
    reveal_strlit("mi");
    reveal_strlit("vc");
    reveal_strlit("vs");
    reveal_strlit("ge");
    reveal_strlit("lt");
    reveal_strlit("gt");
    reveal_strlit("le");
    assert("cc"@.len() == 2 && "cc"@[0] == 'c' && "cc"@[1] == 'c');
    assert("hs"@.len() == 2 && "hs"@[0] == 'h' && "hs"@[1] == 's');
    assert("cs"@.len() == 2 && "cs"@[0] == 'c' && "cs"@[1] == 's');
    assert("lo"@.len() == 2 && "lo"@[0] == 'l' && "lo"@[1] == 'o');
    assert("eq"@.len() == 2 && "eq"@[0] == 'e' && "eq"@[1] == 'q');
    assert("ne"@.len() == 2 && "ne"@[0] == 'n' && "ne"@[1] == 'e');
    assert("hi"@.len() == 2 && "hi"@[0] == 'h' && "hi"@[1] == 'i');
    assert("ls"@.len() == 2 && "ls"@[0] == 'l' && "ls"@[1] == 's');
    assert("pl"@.len() == 2 && "pl"@[0] == 'p' && "pl"@[1] == 'l');
    assert("mi"@.len() == 2 && "mi"@[0] == 'm' && "mi"@[1] == 'i');
    assert("vc"@.len() == 2 && "vc"@[0] == 'v' && "vc"@[1] == 'c');
    assert("vs"@.len() == 2 && "vs"@[0] == 'v' && "vs"@[1] == 's');
    assert("ge"@.len() == 2 && "ge"@[0] == 'g' && "ge"@[1] == 'e');
    assert("lt"@.len() == 2 && "lt"@[0] == 'l' && "lt"@[1] == 't');
    assert("gt"@.len() == 2 && "gt"@[0] == 'g' && "gt"@[1] == 't');
    assert("le"@.len() == 2 && "le"@[0] == 'l' && "le"@[1] == 'e');
}

/// Whether an operand mentions `r`: as the register itself, an indirect
/// base, or an index.
pub open spec fn operand_mentions(op: CodeOperand, r: Reg) -> bool {
    match op {
        CodeOperand::Reg(x) => x == r,
        CodeOperand::Ind(x) => x == r,
        CodeOperand::PreDec(x) => x == r,
        CodeOperand::PostInc(x) => x == r,
        CodeOperand::DispInd { reg, .. } => reg == r,
        CodeOperand::DispSymInd { reg, .. } => reg == r,
        CodeOperand::IndIdx { reg, xn, .. } => reg == r || xn == r,
        _ => false,
    }
}

proof fn lemma_add_reg(s: Seq<Reg>, x: Reg)
    ensures
        forall|r: Reg| #[trigger] add_reg(s, x).contains(r) <==> (s.contains(r) || r == x),
        s.no_duplicates() ==> add_reg(s, x).no_duplicates(),
{
    if !s.contains(x) {
        assert forall|r: Reg| #[trigger] s.push(x).contains(r) <==> (s.contains(r) || r == x) by {
            if s.push(x).contains(r) {
                let j = choose|j: int| 0 <= j < s.len() + 1 && s.push(x)[j] == r;
                if j < s.len() {
                    assert(s[j] == r);
                }
            }
            if s.contains(r) {
                let j = choose|j: int| 0 <= j < s.len() && s[j] == r;
                assert(s.push(x)[j] == r);
            }
            assert(s.push(x)[s.len() as int] == x);
        }
    }
}

proof fn lemma_regs_mentioned_upto(ops: Seq<CodeOperand>, n: int)
    requires
        0 <= n <= ops.len(),
    ensures
        regs_mentioned_upto(ops, n).no_duplicates(),
        forall|r: Reg|
            #[trigger] regs_mentioned_upto(ops, n).contains(r) <==> exists|i: int|
                0 <= i < n && operand_mentions(#[trigger] ops[i], r),
    decreases n,
{
    if n > 0 {
        lemma_regs_mentioned_upto(ops, n - 1);
        let s = regs_mentioned_upto(ops, n - 1);
        let op = ops[n - 1];
        match op {
            CodeOperand::IndIdx { reg, xn, .. } => {
                lemma_add_reg(s, reg);
                lemma_add_reg(add_reg(s, reg), xn);
            },
            CodeOperand::Reg(x) => lemma_add_reg(s, x),
            CodeOperand::Ind(x) => lemma_add_reg(s, x),
            CodeOperand::PreDec(x) => lemma_add_reg(s, x),
            CodeOperand::PostInc(x) => lemma_add_reg(s, x),
            CodeOperand::DispInd { reg, .. } => lemma_add_reg(s, reg),
            CodeOperand::DispSymInd { reg, .. } => lemma_add_reg(s, reg),
            _ => {},
        }
        assert forall|r: Reg| #[trigger] regs_mentioned_upto(ops, n).contains(r) <==> exists|i: int|
            0 <= i < n && operand_mentions(#[trigger] ops[i], r) by {
            if regs_mentioned_upto(ops, n).contains(r) && !s.contains(r) {
                assert(operand_mentions(ops[n - 1], r));
            }
            if exists|i: int| 0 <= i < n && operand_mentions(#[trigger] ops[i], r) {
                let i = choose|i: int| 0 <= i < n && operand_mentions(#[trigger] ops[i], r);
                if i < n - 1 {
                    assert(s.contains(r));
                }
            }
        }
    }
}

/// The mentioned-register list holds each register once, and holds exactly
/// the registers some operand mentions.
pub proof fn law_regs_mentioned_exact(ops: Seq<CodeOperand>, r: Reg)
    ensures
        regs_mentioned_spec(ops).no_duplicates(),
        regs_mentioned_spec(ops).contains(r) <==> exists|i: int|
            0 <= i < ops.len() && operand_mentions(#[trigger] ops[i], r),
{
    lemma_regs_mentioned_upto(ops, ops.len() as int);
}

/// The CPU's own return table decides a `Return` edge: on the 68000 an
/// instruction returns exactly when it is `rts`/`rte`/`rtr`/`rtd`, on the Z80
/// exactly when it is `ret`/`reti`/`retn` (conditional forms included), so
/// `ret` is an ordinary instruction to the 68k builder and `rts` to the Z80
/// one.
pub proof fn law_return_edges_follow_the_cpu_table(items: Seq<CodeItem>, idx: int, cpu: Cpu)
    requires
        0 <= idx < items.len(),
        items[idx] is Instr,
    ensures
        edges_on(items, idx, cpu).contains(Edge::Return) <==> returns_on(
            items[idx]->Instr_mnemonic@,
            cpu,
        ),
{
    let es = edges_on(items, idx, cpu);
    if let CodeItem::Instr { mnemonic, ops, .. } = items[idx] {
        let f = fall_edge(items, idx);
        let bo = branch_edge_spec(items, ops@, OutFlavor::BranchOut);
        let to = branch_edge_spec(items, ops@, OutFlavor::TailOut);
        assert(f != Edge::Return && bo != Edge::Return && to != Edge::Return);
        if es.contains(Edge::Return) {
            let k = choose|k: int| 0 <= k < es.len() && es[k] == Edge::Return;
            assert(es[k] == Edge::Return);
        }
        if returns_on(mnemonic@, cpu) {
            assert(es[0] == Edge::Return);
        }
    }
}

proof fn lemma_no_label_join(items: Seq<CodeItem>, a: int, b: int, c: int)
    requires
        a < b < c,
        no_label_between(items, a, b),
        no_label_between(items, b, c),
        0 <= b < items.len(),
        !(items[b] is Label),
    ensures
        no_label_between(items, a, c),
{
    assert forall|k: int| a < k < c implies !(#[trigger] items[k] is Label) by {
        if k != b {
            assert(a < k < b || b < k < c);
        }
    }
}

proof fn lemma_valid_edge_from_no_label(
    items: Seq<CodeItem>,
    prev: int,
    idx: int,
    cc: Seq<char>,
    neg: Seq<char>,
    transparent: Seq<String>,
)
    requires
        prev < idx,
    ensures
        valid_edge_from(items, prev, idx, cc, neg, transparent) matches Some((g, _)) ==> prev < g
            && no_label_between(items, prev, g),
    decreases items.len() - idx,
{
    if 0 <= idx < items.len() && no_label_between(items, prev, idx) {
        if let CodeItem::Instr { mnemonic, .. } = items[idx] {
            if let Some(j) = next_instr_of(items, idx) {
                if idx < j < items.len() {
                    lemma_valid_edge_from_no_label(items, idx, j, cc, neg, transparent);
                    if let Some((g, _)) = valid_edge_from(items, idx, j, cc, neg, transparent) {
                        let m = mnemonic@;
                        if !(m.len() > 0 && m[0] == 'b' && encode_utf8(m).len() == 3) && !(is_return_68k(m) || is_uncond_mnemonic(m)
                            || !listed(transparent, m)) {
                            lemma_no_label_join(items, prev, idx, g);
                        }
                    }
                }
            }
        }
    }
}

/// A success edge is credited only when no label stands between the call and
/// its guard: a label there is a join a bypass path could enter by, so the
/// walk gives up rather than hand that path the credit.
pub proof fn law_valid_edge_crosses_no_label(
    items: Seq<CodeItem>,
    call_idx: int,
    cc: Seq<char>,
    transparent: Seq<String>,
)
    ensures
        valid_edge_spec(items, call_idx, cc, transparent) matches Some((g, _)) ==> call_idx < g
            && no_label_between(items, call_idx, g),
{
    let c = canonical_guard(cc);
    if let Some(neg) = negated_cond(c) {
        if let Some(j) = next_instr_of(items, call_idx) {
            lemma_first_instr_from(items, call_idx + 1);
            lemma_valid_edge_from_no_label(items, call_idx, j, c, neg, transparent);
        }
    }
}
// ---------------------------------------------------------------------------
// Laws of the edge builders.
// ---------------------------------------------------------------------------

proof fn lemma_first_instr_from(items: Seq<CodeItem>, i: int)
    ensures
        first_instr_from(items, i) matches Some(j) ==> i <= j < items.len() && items[j] is Instr,
    decreases items.len() - i,
{
    if 0 <= i < items.len() && !(items[i] is Instr) {
        lemma_first_instr_from(items, i + 1);
    }
}

proof fn lemma_last_label_target(items: Seq<CodeItem>, name: Seq<char>, n: int)
    ensures
        last_label_target(items, name, n) matches Some(j) ==> 0 <= j < items.len()
            && items[j] is Instr,
    decreases n,
{
    if n > 0 {
        if labels(items, n - 1, name) && first_instr_from(items, n - 1) is Some {
            lemma_first_instr_from(items, n - 1);
        } else {
            lemma_last_label_target(items, name, n - 1);
        }
    }
}

proof fn lemma_fall_edge_target(items: Seq<CodeItem>, idx: int)
    requires
        items.len() <= usize::MAX,
    ensures
        fall_edge(items, idx) matches Edge::Follow(j) ==> j < items.len() && items[j as int] is Instr,
{
    if 0 <= idx < items.len() && items[idx] is Instr {
        lemma_first_instr_from(items, idx + 1);
    }
}

proof fn lemma_branch_edge_target(items: Seq<CodeItem>, ops: Seq<CodeOperand>, flavor: OutFlavor)
    requires
        items.len() <= usize::MAX,
    ensures
        branch_edge_spec(items, ops, flavor) matches Edge::Follow(j) ==> j < items.len()
            && items[j as int] is Instr,
{
    if let Some(t) = branch_target_spec(ops) {
        lemma_last_label_target(items, t, items.len() as int);
    }
}

/// Every edge that stays in the body arrives at an instruction of it.
pub proof fn law_follow_targets_are_instructions(items: Seq<CodeItem>, idx: int, cpu: Cpu, j: usize)
    requires
        items.len() <= usize::MAX,
        edges_on(items, idx, cpu).contains(Edge::Follow(j)),
    ensures
        j < items.len(),
        items[j as int] is Instr,
{
    let es = edges_on(items, idx, cpu);
    let k = choose|k: int| 0 <= k < es.len() && es[k] == Edge::Follow(j);
    assert(es[k] == Edge::Follow(j));
    lemma_fall_edge_target(items, idx);
    if let CodeItem::Instr { ops, .. } = items[idx] {
        lemma_branch_edge_target(items, ops@, OutFlavor::TailOut);
        lemma_branch_edge_target(items, ops@, OutFlavor::BranchOut);
    }
}

/// The transfer-out split: a `BranchOut` is the taken side of a conditional
/// terminator, so it always has a sibling local edge and never shares the
/// instruction with a `TailOut`; a `TailOut` is always its instruction's only
/// edge. On both CPUs.
pub proof fn law_transfer_out_split(items: Seq<CodeItem>, idx: int, cpu: Cpu)
    ensures
        ({
            let es = edges_on(items, idx, cpu);
            &&& es.contains(Edge::BranchOut) ==> es.len() >= 2 && !es.contains(Edge::TailOut)
            &&& es.contains(Edge::TailOut) ==> es == seq![Edge::TailOut]
        }),
{
    let es = edges_on(items, idx, cpu);
    if 0 <= idx < items.len() {
        if let CodeItem::Instr { ops, .. } = items[idx] {
            let f = fall_edge(items, idx);
            let bo = branch_edge_spec(items, ops@, OutFlavor::BranchOut);
            let to = branch_edge_spec(items, ops@, OutFlavor::TailOut);
            assert(f != Edge::BranchOut && f != Edge::TailOut);
            assert(bo != Edge::TailOut);
            assert(to != Edge::BranchOut);
            if es.contains(Edge::TailOut) {
                let k = choose|k: int| 0 <= k < es.len() && es[k] == Edge::TailOut;
                assert(es[k] == Edge::TailOut);
            }
            if es.contains(Edge::BranchOut) {
                let k = choose|k: int| 0 <= k < es.len() && es[k] == Edge::BranchOut;
                assert(es[k] == Edge::BranchOut);
            }
        }
    }
}

/// No call mnemonic yields a transfer-out edge: a call comes back, so its
/// only successor is the fall-through (68k `jsr`/`jbsr`/`bsr`, Z80 `call`
/// and `rst`, conditional `call cc` included).
pub proof fn law_calls_fall_through(items: Seq<CodeItem>, idx: int, cpu: Cpu)
    requires
        0 <= idx < items.len(),
        items[idx] matches CodeItem::Instr { mnemonic, .. } && match cpu {
            Cpu::Z80 => mnemonic@ == "call"@ || mnemonic@ == "rst"@,
            _ => is_call_mnemonic(mnemonic@),
        },
    ensures
        edges_on(items, idx, cpu) == seq![fall_edge(items, idx)],
{
    let m = items[idx]->Instr_mnemonic@;
    reveal_strlit("jsr");
    reveal_strlit("jbsr");
    reveal_strlit("bsr");
    reveal_strlit("call");
    reveal_strlit("rst");
    reveal_strlit("rts");
    reveal_strlit("rte");
    reveal_strlit("rtr");
    reveal_strlit("rtd");
    reveal_strlit("bra");
    reveal_strlit("jbra");
    reveal_strlit("jmp");
    reveal_strlit("jra");
    reveal_strlit("ret");
    reveal_strlit("reti");
    reveal_strlit("retn");
    reveal_strlit("jp");
    reveal_strlit("jr");
    reveal_strlit("djnz");
    assert("jsr"@.len() == 3 && "jsr"@[0] == 'j' && "jsr"@[1] == 's' && "jsr"@[2] == 'r');
    assert("jbsr"@.len() == 4 && "jbsr"@[0] == 'j' && "jbsr"@[1] == 'b' && "jbsr"@[2] == 's' && "jbsr"@[3] == 'r');
    assert("bsr"@.len() == 3 && "bsr"@[0] == 'b' && "bsr"@[1] == 's' && "bsr"@[2] == 'r');
    assert("call"@.len() == 4 && "call"@[0] == 'c' && "call"@[1] == 'a' && "call"@[2] == 'l' && "call"@[3] == 'l');
    assert("rst"@.len() == 3 && "rst"@[0] == 'r' && "rst"@[1] == 's' && "rst"@[2] == 't');
    assert("rts"@.len() == 3 && "rts"@[0] == 'r' && "rts"@[1] == 't' && "rts"@[2] == 's');
    assert("rte"@.len() == 3 && "rte"@[0] == 'r' && "rte"@[1] == 't' && "rte"@[2] == 'e');
    assert("rtr"@.len() == 3 && "rtr"@[0] == 'r' && "rtr"@[1] == 't' && "rtr"@[2] == 'r');
    assert("rtd"@.len() == 3 && "rtd"@[0] == 'r' && "rtd"@[1] == 't' && "rtd"@[2] == 'd');
    assert("bra"@.len() == 3 && "bra"@[0] == 'b' && "bra"@[1] == 'r' && "bra"@[2] == 'a');
    assert("jbra"@.len() == 4 && "jbra"@[0] == 'j' && "jbra"@[1] == 'b' && "jbra"@[2] == 'r' && "jbra"@[3] == 'a');
    assert("jmp"@.len() == 3 && "jmp"@[0] == 'j' && "jmp"@[1] == 'm' && "jmp"@[2] == 'p');
    assert("jra"@.len() == 3 && "jra"@[0] == 'j' && "jra"@[1] == 'r' && "jra"@[2] == 'a');
    assert("ret"@.len() == 3 && "ret"@[0] == 'r' && "ret"@[1] == 'e' && "ret"@[2] == 't');
    assert("reti"@.len() == 4 && "reti"@[0] == 'r' && "reti"@[1] == 'e' && "reti"@[2] == 't' && "reti"@[3] == 'i');
    assert("retn"@.len() == 4 && "retn"@[0] == 'r' && "retn"@[1] == 'e' && "retn"@[2] == 't' && "retn"@[3] == 'n');
    assert("jp"@.len() == 2 && "jp"@[0] == 'j' && "jp"@[1] == 'p');
    assert("jr"@.len() == 2 && "jr"@[0] == 'j' && "jr"@[1] == 'r');
    assert("djnz"@.len() == 4 && "djnz"@[0] == 'd' && "djnz"@[1] == 'j' && "djnz"@[2] == 'n' && "djnz"@[3] == 'z');
    match cpu {
        Cpu::Z80 => {
            assert(!is_return_z80(m));
            assert(m != "jp"@ && m != "jr"@ && m != "djnz"@);
        },
        _ => {
            assert(!is_return_68k(m));
            assert(!is_uncond_mnemonic(m));
            assert(!is_cond_branch_68k(m));
        },
    }
}

} // verus!
