//! The evaluated code items the control-flow checks walk: a proc body is a
//! sequence of [`CodeItem`]s (instructions, labels, inline data) whose
//! operands are [`CodeOperand`]s over 68000 registers ([`Reg`]) and Z80
//! condition codes ([`Z80Cond`]). Only the parts of an item the checks read
//! are carried.
use vstd::prelude::*;

verus! {

/// A source span: the source file id and the byte range.
#[derive(Clone, Copy, Debug, PartialEq, Eq, Structural)]
pub struct Span {
    pub source: u32,
    pub start: u32,
    pub end: u32,
}

/// An operation size suffix: `.b`, `.w`, `.l`, or `.s` (short).
#[derive(Clone, Copy, Debug, PartialEq, Eq, Structural)]
pub enum Width {
    B,
    W,
    L,
    S,
}

/// The CPU whose instruction set a proc body is written in.
#[derive(Clone, Copy, Debug, PartialEq, Eq, Structural)]
pub enum Cpu {
    M68000,
    Z80,
}

/// A 68000 data or address register.
#[derive(Clone, Copy, Debug, PartialEq, Eq, Structural)]
pub enum Reg {
    D0,
    D1,
    D2,
    D3,
    D4,
    D5,
    D6,
    D7,
    A0,
    A1,
    A2,
    A3,
    A4,
    A5,
    A6,
    A7,
}

/// A Z80 condition code.
#[derive(Clone, Copy, Debug, PartialEq, Eq, Structural)]
pub enum Z80Cond {
    Nz,
    Z,
    Nc,
    C,
    Po,
    Pe,
    P,
    M,
}

/// A resolved instruction operand.
#[derive(Clone, Debug, PartialEq, Eq)]
pub enum CodeOperand {
    /// `dN` / `aN`.
    Reg(Reg),
    /// `(aN)`.
    Ind(Reg),
    /// `-(aN)`.
    PreDec(Reg),
    /// `(aN)+`.
    PostInc(Reg),
    /// `d(aN)`.
    DispInd { disp: i64, reg: Reg },
    /// `Sym(aN)`.
    DispSymInd { sym: String, reg: Reg },
    /// `d(aN, xN)`.
    IndIdx { disp: i64, reg: Reg, xn: Reg },
    /// `#imm`.
    Imm(i64),
    /// A bare symbol: a branch/call target or an absolute address.
    Sym(String),
    /// `Sym + off`, an absolute symbol-offset address.
    SymOff { sym: String, off: i64 },
    /// `(Sym).l` / `(Sym).w`, a pinned-width absolute address.
    AbsSym { target: String, long: bool },
    /// The condition code register.
    Ccr,
    /// The status register.
    Sr,
    /// A Z80 condition-code operand (`jr c, ...`).
    Z80Cc(Z80Cond),
    /// The Z80 `(hl)` indirect.
    Z80IndHl,
}

/// One item of an evaluated proc body.
#[derive(Clone, Debug, PartialEq, Eq)]
pub enum CodeItem {
    /// An instruction: its resolved mnemonic and operands.
    Instr { mnemonic: String, ops: Vec<CodeOperand>, span: Span },
    /// A label definition.
    Label { name: String, export: bool, span: Span },
    /// Inline data bytes.
    Data { bytes: Vec<u8>, span: Span },
}

/// The canonical name of a register (`d0`..`d7`, `a0`..`a7`).
pub open spec fn reg_name(r: Reg) -> Seq<char> {
    match r {
        Reg::D0 => seq!['d', '0'],
        Reg::D1 => seq!['d', '1'],
        Reg::D2 => seq!['d', '2'],
        Reg::D3 => seq!['d', '3'],
        Reg::D4 => seq!['d', '4'],
        Reg::D5 => seq!['d', '5'],
        Reg::D6 => seq!['d', '6'],
        Reg::D7 => seq!['d', '7'],
        Reg::A0 => seq!['a', '0'],
        Reg::A1 => seq!['a', '1'],
        Reg::A2 => seq!['a', '2'],
        Reg::A3 => seq!['a', '3'],
        Reg::A4 => seq!['a', '4'],
        Reg::A5 => seq!['a', '5'],
        Reg::A6 => seq!['a', '6'],
        Reg::A7 => seq!['a', '7'],
    }
}

/// The register a name spells: `d0`..`d7`, `a0`..`a7`, and `sp` for `a7`.
pub open spec fn reg_named(name: Seq<char>) -> Option<Reg> {
    if name == seq!['s', 'p'] {
        Some(Reg::A7)
    } else if name.len() == 2 && name[0] == 'd' && '0' <= name[1] <= '7' {
        Some(data_reg((name[1] as u32 - 48) as nat))
    } else if name.len() == 2 && name[0] == 'a' && '0' <= name[1] <= '7' {
        Some(addr_reg((name[1] as u32 - 48) as nat))
    } else {
        None
    }
}

/// `dN`.
pub open spec fn data_reg(n: nat) -> Reg {
    if n == 0 {
        Reg::D0
    } else if n == 1 {
        Reg::D1
    } else if n == 2 {
        Reg::D2
    } else if n == 3 {
        Reg::D3
    } else if n == 4 {
        Reg::D4
    } else if n == 5 {
        Reg::D5
    } else if n == 6 {
        Reg::D6
    } else {
        Reg::D7
    }
}

/// `aN`.
pub open spec fn addr_reg(n: nat) -> Reg {
    if n == 0 {
        Reg::A0
    } else if n == 1 {
        Reg::A1
    } else if n == 2 {
        Reg::A2
    } else if n == 3 {
        Reg::A3
    } else if n == 4 {
        Reg::A4
    } else if n == 5 {
        Reg::A5
    } else if n == 6 {
        Reg::A6
    } else {
        Reg::A7
    }
}

impl Reg {
    /// The register a name spells (`d0`..`d7`, `a0`..`a7`, `sp` = `a7`).
    pub fn from_name(name: &str) -> (r: Option<Reg>)
        ensures
            r == reg_named(name@),
    {
        if name.unicode_len() != 2 {
            return None;
        }
        let c0 = name.get_char(0);
        let c1 = name.get_char(1);
        if c0 == 's' && c1 == 'p' {
            assert(name@ =~= seq!['s', 'p']);
            return Some(Reg::A7);
        }
        if !('0' <= c1 && c1 <= '7') {
            return None;
        }
        let n = (c1 as u32) - 48;
        let (d, a) = match n {
            0 => (Reg::D0, Reg::A0),
            1 => (Reg::D1, Reg::A1),
            2 => (Reg::D2, Reg::A2),
            3 => (Reg::D3, Reg::A3),
            4 => (Reg::D4, Reg::A4),
            5 => (Reg::D5, Reg::A5),
            6 => (Reg::D6, Reg::A6),
            _ => (Reg::D7, Reg::A7),
        };
        if c0 == 'd' {
            Some(d)
        } else if c0 == 'a' {
            Some(a)
        } else {
            None
        }
    }

    /// The canonical name of the register.
    pub fn name(self) -> (r: &'static str)
        ensures
            r@ == reg_name(self),
    {
        proof {
            reveal_strlit("d0");
            reveal_strlit("d1");
            reveal_strlit("d2");
            reveal_strlit("d3");
            reveal_strlit("d4");
            reveal_strlit("d5");
            reveal_strlit("d6");
            reveal_strlit("d7");
            reveal_strlit("a0");
            reveal_strlit("a1");
            reveal_strlit("a2");
            reveal_strlit("a3");
            reveal_strlit("a4");
            reveal_strlit("a5");
            reveal_strlit("a6");
            reveal_strlit("a7");
        }
        let r = match self {
            Reg::D0 => "d0",
            Reg::D1 => "d1",
            Reg::D2 => "d2",
            Reg::D3 => "d3",
            Reg::D4 => "d4",
            Reg::D5 => "d5",
            Reg::D6 => "d6",
            Reg::D7 => "d7",
            Reg::A0 => "a0",
            Reg::A1 => "a1",
            Reg::A2 => "a2",
            Reg::A3 => "a3",
            Reg::A4 => "a4",
            Reg::A5 => "a5",
            Reg::A6 => "a6",
            Reg::A7 => "a7",
        };
        assert(r@ =~= reg_name(self));
        r
    }
}

/// One cell of an emitted data buffer: concrete bytes, an integer of a
/// given width, or something the linker resolves later (a symbol's address,
/// an offset-table entry, a link-time expression).
#[derive(Clone, Debug, PartialEq, Eq)]
pub enum Cell {
    Bytes(Vec<u8>),
    Scalar { value: i128, width: u8, signed: bool, le: bool },
    SymRef { name: String, width: u8, windowed: bool },
    RelOffset,
    Expr { width: u8, le: bool },
}

} // verus!
