//! FSTRING encoder + `assert` auto-message derivation. Pure functions turning
//! format strings and assert operand spellings into the exact inline-message
//! byte run that the MD Debugger's `__FSTRING_GenerateDecodedString` and
//! `RaiseError` macros emit.
//!
//! Byte constants (MD Debugger v2.6 `debugger.asm`):
//!   * argument format params `hex`/`dec`/`bin`/`sym`/`symdisp`/`str` and the
//!     width bits `byte`/`word`/`long` (0/1/3);
//!   * console control flags `endl`/`cr`/`pal0..3` (one byte) and
//!     `setw`/`setoff`/`setpat`/`setx` (control byte + one param byte);
//!   * the descriptor byte of an argument is `val(param) | width_bits`, the
//!     macro's own `val(param) < $80` check is an error, and every run ends
//!     with a `$00` terminator.
//!
//! Every function here is specified by a spec function over character
//! sequences; error messages are part of the specification.
use crate::eval::text::{
    chars_of, dec_digits, digit_char, find_char, find_ws, is_ws, parse_radix, parse_radix_range,
    push_hex2, range_eq, split_ws, trim, trim_range, first_of, first_ws, push_decimal, push_bytes,
    push_lowercased, lower_byte, trim_start, trim_end,
};
use crate::ast::Operand;
use vstd::prelude::*;
use vstd::string::StringSliceAdditionalSpecFns;

verus! {

/// Argument display width for an FSTRING `%<.b|.w|.l ...>` operand and for
/// `assert.<w>`. The width bits (0/1/3) are OR'd into the param base to form
/// the descriptor byte.
#[derive(Clone, Copy, Debug, PartialEq, Eq, Structural)]
pub enum Width {
    B,
    W,
    L,
}

/// `byte`=0, `word`=1, `long`=3.
pub open spec fn width_bits(w: Width) -> u8 {
    match w {
        Width::B => 0,
        Width::W => 1,
        Width::L => 3,
    }
}

/// The AS `.b`/`.w`/`.l` spelling letter.
pub open spec fn width_letter(w: Width) -> char {
    match w {
        Width::B => 'b',
        Width::W => 'w',
        Width::L => 'l',
    }
}

impl Width {
    /// `byte`=0, `word`=1, `long`=3.
    pub fn bits(self) -> (r: u8)
        ensures
            r == width_bits(self),
    {
        match self {
            Width::B => 0,
            Width::W => 1,
            Width::L => 3,
        }
    }

    /// The AS `.b`/`.w`/`.l` spelling used in the auto-message template.
    pub fn suffix(self) -> (r: &'static str)
        ensures
            r@ == seq![width_letter(self)],
    {
        proof {
            reveal_strlit("b");
            reveal_strlit("w");
            reveal_strlit("l");
        }
        match self {
            Width::B => "b",
            Width::W => "w",
            Width::L => "l",
        }
    }
}

/// One `%<.b|.w|.l operand [param]>` argument recorded in string order.
#[derive(Clone, Debug, PartialEq, Eq)]
pub struct FStringArg {
    pub width: Width,
    pub operand_spelling: String,
    /// The canonical param spelling (empty input normalizes to `"hex"`).
    pub param: String,
}

/// An argument as the specification sees it: width, operand, param.
pub type ArgModel = (Width, Seq<char>, Seq<char>);

impl View for FStringArg {
    type V = ArgModel;

    open spec fn view(&self) -> ArgModel {
        (self.width, self.operand_spelling@, self.param@)
    }
}

/// The views of a list of arguments.
pub open spec fn args_view(args: Seq<FStringArg>) -> Seq<ArgModel> {
    args.map_values(|a: FStringArg| a@)
}

/// The encoded inline-message byte run for a format string, plus the ordered
/// argument list. `bytes` includes the trailing `$00` terminator but NOT the
/// exit-flag byte (that is offset-parity-dependent — see [`exit_flag_bytes`]).
#[derive(Clone, Debug, PartialEq, Eq)]
pub struct EncodedFString {
    pub bytes: Vec<u8>,
    pub args: Vec<FStringArg>,
}

/// What encoding a format string (or one of its tokens) yields: the bytes and
/// the arguments, or the error message.
pub type EncodeResult = Result<(Seq<u8>, Seq<ArgModel>), Seq<char>>;

// ---------------------------------------------------------------------------
// The byte tables.
// ---------------------------------------------------------------------------

/// Argument format param bases.
pub open spec fn param_base(t: Seq<char>) -> Option<u8> {
    if t == seq!['h', 'e', 'x'] {
        Some(0x80u8)
    } else if t == seq!['d', 'e', 'c'] {
        Some(0x90u8)
    } else if t == seq!['b', 'i', 'n'] {
        Some(0xA0u8)
    } else if t == seq!['s', 'y', 'm'] {
        Some(0xB0u8)
    } else if t == seq!['s', 'y', 'm', 'd', 'i', 's', 'p'] {
        Some(0xC0u8)
    } else if t == seq!['s', 't', 'r'] {
        Some(0xD0u8)
    } else {
        None
    }
}

/// Additional param flags OR'd onto a base: `signed`=8 (hex/dec/bin),
/// `split`=8 / `forced`=4 (sym), `weak`=8 (symdisp).
pub open spec fn param_flag(t: Seq<char>) -> Option<u8> {
    if t == seq!['s', 'i', 'g', 'n', 'e', 'd'] {
        Some(8u8)
    } else if t == seq!['s', 'p', 'l', 'i', 't'] {
        Some(8u8)
    } else if t == seq!['f', 'o', 'r', 'c', 'e', 'd'] {
        Some(4u8)
    } else if t == seq!['w', 'e', 'a', 'k'] {
        Some(8u8)
    } else {
        None
    }
}

/// The bits one `+`-joined param term contributes.
pub open spec fn param_term_bits(t: Seq<char>) -> Option<u8> {
    match param_base(t) {
        Some(b) => Some(b),
        None => param_flag(t),
    }
}

/// Plain (no-argument) console control tokens: `%<name>` → one byte.
pub open spec fn plain_control(t: Seq<char>) -> Option<u8> {
    if t == seq!['e', 'n', 'd', 'l'] {
        Some(0xE0u8)
    } else if t == seq!['c', 'r'] {
        Some(0xE6u8)
    } else if t == seq!['p', 'a', 'l', '0'] {
        Some(0xE8u8)
    } else if t == seq!['p', 'a', 'l', '1'] {
        Some(0xEAu8)
    } else if t == seq!['p', 'a', 'l', '2'] {
        Some(0xECu8)
    } else if t == seq!['p', 'a', 'l', '3'] {
        Some(0xEEu8)
    } else {
        None
    }
}

/// Parametrized console control tokens: `%<name N>` → control byte + N.
pub open spec fn param_control(t: Seq<char>) -> Option<u8> {
    if t == seq!['s', 'e', 't', 'w'] {
        Some(0xF0u8)
    } else if t == seq!['s', 'e', 't', 'o', 'f', 'f'] {
        Some(0xF4u8)
    } else if t == seq!['s', 'e', 't', 'p', 'a', 't'] {
        Some(0xF8u8)
    } else if t == seq!['s', 'e', 't', 'x'] {
        Some(0xFAu8)
    } else {
        None
    }
}

fn param_term_bits_range(cs: &Vec<char>, a: usize, b: usize) -> (r: Option<u8>)
    requires
        a <= b <= cs@.len(),
    ensures
        r == param_term_bits(cs@.subrange(a as int, b as int)),
{
    if range_eq(cs, a, b, &['h', 'e', 'x']) {
        Some(0x80)
    } else if range_eq(cs, a, b, &['d', 'e', 'c']) {
        Some(0x90)
    } else if range_eq(cs, a, b, &['b', 'i', 'n']) {
        Some(0xA0)
    } else if range_eq(cs, a, b, &['s', 'y', 'm']) {
        Some(0xB0)
    } else if range_eq(cs, a, b, &['s', 'y', 'm', 'd', 'i', 's', 'p']) {
        Some(0xC0)
    } else if range_eq(cs, a, b, &['s', 't', 'r']) {
        Some(0xD0)
    } else if range_eq(cs, a, b, &['s', 'i', 'g', 'n', 'e', 'd']) {
        Some(8)
    } else if range_eq(cs, a, b, &['s', 'p', 'l', 'i', 't']) {
        Some(8)
    } else if range_eq(cs, a, b, &['f', 'o', 'r', 'c', 'e', 'd']) {
        Some(4)
    } else if range_eq(cs, a, b, &['w', 'e', 'a', 'k']) {
        Some(8)
    } else {
        None
    }
}

fn plain_control_range(cs: &Vec<char>, a: usize, b: usize) -> (r: Option<u8>)
    requires
        a <= b <= cs@.len(),
    ensures
        r == plain_control(cs@.subrange(a as int, b as int)),
{
    if range_eq(cs, a, b, &['e', 'n', 'd', 'l']) {
        Some(0xE0)
    } else if range_eq(cs, a, b, &['c', 'r']) {
        Some(0xE6)
    } else if range_eq(cs, a, b, &['p', 'a', 'l', '0']) {
        Some(0xE8)
    } else if range_eq(cs, a, b, &['p', 'a', 'l', '1']) {
        Some(0xEA)
    } else if range_eq(cs, a, b, &['p', 'a', 'l', '2']) {
        Some(0xEC)
    } else if range_eq(cs, a, b, &['p', 'a', 'l', '3']) {
        Some(0xEE)
    } else {
        None
    }
}

fn param_control_range(cs: &Vec<char>, a: usize, b: usize) -> (r: Option<u8>)
    requires
        a <= b <= cs@.len(),
    ensures
        r == param_control(cs@.subrange(a as int, b as int)),
{
    if range_eq(cs, a, b, &['s', 'e', 't', 'w']) {
        Some(0xF0)
    } else if range_eq(cs, a, b, &['s', 'e', 't', 'o', 'f', 'f']) {
        Some(0xF4)
    } else if range_eq(cs, a, b, &['s', 'e', 't', 'p', 'a', 't']) {
        Some(0xF8)
    } else if range_eq(cs, a, b, &['s', 'e', 't', 'x']) {
        Some(0xFA)
    } else {
        None
    }
}


// ---------------------------------------------------------------------------
// Error messages.
// ---------------------------------------------------------------------------

/// `unknown FSTRING param `{term}` (...)`.
pub open spec fn msg_unknown_param(term: Seq<char>) -> Seq<char> {
    "unknown FSTRING param `"@ + term
        + "` (expected hex, dec, bin, sym, symdisp, str, or a flag: signed, split, forced, weak)"@
}

/// `illegal FSTRING param `{param}`: resolved byte ${value:02X} is < $80 (...)`.
pub open spec fn msg_illegal_param(param: Seq<char>, value: u8) -> Seq<char> {
    "illegal FSTRING param `"@ + param + "`: resolved byte $"@ + seq![
        digit_char(value as nat / 16),
        digit_char(value as nat % 16),
    ] + " is < $80 (expected hex, dec, bin, sym, str or their derivatives)"@
}

/// `unterminated `%<` token in FSTRING: `{s}``.
pub open spec fn msg_unterminated(s: Seq<char>) -> Seq<char> {
    "unterminated `%<` token in FSTRING: `"@ + s + "`"@
}

/// `non-ASCII character `{c}` in FSTRING literal text`.
pub open spec fn msg_non_ascii(c: char) -> Seq<char> {
    "non-ASCII character `"@ + seq![c] + "` in FSTRING literal text"@
}

/// `unknown FSTRING argument type `.{rest}` (expected .b/.w/.l)`.
pub open spec fn msg_bad_arg_type(rest: Seq<char>) -> Seq<char> {
    "unknown FSTRING argument type `."@ + rest + "` (expected .b/.w/.l)"@
}

/// `FSTRING argument token `%<.{w}...>` has no operand`.
pub open spec fn msg_no_operand(w: Width) -> Seq<char> {
    "FSTRING argument token `%<."@ + seq![width_letter(w)] + "...>` has no operand"@
}

/// `FSTRING control token `%<{name}>` requires a numeric argument`.
pub open spec fn msg_needs_number(name: Seq<char>) -> Seq<char> {
    "FSTRING control token `%<"@ + name + ">` requires a numeric argument"@
}

/// `FSTRING control token `%<{name} {arg}>`: `{arg}` is not a number`.
pub open spec fn msg_not_number(name: Seq<char>, arg: Seq<char>) -> Seq<char> {
    "FSTRING control token `%<"@ + name + " "@ + arg + ">`: `"@ + arg + "` is not a number"@
}

/// `FSTRING control token `%<{name} {arg}>`: value {n} does not fit one byte (0..=255)`.
pub open spec fn msg_too_big(name: Seq<char>, arg: Seq<char>, n: nat) -> Seq<char> {
    "FSTRING control token `%<"@ + name + " "@ + arg + ">`: value "@ + dec_digits(n)
        + " does not fit one byte (0..=255)"@
}

/// `unknown FSTRING token `%<{inner}>` (...)`.
pub open spec fn msg_unknown_token(inner: Seq<char>) -> Seq<char> {
    "unknown FSTRING token `%<"@ + inner
        + ">` (expected endl, cr, pal0..3, setw/setoff/setpat/setx N, or .b/.w/.l operand [param])"@
}

// ---------------------------------------------------------------------------
// Numbers and params.
// ---------------------------------------------------------------------------

/// A small numeric literal in the AS spellings a control param may use:
/// `$hex`, `0xhex`/`0Xhex`, `%bin`, or decimal (surrounding whitespace
/// ignored), when it fits a `u64`.
pub open spec fn parse_num_spec(s: Seq<char>) -> Option<nat> {
    let t = trim(s);
    if t.len() >= 1 && t[0] == '$' {
        parse_radix(t.drop_first(), 16, u64::MAX as nat)
    } else if t.len() >= 2 && t[0] == '0' && (t[1] == 'x' || t[1] == 'X') {
        parse_radix(t.subrange(2, t.len() as int), 16, u64::MAX as nat)
    } else if t.len() >= 1 && t[0] == '%' {
        parse_radix(t.drop_first(), 2, u64::MAX as nat)
    } else {
        parse_radix(t, 10, u64::MAX as nat)
    }
}

fn parse_num_range(cs: &Vec<char>, a: usize, b: usize) -> (r: Option<u64>)
    requires
        a <= b <= cs@.len(),
    ensures
        match parse_num_spec(cs@.subrange(a as int, b as int)) {
            Some(n) => r == Some(n as u64),
            None => r is None,
        },
{
    let (lo, hi) = trim_range(cs, a, b);
    let ghost t = cs@.subrange(lo as int, hi as int);
    if hi - lo >= 1 && cs[lo] == '$' {
        assert(t.drop_first() =~= cs@.subrange(lo + 1, hi as int));
        parse_radix_range(cs, lo + 1, hi, 16, u64::MAX)
    } else if hi - lo >= 2 && cs[lo] == '0' && (cs[lo + 1] == 'x' || cs[lo + 1] == 'X') {
        assert(t.subrange(2, t.len() as int) =~= cs@.subrange(lo + 2, hi as int));
        parse_radix_range(cs, lo + 2, hi, 16, u64::MAX)
    } else if hi - lo >= 1 && cs[lo] == '%' {
        assert(t.drop_first() =~= cs@.subrange(lo + 1, hi as int));
        parse_radix_range(cs, lo + 1, hi, 2, u64::MAX)
    } else {
        parse_radix_range(cs, lo, hi, 10, u64::MAX)
    }
}

/// Parse a small numeric literal in AS spellings a control param may use:
/// `$hex`, `0xhex`, `%bin`, or decimal.
pub fn parse_num(s: &str) -> (r: Option<u64>)
    ensures
        match parse_num_spec(s@) {
            Some(n) => r == Some(n as u64),
            None => r is None,
        },
{
    let cs = chars_of(s);
    assert(cs@.subrange(0, cs@.len() as int) =~= s@);
    parse_num_range(&cs, 0, cs.len())
}

/// `str::split('+')`.
#[verifier::opaque]
pub open spec fn split_plus(t: Seq<char>) -> Seq<Seq<char>>
    decreases t.len(),
{
    match first_of(t, '+') {
        Some(k) => if 0 <= k < t.len() {
            seq![t.subrange(0, k)] + split_plus(t.subrange(k + 1, t.len() as int))
        } else {
            seq![t]
        },
        None => seq![t],
    }
}

/// OR together the bits of `+`-joined terms (each trimmed), left to right;
/// the first unknown term is the error.
pub open spec fn resolve_terms(terms: Seq<Seq<char>>) -> Result<u8, Seq<char>>
    decreases terms.len(),
{
    if terms.len() == 0 {
        Ok(0u8)
    } else {
        match resolve_terms(terms.drop_last()) {
            Err(e) => Err(e),
            Ok(v) => match param_term_bits(trim(terms.last())) {
                Some(b) => Ok(v | b),
                None => Err(trim(terms.last())),
            },
        }
    }
}

/// Resolve a param spelling (`hex`, `signed`, `sym+split`, `dec+signed`) to
/// its byte value: empty → `hex`, bare `signed` → `hex+signed`, then the OR
/// of the `+`-joined terms, which must come to at least `$80`.
#[verifier::opaque]
pub open spec fn resolve_param_spec(param: Seq<char>) -> Result<u8, Seq<char>> {
    let p = trim(param);
    let normalized = if p.len() == 0 {
        seq!['h', 'e', 'x']
    } else if p == seq!['s', 'i', 'g', 'n', 'e', 'd'] {
        seq!['h', 'e', 'x', '+', 's', 'i', 'g', 'n', 'e', 'd']
    } else {
        p
    };
    match resolve_terms(split_plus(normalized)) {
        Err(term) => Err(msg_unknown_param(term)),
        Ok(v) => if v < 0x80 {
            Err(msg_illegal_param(p, v))
        } else {
            Ok(v)
        },
    }
}

proof fn lemma_first_of_at(t: Seq<char>, c: char, k: int)
    requires
        0 <= k < t.len(),
        t[k] == c,
        forall|j: int| 0 <= j < k ==> t[j] != c,
    ensures
        first_of(t, c) == Some(k),
{
    reveal(first_of);
    let w = choose|w: int| 0 <= w < t.len() && t[w] == c && forall|j: int| 0 <= j < w ==> t[j] != c;
    assert(0 <= w < t.len() && t[w] == c && forall|j: int| 0 <= j < w ==> t[j] != c);
    if w > k {
        assert(t[k] != c);
    }
}

proof fn lemma_first_of_none(t: Seq<char>, c: char)
    requires
        forall|j: int| 0 <= j < t.len() ==> t[j] != c,
    ensures
        first_of(t, c) is None,
{
    reveal(first_of);
}

proof fn lemma_resolve_terms_err(a: Seq<Seq<char>>, b: Seq<Seq<char>>)
    requires
        resolve_terms(a) is Err,
    ensures
        resolve_terms(a + b) == resolve_terms(a),
    decreases b.len(),
{
    if b.len() == 0 {
        assert(a + b =~= a);
    } else {
        lemma_resolve_terms_err(a, b.drop_last());
        assert((a + b).drop_last() =~= a + b.drop_last());
    }
}

proof fn lemma_trim_plain(t: Seq<char>)
    requires
        forall|j: int| 0 <= j < t.len() ==> !is_ws(t[j]),
    ensures
        trim(t) == t,
{
    if t.len() > 0 {
        assert(!is_ws(t[0]));
        assert(!is_ws(t.last()));
    }
}

proof fn lemma_single_term(t: Seq<char>)
    requires
        forall|j: int| 0 <= j < t.len() ==> t[j] != '+' && !is_ws(t[j]),
    ensures
        split_plus(t) == seq![t],
        resolve_terms(seq![t]) == match param_term_bits(t) {
            Some(b) => Ok::<u8, Seq<char>>(0u8 | b),
            None => Err(t),
        },
{
    lemma_split_step(t, None);
    lemma_trim_plain(t);
    let one = seq![t];
    assert(one.drop_last() =~= Seq::<Seq<char>>::empty());
    assert(resolve_terms(one.drop_last()) == Ok::<u8, Seq<char>>(0u8));
    assert(one.last() == t);
    assert(trim(one.last()) == t);
}

proof fn lemma_normalized_constants()
    ensures
        resolve_terms(split_plus(seq!['h', 'e', 'x'])) == Ok::<u8, Seq<char>>(0x80u8),
        resolve_terms(split_plus(seq!['h', 'e', 'x', '+', 's', 'i', 'g', 'n', 'e', 'd']))
            == Ok::<u8, Seq<char>>(0x88u8),
{
    let hex = seq!['h', 'e', 'x'];
    let signed = seq!['s', 'i', 'g', 'n', 'e', 'd'];
    let both = seq!['h', 'e', 'x', '+', 's', 'i', 'g', 'n', 'e', 'd'];
    assert(param_base(hex) == Some(0x80u8));
    assert(param_term_bits(hex) == Some(0x80u8));
    lemma_single_term(hex);
    assert(0u8 | 0x80u8 == 0x80u8) by (bit_vector);
    assert(resolve_terms(seq![hex]) == Ok::<u8, Seq<char>>(0x80u8));
    lemma_split_step(both, Some(3));
    assert(both.subrange(0, 3) =~= hex);
    assert(both.subrange(4, 10) =~= signed);
    lemma_single_term(signed);
    assert(split_plus(both) =~= seq![hex, signed]);
    lemma_trim_plain(signed);
    assert(seq![hex, signed].drop_last() =~= seq![hex]);
    assert(seq![hex, signed].last() == signed);
    assert(param_base(signed) is None);
    assert(param_term_bits(signed) == Some(8u8));
    assert(0x80u8 | 8u8 == 0x88u8) by (bit_vector);
}

/// One step of splitting `rest` at its first `+` (or not at all).
proof fn lemma_split_step(rest: Seq<char>, k: Option<int>)
    requires
        match k {
            Some(k) => 0 <= k < rest.len() && rest[k] == '+' && forall|j: int|
                0 <= j < k ==> rest[j] != '+',
            None => forall|j: int| 0 <= j < rest.len() ==> rest[j] != '+',
        },
    ensures
        match k {
            Some(k) => split_plus(rest) == seq![rest.subrange(0, k)] + split_plus(
                rest.subrange(k + 1, rest.len() as int),
            ),
            None => split_plus(rest) == seq![rest],
        },
{
    reveal(split_plus);
    match k {
        Some(k) => lemma_first_of_at(rest, '+', k),
        None => lemma_first_of_none(rest, '+'),
    }
}

/// One term of `p = whole[lo..hi]`: the text from `seg` up to the next `+`
/// (at `end`, or the end of `p`) joins the terms already split off.
proof fn lemma_term_step(
    whole: Seq<char>,
    lo: int,
    seg: int,
    hi: int,
    end: int,
    done: Seq<Seq<char>>,
    found: bool,
)
    requires
        0 <= lo <= seg <= end <= hi <= whole.len(),
        split_plus(whole.subrange(lo, hi)) == done + split_plus(whole.subrange(seg, hi)),
        forall|j: int| seg <= j < end ==> whole[j] != '+',
        found ==> end < hi && whole[end] == '+',
        !found ==> end == hi,
    ensures
        ({
            let term = whole.subrange(seg, end);
            let more = if found {
                split_plus(whole.subrange(end + 1, hi))
            } else {
                Seq::empty()
            };
            &&& split_plus(whole.subrange(lo, hi)) == done.push(term) + more
            &&& done.push(term).drop_last() == done
            &&& done.push(term).last() == term
        }),
{
    let rest = whole.subrange(seg, hi);
    let term = whole.subrange(seg, end);
    assert forall|j: int| 0 <= j < end - seg implies rest[j] != '+' by {
        assert(rest[j] == whole[seg + j]);
    }
    if found {
        let tail = whole.subrange(end + 1, hi);
        assert(rest[end - seg] == whole[end]);
        lemma_split_step(rest, Some(end - seg));
        assert(rest.subrange(0, end - seg) =~= term);
        assert(rest.subrange(end - seg + 1, rest.len() as int) =~= tail);
        assert(split_plus(rest) == seq![term] + split_plus(tail));
        assert(done + (seq![term] + split_plus(tail)) =~= done.push(term) + split_plus(tail));
    } else {
        lemma_split_step(rest, None);
        assert(term =~= rest);
        assert(done + seq![term] =~= done.push(term) + Seq::<Seq<char>>::empty());
    }
    assert(done.push(term).drop_last() =~= done);
}

/// Build `prefix + middle + suffix` as a `String`.
fn message3(prefix: &str, middle: &str, suffix: &str) -> (m: String)
    ensures
        m@ == prefix@ + middle@ + suffix@,
{
    let mut m = String::from_str(prefix);
    m.append(middle);
    m.append(suffix);
    m
}

#[verifier::rlimit(30)]
fn resolve_param_range(s: &str, cs: &Vec<char>, a: usize, b: usize) -> (r: Result<u8, String>)
    requires
        cs@ == s@,
        a <= b <= cs@.len(),
    ensures
        match resolve_param_spec(cs@.subrange(a as int, b as int)) {
            Ok(v) => r == Ok::<u8, String>(v),
            Err(m) => r matches Err(e) && e@ == m,
        },
{
    reveal(resolve_param_spec);
    let (lo, hi) = trim_range(cs, a, b);
    let ghost p = cs@.subrange(lo as int, hi as int);
    proof {
        lemma_normalized_constants();
    }
    if lo == hi {
        assert(p.len() == 0);
        return Ok(0x80);
    }
    if range_eq(cs, lo, hi, &['s', 'i', 'g', 'n', 'e', 'd']) {
        return Ok(0x88);
    }
    let mut value: u8 = 0;
    let mut seg = lo;
    let ghost mut done: Seq<Seq<char>> = Seq::empty();
    assert(done + split_plus(cs@.subrange(seg as int, hi as int)) =~= split_plus(p));
    loop
        invariant_except_break
            lo <= seg <= hi,
            split_plus(p) == done + split_plus(cs@.subrange(seg as int, hi as int)),
            resolve_terms(done) == Ok::<u8, Seq<char>>(value),
        invariant
            cs@ == s@,
            hi <= cs@.len(),
            p == cs@.subrange(lo as int, hi as int),
            trim(cs@.subrange(a as int, b as int)) == p,
            p.len() > 0,
            p != seq!['s', 'i', 'g', 'n', 'e', 'd'],
        ensures
            resolve_terms(split_plus(p)) == Ok::<u8, Seq<char>>(value),
        decreases hi - seg,
    {
        let found = find_char(cs, seg, hi, '+');
        let end = match found {
            Some(k) => k,
            None => hi,
        };
        let ghost term = cs@.subrange(seg as int, end as int);
        let ghost more: Seq<Seq<char>> = match found {
            Some(k) => split_plus(cs@.subrange(k + 1, hi as int)),
            None => Seq::empty(),
        };
        proof {
            lemma_term_step(cs@, lo as int, seg as int, hi as int, end as int, done, found is Some);
        }
        let (tlo, thi) = trim_range(cs, seg, end);
        match param_term_bits_range(cs, tlo, thi) {
            Some(bits) => {
                value = value | bits;
                proof {
                    done = done.push(term);
                }
            },
            None => {
                proof {
                    reveal(resolve_param_spec);
                    assert(trim(term) == cs@.subrange(tlo as int, thi as int));
                    assert(resolve_terms(done.push(term)) == Err::<u8, Seq<char>>(trim(term)));
                    lemma_resolve_terms_err(done.push(term), more);
                    assert(p.len() > 0);
                    assert(p != seq!['s', 'i', 'g', 'n', 'e', 'd']);
                }
                return Err(
                    message3(
                        "unknown FSTRING param `",
                        s.substring_char(tlo, thi),
                        "` (expected hex, dec, bin, sym, symdisp, str, or a flag: signed, split, forced, weak)",
                    ),
                );
            },
        }
        match found {
            Some(k) => {
                seg = k + 1;
            },
            None => {
                assert(done + more =~= done);
                break ;
            },
        }
    }
    if value < 0x80 {
        let mut m = String::from_str("illegal FSTRING param `");
        m.append(s.substring_char(lo, hi));
        m.append("`: resolved byte $");
        push_hex2(&mut m, value);
        m.append(" is < $80 (expected hex, dec, bin, sym, str or their derivatives)");
        return Err(m);
    }
    Ok(value)
}

/// Resolve a param spelling (e.g. `hex`, `signed`, `sym+split`,
/// `dec+signed`) to its byte value: empty → `hex`, bare `signed` →
/// `hex+signed`, then the OR over the `+`-joined terms. Enforces the macro's
/// own `< $80` check.
pub fn resolve_param(param: &str) -> (r: Result<u8, String>)
    ensures
        match resolve_param_spec(param@) {
            Ok(v) => r == Ok::<u8, String>(v),
            Err(m) => r matches Err(e) && e@ == m,
        },
{
    let cs = chars_of(param);
    assert(cs@.subrange(0, cs@.len() as int) =~= param@);
    resolve_param_range(param, &cs, 0, cs.len())
}


// ---------------------------------------------------------------------------
// Tokens and format strings.
// ---------------------------------------------------------------------------

/// The width an argument token's type letter names.
pub open spec fn arg_width(rest: Seq<char>) -> Option<Width> {
    if rest.len() > 0 && rest[0] == 'b' {
        Some(Width::B)
    } else if rest.len() > 0 && rest[0] == 'w' {
        Some(Width::W)
    } else if rest.len() > 0 && rest[0] == 'l' {
        Some(Width::L)
    } else {
        None
    }
}

/// An argument token `.b|.w|.l operand [param]`, given the text after the
/// dot: one descriptor byte (`param | width_bits`) and the recorded argument,
/// whose param spelling defaults to `hex`.
#[verifier::opaque]
pub open spec fn arg_token_spec(rest: Seq<char>) -> EncodeResult {
    match arg_width(rest) {
        None => Err(msg_bad_arg_type(rest)),
        Some(w) => {
            let r = trim(rest.drop_first());
            let operand = trim(split_ws(r).0);
            let spelling = match split_ws(r).1 {
                Some(x) => trim(x),
                None => Seq::empty(),
            };
            if operand.len() == 0 {
                Err(msg_no_operand(w))
            } else {
                match resolve_param_spec(spelling) {
                    Err(m) => Err(m),
                    Ok(pb) => Ok(
                        (
                            seq![pb | width_bits(w)],
                            seq![
                                (
                                    w,
                                    operand,
                                    if spelling.len() == 0 {
                                        seq!['h', 'e', 'x']
                                    } else {
                                        spelling
                                    },
                                ),
                            ],
                        ),
                    ),
                }
            }
        },
    }
}

/// A parametrized control token `name N`: the control byte and the low byte
/// of `N`, which must be a number that fits one byte.
#[verifier::opaque]
pub open spec fn control_token_spec(t: Seq<char>) -> EncodeResult {
    let name = trim(split_ws(t).0);
    match param_control(name) {
        None => Err(msg_unknown_token(t)),
        Some(b) => {
            let arg = match split_ws(t).1 {
                Some(x) => trim(x),
                None => Seq::empty(),
            };
            if arg.len() == 0 {
                Err(msg_needs_number(name))
            } else {
                match parse_num_spec(arg) {
                    None => Err(msg_not_number(name, arg)),
                    Some(n) => if n > 255 {
                        Err(msg_too_big(name, arg, n))
                    } else {
                        Ok((seq![b, n as u8], Seq::empty()))
                    },
                }
            }
        },
    }
}

/// The encoding of one `%<...>` token's inner text.
#[verifier::opaque]
pub open spec fn token_spec(inner: Seq<char>) -> EncodeResult {
    let t = trim(inner);
    if t.len() > 0 && t[0] == '.' {
        arg_token_spec(t.drop_first())
    } else {
        match plain_control(t) {
            Some(b) => Ok((seq![b], Seq::empty())),
            None => control_token_spec(t),
        }
    }
}

/// `r` with `b`/`a` put in front of its bytes/arguments.
pub open spec fn prefixed(b: Seq<u8>, a: Seq<ArgModel>, r: EncodeResult) -> EncodeResult {
    match r {
        Ok((b2, a2)) => Ok((b + b2, a + a2)),
        Err(m) => Err(m),
    }
}

/// The encoding of `s` from position `i` on: literal ASCII characters are
/// copied, `%<...>` tokens are encoded, and a `$00` terminator ends the run.
/// The first error met, left to right, is the result.
#[verifier::opaque]
pub open spec fn encode_from(s: Seq<char>, i: int) -> EncodeResult
    decreases s.len() - i,
{
    if i < 0 || i >= s.len() {
        Ok((seq![0u8], Seq::empty()))
    } else if s[i] == '%' && i + 1 < s.len() && s[i + 1] == '<' {
        match first_of(s.subrange(i + 2, s.len() as int), '>') {
            None => Err(msg_unterminated(s)),
            Some(k) => if 0 <= k && i + 2 + k < s.len() {
                match token_spec(s.subrange(i + 2, i + 2 + k)) {
                    Err(m) => Err(m),
                    Ok((b, a)) => prefixed(b, a, encode_from(s, i + 3 + k)),
                }
            } else {
                Err(msg_unterminated(s))
            },
        }
    } else if (s[i] as u32) > 0x7f {
        Err(msg_non_ascii(s[i]))
    } else {
        prefixed(seq![(s[i] as u32) as u8], Seq::empty(), encode_from(s, i + 1))
    }
}

/// The encoding of a whole format string.
pub open spec fn encode_spec(s: Seq<char>) -> EncodeResult {
    encode_from(s, 0)
}

proof fn lemma_prefixed_assoc(
    b1: Seq<u8>,
    a1: Seq<ArgModel>,
    b2: Seq<u8>,
    a2: Seq<ArgModel>,
    r: EncodeResult,
)
    ensures
        prefixed(b1, a1, prefixed(b2, a2, r)) == prefixed(b1 + b2, a1 + a2, r),
{
    match r {
        Ok((b3, a3)) => {
            assert(b1 + (b2 + b3) =~= (b1 + b2) + b3);
            assert(a1 + (a2 + a3) =~= (a1 + a2) + a3);
        },
        Err(_) => {},
    }
}

/// The split of `cs[lo..hi]` at its first whitespace character.
fn split_ws_range(cs: &Vec<char>, lo: usize, hi: usize) -> (r: (usize, Option<usize>))
    requires
        lo <= hi <= cs@.len(),
    ensures
        lo <= r.0 <= hi,
        split_ws(cs@.subrange(lo as int, hi as int)).0 == cs@.subrange(lo as int, r.0 as int),
        match r.1 {
            Some(x) => r.0 < x == r.0 + 1 <= hi && split_ws(cs@.subrange(lo as int, hi as int)).1
                == Some(cs@.subrange(x as int, hi as int)),
            None => r.0 == hi && split_ws(cs@.subrange(lo as int, hi as int)).1 is None,
        },
{
    let ghost t = cs@.subrange(lo as int, hi as int);
    match find_ws(cs, lo, hi) {
        Some(k) => {
            assert(t.subrange(0, k - lo) =~= cs@.subrange(lo as int, k as int));
            assert(t.subrange(k - lo + 1, t.len() as int) =~= cs@.subrange(k + 1, hi as int));
            (k, Some(k + 1))
        },
        None => {
            assert(t =~= cs@.subrange(lo as int, hi as int));
            (hi, None)
        },
    }
}

/// Encode an argument token whose text after the dot is `cs[ra..hi]`.
#[verifier::rlimit(40)]
fn encode_arg_token(
    s: &str,
    cs: &Vec<char>,
    ra: usize,
    hi: usize,
    bytes: &mut Vec<u8>,
    args: &mut Vec<FStringArg>,
) -> (r: Result<(), String>)
    requires
        cs@ == s@,
        ra <= hi <= cs@.len(),
    ensures
        match arg_token_spec(cs@.subrange(ra as int, hi as int)) {
            Ok((b, a)) => r is Ok && final(bytes)@ == old(bytes)@ + b && args_view(final(args)@)
                == args_view(old(args)@) + a,
            Err(m) => r matches Err(e) && e@ == m && final(bytes)@ == old(bytes)@ && final(args)@ == old(args)@,
        },
{
    reveal(arg_token_spec);
    let ghost rest = cs@.subrange(ra as int, hi as int);
    let w = if ra < hi && cs[ra] == 'b' {
        Width::B
    } else if ra < hi && cs[ra] == 'w' {
        Width::W
    } else if ra < hi && cs[ra] == 'l' {
        Width::L
    } else {
        return Err(
            message3(
                "unknown FSTRING argument type `.",
                s.substring_char(ra, hi),
                "` (expected .b/.w/.l)",
            ),
        );
    };
    assert(arg_width(rest) == Some(w));
    assert(rest.drop_first() =~= cs@.subrange(ra + 1, hi as int));
    let (rlo, rhi) = trim_range(cs, ra + 1, hi);
    let (fend, second) = split_ws_range(cs, rlo, rhi);
    let (olo, ohi) = trim_range(cs, rlo, fend);
    if olo == ohi {
        return Err(message3("FSTRING argument token `%<.", w.suffix(), "...>` has no operand"));
    }
    let (plo, phi) = match second {
        Some(x) => trim_range(cs, x, rhi),
        None => (rhi, rhi),
    };
    let ghost spelling = cs@.subrange(plo as int, phi as int);
    assert(spelling == match split_ws(cs@.subrange(rlo as int, rhi as int)).1 {
        Some(x) => trim(x),
        None => Seq::<char>::empty(),
    });
    let pb = match resolve_param_range(s, cs, plo, phi) {
        Ok(v) => v,
        Err(e) => {
            return Err(e);
        },
    };
    bytes.push(pb | w.bits());
    let param = if plo == phi {
        proof {
            reveal_strlit("hex");
        }
        String::from_str("hex")
    } else {
        String::from_str(s.substring_char(plo, phi))
    };
    let arg = FStringArg { width: w, operand_spelling: String::from_str(s.substring_char(olo, ohi)), param };
    let ghost before = old(args)@;
    args.push(arg);
    assert(args_view(args@) =~= args_view(before) + seq![arg@]);
    assert(param@ == if spelling.len() == 0 {
        seq!['h', 'e', 'x']
    } else {
        spelling
    });
    Ok(())
}

/// Encode a parametrized control token `cs[lo..hi]` (already trimmed).
#[verifier::rlimit(40)]
fn encode_control_token(s: &str, cs: &Vec<char>, lo: usize, hi: usize, bytes: &mut Vec<u8>) -> (r:
    Result<(), String>)
    requires
        cs@ == s@,
        lo <= hi <= cs@.len(),
    ensures
        match control_token_spec(cs@.subrange(lo as int, hi as int)) {
            Ok((b, a)) => r is Ok && final(bytes)@ == old(bytes)@ + b && a.len() == 0,
            Err(m) => r matches Err(e) && e@ == m && final(bytes)@ == old(bytes)@,
        },
{
    reveal(control_token_spec);
    let (fend, second) = split_ws_range(cs, lo, hi);
    let (nlo, nhi) = trim_range(cs, lo, fend);
    let b = match param_control_range(cs, nlo, nhi) {
        Some(b) => b,
        None => {
            return Err(
                message3(
                    "unknown FSTRING token `%<",
                    s.substring_char(lo, hi),
                    ">` (expected endl, cr, pal0..3, setw/setoff/setpat/setx N, or .b/.w/.l operand [param])",
                ),
            );
        },
    };
    let (alo, ahi) = match second {
        Some(x) => trim_range(cs, x, hi),
        None => (hi, hi),
    };
    let ghost arg = cs@.subrange(alo as int, ahi as int);
    assert(arg == match split_ws(cs@.subrange(lo as int, hi as int)).1 {
        Some(x) => trim(x),
        None => Seq::<char>::empty(),
    });
    let name = s.substring_char(nlo, nhi);
    if alo == ahi {
        return Err(message3("FSTRING control token `%<", name, ">` requires a numeric argument"));
    }
    let arg_text = s.substring_char(alo, ahi);
    match parse_num_range(cs, alo, ahi) {
        None => {
            let mut m = String::from_str("FSTRING control token `%<");
            m.append(name);
            m.append(" ");
            m.append(arg_text);
            m.append(">`: `");
            m.append(arg_text);
            m.append("` is not a number");
            Err(m)
        },
        Some(n) => {
            if n > 0xFF {
                let mut m = String::from_str("FSTRING control token `%<");
                m.append(name);
                m.append(" ");
                m.append(arg_text);
                m.append(">`: value ");
                push_decimal(&mut m, n);
                m.append(" does not fit one byte (0..=255)");
                Err(m)
            } else {
                bytes.push(b);
                bytes.push(n as u8);
                Ok(())
            }
        },
    }
}

/// Encode the single `%<...>` token whose inner text is `cs[a..b]`.
fn encode_token(
    s: &str,
    cs: &Vec<char>,
    a: usize,
    b: usize,
    bytes: &mut Vec<u8>,
    args: &mut Vec<FStringArg>,
) -> (r: Result<(), String>)
    requires
        cs@ == s@,
        a <= b <= cs@.len(),
    ensures
        match token_spec(cs@.subrange(a as int, b as int)) {
            Ok((tb, ta)) => r is Ok && final(bytes)@ == old(bytes)@ + tb && args_view(final(args)@)
                == args_view(old(args)@) + ta,
            Err(m) => r matches Err(e) && e@ == m && final(bytes)@ == old(bytes)@ && final(args)@ == old(args)@,
        },
{
    reveal(token_spec);
    let (lo, hi) = trim_range(cs, a, b);
    let ghost t = cs@.subrange(lo as int, hi as int);
    if lo < hi && cs[lo] == '.' {
        assert(t.drop_first() =~= cs@.subrange(lo + 1, hi as int));
        return encode_arg_token(s, cs, lo + 1, hi, bytes, args);
    }
    match plain_control_range(cs, lo, hi) {
        Some(byte) => {
            bytes.push(byte);
            assert(args_view(args@) =~= args_view(old(args)@) + Seq::<ArgModel>::empty());
            Ok(())
        },
        None => {
            let r = encode_control_token(s, cs, lo, hi, bytes);
            assert(args_view(args@) =~= args_view(old(args)@) + Seq::<ArgModel>::empty());
            r
        },
    }
}

/// Encode a format string into its inline-message byte run.
///
/// Tokens:
///   * literal text → its ASCII bytes;
///   * `%<endl|cr|pal0..3>` → one control byte;
///   * `%<setw N | setoff N | setpat N | setx N>` → control byte + one param
///     byte (the numeric argument, which must fit one byte);
///   * `%<.b|.w|.l operand [param]>` → one descriptor byte (`param_base |
///     width_bits`), with the argument recorded in [`EncodedFString::args`];
///     `param` defaults to `hex`.
///
/// A trailing `$00` terminator is always appended.
#[verifier::spinoff_prover]
pub fn encode_fstring(s: &str) -> (r: Result<EncodedFString, String>)
    ensures
        match encode_spec(s@) {
            Ok((b, a)) => r matches Ok(e) && e.bytes@ == b && args_view(e.args@) == a,
            Err(m) => r matches Err(e) && e@ == m,
        },
{
    let cs = chars_of(s);
    let mut bytes: Vec<u8> = Vec::new();
    let mut args: Vec<FStringArg> = Vec::new();
    let mut i: usize = 0;
    assert(args_view(args@) =~= Seq::<ArgModel>::empty());
    assert(bytes@ =~= Seq::<u8>::empty());
    proof {
        match encode_from(cs@, 0) {
            Ok((b, a)) => {
                assert(Seq::<u8>::empty() + b =~= b);
                assert(Seq::<ArgModel>::empty() + a =~= a);
            },
            Err(_) => {},
        }
    }
    while i < cs.len()
        invariant
            cs@ == s@,
            i <= cs@.len(),
            encode_spec(s@) == prefixed(bytes@, args_view(args@), encode_from(cs@, i as int)),
        decreases cs@.len() - i,
    {
        reveal(encode_from);
        if cs[i] == '%' && i + 1 < cs.len() && cs[i + 1] == '<' {
            let start = i + 2;
            let ghost tail = cs@.subrange(start as int, cs@.len() as int);
            match find_char(&cs, start, cs.len(), '>') {
                None => {
                    return Err(message3("unterminated `%<` token in FSTRING: `", s, "`"));
                },
                Some(end) => {
                    let ghost bytes0 = bytes@;
                    let ghost args0 = args_view(args@);
                    match encode_token(s, &cs, start, end, &mut bytes, &mut args) {
                        Ok(()) => {},
                        Err(e) => {
                            return Err(e);
                        },
                    }
                    proof {
                        assert(first_of(tail, '>') == Some(end - start));
                        match token_spec(cs@.subrange(start as int, end as int)) {
                            Ok((tb, ta)) => {
                                assert(encode_from(cs@, i as int) == prefixed(
                                    tb,
                                    ta,
                                    encode_from(cs@, end + 1),
                                ));
                                lemma_prefixed_assoc(
                                    bytes0,
                                    args0,
                                    tb,
                                    ta,
                                    encode_from(cs@, end + 1),
                                );
                            },
                            Err(_) => {},
                        }
                    }
                    i = end + 1;
                    assert(encode_spec(s@) == prefixed(bytes@, args_view(args@), encode_from(cs@, i as int)));
                },
            }
        } else {
            let c = cs[i];
            if (c as u32) > 0x7f {
                let mut m = String::from_str("non-ASCII character `");
                m.append(s.substring_char(i, i + 1));
                m.append("` in FSTRING literal text");
                assert(s@.subrange(i as int, i + 1) =~= seq![c]);
                return Err(m);
            }
            let ghost bytes0 = bytes@;
            let ghost args0 = args_view(args@);
            bytes.push((c as u32) as u8);
            proof {
                lemma_prefixed_assoc(
                    bytes0,
                    args0,
                    seq![(c as u32) as u8],
                    Seq::empty(),
                    encode_from(cs@, i + 1),
                );
                assert(args0 + Seq::<ArgModel>::empty() =~= args0);
                assert(bytes@ =~= bytes0 + seq![(c as u32) as u8]);
                assert(encode_from(cs@, i as int) == prefixed(
                    seq![(c as u32) as u8],
                    Seq::empty(),
                    encode_from(cs@, i + 1),
                ));
            }
            i = i + 1;
            assert(encode_spec(s@) == prefixed(bytes@, args_view(args@), encode_from(cs@, i as int)));
        }
    }
    reveal(encode_from);
    let ghost bytes0 = bytes@;
    bytes.push(0x00);
    assert(bytes@ =~= bytes0 + seq![0u8]);
    assert(args_view(args@) + Seq::<ArgModel>::empty() =~= args_view(args@));
    Ok(EncodedFString { bytes, args })
}


// ---------------------------------------------------------------------------
// The `assert` auto-message and the exit flag.
// ---------------------------------------------------------------------------

/// The `assert` auto-message run over the operand spellings' bytes:
///
/// ```text
/// "Assertion failed:" $E0 $EC "> assert.<w> " $E8 "<src>," $EC "<cond>"
///     [$E8 ",<dest>"] $E0 $EA "Got: " <descriptor> $00
/// ```
///
/// `cond` is ASCII-lowercased, the other spellings are verbatim, and the
/// descriptor is `hex ($80) | width_bits`.
pub open spec fn assert_message_spec(w: Width, src: Seq<u8>, cond: Seq<u8>, dest: Option<Seq<u8>>) -> Seq<
    u8,
> {
    message_head(w) + src + message_cond(cond) + message_dest(dest) + message_tail(w)
}

/// `"Assertion failed:" $E0 $EC "> assert.<w> " $E8`.
pub open spec fn message_head(w: Width) -> Seq<u8> {
    "Assertion failed:".spec_bytes() + seq![0xE0u8, 0xECu8] + "> assert.".spec_bytes() + seq![
        (width_letter(w) as u32) as u8,
        0x20u8,
        0xE8u8,
    ]
}

/// `"," $EC "<cond>"`, the condition lowercased.
pub open spec fn message_cond(cond: Seq<u8>) -> Seq<u8> {
    seq![0x2Cu8, 0xECu8] + cond.map_values(|b: u8| lower_byte(b))
}

/// `$E8 ",<dest>"` in the cmp form; nothing in the tst form.
pub open spec fn message_dest(dest: Option<Seq<u8>>) -> Seq<u8> {
    match dest {
        Some(d) => seq![0xE8u8, 0x2Cu8] + d,
        None => Seq::empty(),
    }
}

/// `$E0 $EA "Got: " <descriptor> $00`.
pub open spec fn message_tail(w: Width) -> Seq<u8> {
    seq![0xE0u8, 0xEAu8] + "Got: ".spec_bytes() + seq![0x80u8 | width_bits(w), 0x00u8]
}

/// Build the `assert` auto-message byte run from source operand spellings.
/// `cond` is lowercased; operand spellings are verbatim. In the tst form
/// (`dest == None`) the `$E8 ",<dest>"` segment is omitted. The run includes
/// the `%<.<w> src>` descriptor byte (`hex | width_bits`) and the `$00`
/// terminator, but NOT the exit-flag byte (see [`exit_flag_bytes`]).
#[verifier::spinoff_prover]
#[verifier::rlimit(30)]
pub fn assert_message(w: Width, src: &str, cond: &str, dest: Option<&str>) -> (out: Vec<u8>)
    ensures
        out@ == assert_message_spec(
            w,
            src.spec_bytes(),
            cond.spec_bytes(),
            match dest {
                Some(d) => Some(d.spec_bytes()),
                None => None,
            },
        ),
{
    let mut out: Vec<u8> = Vec::new();
    push_bytes(&mut out, "Assertion failed:".as_bytes());
    out.push(0xE0);
    out.push(0xEC);
    push_bytes(&mut out, "> assert.".as_bytes());
    let letter: u8 = match w {
        Width::B => 0x62,
        Width::W => 0x77,
        Width::L => 0x6C,
    };
    assert(letter == (width_letter(w) as u32) as u8);
    out.push(letter);
    out.push(0x20);
    out.push(0xE8);
    assert(out@ =~= message_head(w));
    push_bytes(&mut out, src.as_bytes());
    let ghost with_src = out@;
    out.push(0x2C);
    out.push(0xEC);
    push_lowercased(&mut out, cond.as_bytes());
    assert(out@ =~= with_src + message_cond(cond.spec_bytes()));
    let ghost with_cond = out@;
    let ghost d: Option<Seq<u8>> = match dest {
        Some(d) => Some(d.spec_bytes()),
        None => None,
    };
    match dest {
        Some(dd) => {
            out.push(0xE8);
            out.push(0x2C);
            push_bytes(&mut out, dd.as_bytes());
        },
        None => {},
    }
    assert(out@ =~= with_cond + message_dest(d));
    let ghost with_dest = out@;
    out.push(0xE0);
    out.push(0xEA);
    push_bytes(&mut out, "Got: ".as_bytes());
    out.push(0x80 | w.bits());
    out.push(0x00);
    assert(out@ =~= with_dest + message_tail(w));
    out
}

/// The error-handler exit-flag byte(s) following the message run.
///
/// `_eh_return` is `$20`; the `_eh_align_offset` bit (`$80`) is OR'd in, and
/// one `$00` pad emitted so the following `jmp` is word-aligned, exactly when
/// the flag byte sits at an EVEN address. `pad` = "the flag byte lands at an
/// even offset → emit the aligned form".
pub fn exit_flag_bytes(pad: bool) -> (r: Vec<u8>)
    ensures
        r@ == if pad {
            seq![0xA0u8, 0x00u8]
        } else {
            seq![0x20u8]
        },
{
    if pad {
        assert(0x20u8 | 0x80u8 == 0xA0u8) by (bit_vector);
        vec![0x20 | 0x80, 0x00]
    } else {
        vec![0x20]
    }
}

/// A data/address register name: `d0`..`d7`, `a0`..`a7`, `sp`.
pub open spec fn register_name(t: Seq<char>) -> bool {
    ||| t == seq!['s', 'p']
    ||| t.len() == 2 && (t[0] == 'd' || t[0] == 'a') && '0' <= t[1] <= '7'
}

/// Whether `s` names a data/address register (`d0`..`d7`, `a0`..`a7`, `sp`).
pub fn is_register_name(s: &str) -> (r: bool)
    ensures
        r == register_name(s@),
{
    let cs = chars_of(s);
    if cs.len() != 2 {
        return false;
    }
    if cs[0] == 's' && cs[1] == 'p' {
        assert(cs@ =~= seq!['s', 'p']);
        return true;
    }
    (cs[0] == 'd' || cs[0] == 'a') && '0' <= cs[1] && cs[1] <= '7'
}


// ---------------------------------------------------------------------------
// Laws.
// ---------------------------------------------------------------------------

proof fn lemma_encode_from_ends_at_terminator(s: Seq<char>, i: int)
    ensures
        encode_from(s, i) matches Ok((b, a)) ==> b.len() >= 1 && b.last() == 0u8,
    decreases s.len() - i,
{
    reveal(encode_from);
    if i < 0 || i >= s.len() {
    } else if s[i] == '%' && i + 1 < s.len() && s[i + 1] == '<' {
        match first_of(s.subrange(i + 2, s.len() as int), '>') {
            None => {},
            Some(k) => if 0 <= k && i + 2 + k < s.len() {
                lemma_encode_from_ends_at_terminator(s, i + 3 + k);
                match token_spec(s.subrange(i + 2, i + 2 + k)) {
                    Err(_) => {},
                    Ok((b, a)) => match encode_from(s, i + 3 + k) {
                        Ok((b2, a2)) => {
                            assert((b + b2).last() == b2.last());
                        },
                        Err(_) => {},
                    },
                }
            },
        }
    } else if (s[i] as u32) > 0x7f {
    } else {
        lemma_encode_from_ends_at_terminator(s, i + 1);
        match encode_from(s, i + 1) {
            Ok((b2, a2)) => {
                assert((seq![(s[i] as u32) as u8] + b2).last() == b2.last());
            },
            Err(_) => {},
        }
    }
}

/// Every encoded run ends at its `$00` terminator: nothing (in particular no
/// exit-flag byte) follows it.
pub proof fn law_encoded_run_ends_at_terminator(s: Seq<char>)
    ensures
        encode_spec(s) matches Ok((b, a)) ==> b.len() >= 1 && b.last() == 0u8,
{
    lemma_encode_from_ends_at_terminator(s, 0);
}

/// The `assert` auto-message ends with the `%<.<w> src>` descriptor
/// (`hex | width_bits`) and the `$00` terminator.
pub proof fn law_assert_message_ends_with_descriptor(
    w: Width,
    src: Seq<u8>,
    cond: Seq<u8>,
    dest: Option<Seq<u8>>,
)
    ensures
        ({
            let m = assert_message_spec(w, src, cond, dest);
            &&& m.len() >= 2
            &&& m[m.len() - 1] == 0u8
            &&& m[m.len() - 2] == 0x80u8 | width_bits(w)
        }),
{
    let m = assert_message_spec(w, src, cond, dest);
    let t = message_tail(w);
    let pre = message_head(w) + src + message_cond(cond) + message_dest(dest);
    assert(m == pre + t);
    assert(t.len() >= 2);
    assert(m[m.len() - 1] == t[t.len() - 1]);
    assert(m[m.len() - 2] == t[t.len() - 2]);
}

/// The condition is spelled in lowercase whatever its case in the source:
/// two spellings that agree up to ASCII case give the same message.
pub proof fn law_assert_message_ignores_cond_case(
    w: Width,
    src: Seq<u8>,
    cond1: Seq<u8>,
    cond2: Seq<u8>,
    dest: Option<Seq<u8>>,
)
    requires
        cond1.map_values(|b: u8| lower_byte(b)) == cond2.map_values(|b: u8| lower_byte(b)),
    ensures
        assert_message_spec(w, src, cond1, dest) == assert_message_spec(w, src, cond2, dest),
{
}

/// The parsed pieces of one `assert` site, carried together into the
/// desugar: `dest = Some` is the compare form (`cmp.<w> dest, src`), `None`
/// the test form (`tst.<w> src`). Each operand travels with its verbatim
/// source spelling, for the auto-message.
#[derive(Debug)]
pub struct AssertParts {
    /// The operation width (`.b`/`.w`/`.l`).
    pub width: Width,
    /// The compared or tested source operand (a register).
    pub src: Operand,
    /// `src`'s verbatim source spelling.
    pub src_spelling: String,
    /// The condition code (one of the sixteen branch codes, lowercase).
    pub cond: String,
    /// The compare destination and its verbatim spelling; `None` is the test
    /// form.
    pub dest: Option<(Operand, String)>,
}


/// Lower-casing the condition before building an `assert` message changes
/// nothing: the message lower-cases it anyway.
pub proof fn law_condition_case_is_irrelevant(w: Width, src: Seq<u8>, cond: Seq<u8>, dest: Option<Seq<u8>>)
    ensures
        assert_message_spec(w, src, cond.map_values(|b: u8| lower_byte(b)), dest) == assert_message_spec(
            w,
            src,
            cond,
            dest,
        ),
{
    assert(cond.map_values(|b: u8| lower_byte(b)).map_values(|b: u8| lower_byte(b)) =~= cond.map_values(
        |b: u8| lower_byte(b),
    ));
}

/// The compare form of an `assert` message is the test form with the
/// `$E8 ",<dest>"` segment inserted right after the condition, that is after
/// the head, the source and the condition's two marker bytes and text.
pub proof fn law_dest_segment_follows_the_condition(w: Width, src: Seq<u8>, cond: Seq<u8>, dest: Seq<u8>)
    ensures
        ({
            let m0 = assert_message_spec(w, src, cond, None);
            let k = (message_head(w).len() + src.len() + 2 + cond.len()) as int;
            assert_message_spec(w, src, cond, Some(dest)) == m0.subrange(0, k) + seq![0xE8u8, 0x2Cu8] + dest
                + m0.subrange(k, m0.len() as int)
        }),
{
    let h = message_head(w) + src + message_cond(cond);
    let t = message_tail(w);
    let m0 = assert_message_spec(w, src, cond, None);
    assert(m0 =~= h + t);
    let k = (message_head(w).len() + src.len() + 2 + cond.len()) as int;
    assert(h.len() == k);
    assert(m0.subrange(0, k) =~= h);
    assert(m0.subrange(k, m0.len() as int) =~= t);
    assert(assert_message_spec(w, src, cond, Some(dest)) =~= h + (seq![0xE8u8, 0x2Cu8] + dest) + t);
}


proof fn lemma_min_occurrence(t: Seq<char>, c: char, m: int)
    requires
        0 <= m <= t.len(),
        exists|k: int| 0 <= k < m && t[k] == c,
    ensures
        exists|k: int| 0 <= k < t.len() && t[k] == c && forall|j: int| 0 <= j < k ==> t[j] != c,
    decreases m,
{
    if exists|k: int| 0 <= k < m - 1 && t[k] == c {
        lemma_min_occurrence(t, c, m - 1);
    } else {
        assert(t[m - 1] == c);
        assert(forall|j: int| 0 <= j < m - 1 ==> t[j] != c);
    }
}

proof fn lemma_first_of_props(t: Seq<char>, c: char)
    ensures
        first_of(t, c) matches Some(k) ==> 0 <= k < t.len() && t[k] == c && forall|j: int| 0 <= j < k ==> t[j] != c,
        (exists|k: int| 0 <= k < t.len() && t[k] == c) ==> first_of(t, c) is Some,
{
    reveal(first_of);
    if exists|k: int| 0 <= k < t.len() && t[k] == c {
        lemma_min_occurrence(t, c, t.len() as int);
    }
}

#[verifier::spinoff_prover]
proof fn lemma_first_of_prefix(x: Seq<char>, y: Seq<char>, c: char)
    requires
        first_of(x, c) is Some,
    ensures
        first_of(x + y, c) == first_of(x, c),
{
    lemma_first_of_props(x, c);
    let k = first_of(x, c)->Some_0;
    let xy = x + y;
    assert(xy[k] == c);
    lemma_first_of_props(xy, c);
    let j = first_of(xy, c)->Some_0;
    if j < k {
        assert(x[j] == xy[j]);
    } else if k < j {
        assert(xy[k] != c);
    }
}

proof fn lemma_prefixed_empty(r: EncodeResult)
    ensures
        prefixed(Seq::empty(), Seq::empty(), r) == r,
{
    match r {
        Ok((b, a)) => {
            assert(Seq::<u8>::empty() + b =~= b);
            assert(Seq::<ArgModel>::empty() + a =~= a);
        },
        Err(_) => {},
    }
}

proof fn lemma_encode_shift(a: Seq<char>, b: Seq<char>, j: int)
    requires
        0 <= j <= b.len(),
        encode_from(b, j) is Ok,
    ensures
        encode_from(a + b, a.len() + j) == encode_from(b, j),
    decreases b.len() - j,
{
    reveal(encode_from);
    let s = a + b;
    let i = a.len() + j;
    if j < b.len() {
        assert(s[i] == b[j]);
        if j + 1 < b.len() {
            assert(s[i + 1] == b[j + 1]);
        }
        if b[j] == '%' && j + 1 < b.len() && b[j + 1] == '<' {
            assert(s.subrange(i + 2, s.len() as int) =~= b.subrange(j + 2, b.len() as int));
            let k = first_of(b.subrange(j + 2, b.len() as int), '>')->Some_0;
            assert(s.subrange(i + 2, i + 2 + k) =~= b.subrange(j + 2, j + 2 + k));
            lemma_encode_shift(a, b, j + 3 + k);
        } else if (b[j] as u32) <= 0x7f {
            lemma_encode_shift(a, b, j + 1);
        }
    }
}

proof fn lemma_encode_prefix(a: Seq<char>, b: Seq<char>, i: int)
    requires
        0 <= i <= a.len(),
        encode_from(a, i) is Ok,
        a.len() == 0 || a.last() != '%',
    ensures
        ({
            let (ba, aa) = encode_from(a, i)->Ok_0;
            encode_from(a + b, i) == prefixed(ba.drop_last(), aa, encode_from(a + b, a.len() as int))
        }),
    decreases a.len() - i,
{
    reveal(encode_from);
    let s = a + b;
    if i == a.len() {
        assert(encode_from(a, i) == Ok::<(Seq<u8>, Seq<ArgModel>), Seq<char>>((seq![0u8], Seq::empty())));
        assert(seq![0u8].drop_last() =~= Seq::<u8>::empty());
        lemma_prefixed_empty(encode_from(s, a.len() as int));
    } else {
        assert(s[i] == a[i]);
        if i + 1 < a.len() {
            assert(s[i + 1] == a[i + 1]);
        }
        if a[i] == '%' && i + 1 < a.len() && a[i + 1] == '<' {
            let t = a.subrange(i + 2, a.len() as int);
            let k = first_of(t, '>')->Some_0;
            assert(s.subrange(i + 2, s.len() as int) =~= t + b);
            lemma_first_of_prefix(t, b, '>');
            assert(s.subrange(i + 2, i + 2 + k) =~= a.subrange(i + 2, i + 2 + k));
            let (tb, ta) = token_spec(a.subrange(i + 2, i + 2 + k))->Ok_0;
            lemma_encode_prefix(a, b, i + 3 + k);
            let (rb, ra) = encode_from(a, i + 3 + k)->Ok_0;
            lemma_encode_nonempty(a, i + 3 + k);
            lemma_prefixed_assoc(tb, ta, rb.drop_last(), ra, encode_from(s, a.len() as int));
            assert((tb + rb).drop_last() =~= tb + rb.drop_last());
        } else if a[i] == '%' && i + 1 == a.len() {
            assert(a.last() == '%');
        } else {
            let c = seq![(a[i] as u32) as u8];
            lemma_encode_prefix(a, b, i + 1);
            let (rb, ra) = encode_from(a, i + 1)->Ok_0;
            lemma_encode_nonempty(a, i + 1);
            lemma_prefixed_assoc(c, Seq::empty(), rb.drop_last(), ra, encode_from(s, a.len() as int));
            assert((c + rb).drop_last() =~= c + rb.drop_last());
            assert(Seq::<ArgModel>::empty() + ra =~= ra);
        }
    }
}

proof fn lemma_encode_nonempty(s: Seq<char>, i: int)
    requires
        encode_from(s, i) is Ok,
    ensures
        encode_from(s, i)->Ok_0.0.len() >= 1,
    decreases s.len() - i,
{
    reveal(encode_from);
    if 0 <= i < s.len() {
        if s[i] == '%' && i + 1 < s.len() && s[i + 1] == '<' {
            let k = first_of(s.subrange(i + 2, s.len() as int), '>')->Some_0;
            lemma_encode_nonempty(s, i + 3 + k);
        } else {
            lemma_encode_nonempty(s, i + 1);
        }
    }
}

/// Encoding distributes over concatenation: when two format strings encode,
/// and the first does not end in a `%` (which the second could turn into a
/// token), their concatenation encodes to the first's bytes without its
/// terminator, then the second's bytes, with the arguments of both in order.
pub proof fn law_encoding_concatenates(a: Seq<char>, b: Seq<char>)
    requires
        encode_spec(a) is Ok,
        encode_spec(b) is Ok,
        a.len() == 0 || a.last() != '%',
    ensures
        ({
            let (ba, aa) = encode_spec(a)->Ok_0;
            let (bb, ab) = encode_spec(b)->Ok_0;
            encode_spec(a + b) == Ok::<(Seq<u8>, Seq<ArgModel>), Seq<char>>((ba.drop_last() + bb, aa + ab))
        }),
{
    lemma_encode_prefix(a, b, 0);
    lemma_encode_shift(a, b, 0);
}

} // verus!
