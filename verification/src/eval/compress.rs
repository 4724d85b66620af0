//! The concrete-bytes side of the comptime compression builtins (`zx0`,
//! `s4lz`, and the classic formats): flattening a data value's cells to raw
//! bytes, the size and `module_size` gates checked before a compressor runs,
//! the `zx0` size header, and the diagnostics each compressor's refusals map
//! to. The compressors themselves run outside this library; their inputs
//! and refusals meet it here.
use crate::eval::builtins::{BYTE_HI, BYTE_LO};
use crate::eval::text::{
    dec_digits, lower_hex_digits, push_bytes, push_decimal_u128, push_lower_hex, push_signed_decimal,
    signed_dec,
};
use crate::ast::Arg;
use crate::eval::args::{name_views, require_positional, sort_builtin_args, sort_upto, sorted_view, SortedArgs};
use crate::value::Cell;
use vstd::prelude::*;

verus! {

/// Why a cell has no concrete bytes to compress.
#[derive(Clone, Copy, Debug, PartialEq, Eq, Structural)]
pub enum FlattenError {
    /// A one-byte scalar outside the byte range, with its value.
    ByteRange(i128),
    /// A scalar wider than one byte: its byte order is not fixed yet.
    ByteOrder,
    /// An unresolved symbol reference.
    SymRef,
    /// An unresolved offset-table entry.
    RelOffset,
    /// An unresolved link-time expression.
    Expr,
}

/// The byte a one-byte scalar stores: its value modulo 256 (so `-1` is
/// `0xFF`).
pub open spec fn byte_of(v: i128) -> u8 {
    (v as int % 256) as u8
}

/// The bytes one cell contributes, or why it has none.
pub open spec fn cell_bytes(c: Cell) -> Result<Seq<u8>, FlattenError> {
    match c {
        Cell::Bytes(b) => Ok(b@),
        Cell::Scalar { value, width, .. } => if width == 1 {
            if BYTE_LO <= value <= BYTE_HI {
                Ok(seq![byte_of(value)])
            } else {
                Err(FlattenError::ByteRange(value))
            }
        } else {
            Err(FlattenError::ByteOrder)
        },
        Cell::SymRef { .. } => Err(FlattenError::SymRef),
        Cell::RelOffset => Err(FlattenError::RelOffset),
        Cell::Expr { .. } => Err(FlattenError::Expr),
    }
}

/// The first `n` cells flattened in order: their bytes concatenated, or the
/// refusal of the first cell that has none.
pub open spec fn flatten_upto(cells: Seq<Cell>, n: int) -> Result<Seq<u8>, FlattenError>
    decreases n,
{
    if n <= 0 || n > cells.len() {
        Ok(Seq::empty())
    } else {
        match flatten_upto(cells, n - 1) {
            Err(e) => Err(e),
            Ok(p) => match cell_bytes(cells[n - 1]) {
                Ok(b) => Ok(p + b),
                Err(e) => Err(e),
            },
        }
    }
}

/// All cells flattened in order.
pub open spec fn flatten_spec(cells: Seq<Cell>) -> Result<Seq<u8>, FlattenError> {
    flatten_upto(cells, cells.len() as int)
}

proof fn lemma_refusal_sticks(cells: Seq<Cell>, k: int, n: int)
    requires
        0 <= k <= n <= cells.len(),
        flatten_upto(cells, k) is Err,
    ensures
        flatten_upto(cells, n) == flatten_upto(cells, k),
    decreases n - k,
{
    if k < n {
        lemma_refusal_sticks(cells, k, n - 1);
    }
}

/// The one byte of a scalar in the byte range.
fn scalar_byte(v: i128) -> (b: u8)
    requires
        BYTE_LO <= v <= BYTE_HI,
    ensures
        b == byte_of(v),
{
    if v < 0 {
        (v + 256) as u8
    } else {
        v as u8
    }
}

/// Flatten cells to the raw bytes a compressor takes: raw bytes pass
/// through, a one-byte scalar gives its byte, and anything else (a wider
/// scalar, a symbol, an offset-table entry, a link-time expression) is
/// refused, the first such cell deciding.
pub fn flatten_cells(cells: &[Cell]) -> (r: Result<Vec<u8>, FlattenError>)
    ensures
        match flatten_spec(cells@) {
            Ok(b) => r matches Ok(v) && v@ == b,
            Err(e) => r == Err::<Vec<u8>, FlattenError>(e),
        },
{
    let mut input: Vec<u8> = Vec::new();
    let mut i: usize = 0;
    while i < cells.len()
        invariant
            i <= cells@.len(),
            flatten_upto(cells@, i as int) == Ok::<Seq<u8>, FlattenError>(input@),
        decreases cells@.len() - i,
    {
        let ghost before = input@;
        match &cells[i] {
            Cell::Bytes(b) => {
                push_bytes(&mut input, b.as_slice());
            },
            Cell::Scalar { value, width, .. } => {
                if *width != 1 {
                    proof {
                        lemma_refusal_sticks(cells@, i + 1, cells@.len() as int);
                    }
                    return Err(FlattenError::ByteOrder);
                }
                if *value < BYTE_LO || *value > BYTE_HI {
                    proof {
                        lemma_refusal_sticks(cells@, i + 1, cells@.len() as int);
                    }
                    return Err(FlattenError::ByteRange(*value));
                }
                input.push(scalar_byte(*value));
                assert(input@ =~= before + seq![byte_of(*value)]);
            },
            Cell::SymRef { .. } => {
                proof {
                    lemma_refusal_sticks(cells@, i + 1, cells@.len() as int);
                }
                return Err(FlattenError::SymRef);
            },
            Cell::RelOffset => {
                proof {
                    lemma_refusal_sticks(cells@, i + 1, cells@.len() as int);
                }
                return Err(FlattenError::RelOffset);
            },
            Cell::Expr { .. } => {
                proof {
                    lemma_refusal_sticks(cells@, i + 1, cells@.len() as int);
                }
                return Err(FlattenError::Expr);
            },
        }
        i = i + 1;
    }
    Ok(input)
}

/// The diagnostic for a refused cell. `tag` opens the bracketed code
/// (`zx0`, `s4lz.dict`, `kosinski`, ...), `subject` names the builtin in the
/// sentence.
pub open spec fn flatten_message_spec(tag: Seq<char>, subject: Seq<char>, e: FlattenError) -> Seq<char> {
    match e {
        FlattenError::ByteRange(v) => "["@ + tag + ".byte-range] "@ + subject + " input byte "@ + signed_dec(
            v as int,
        ) + " does not fit 8 bits"@,
        FlattenError::ByteOrder => "["@ + tag + ".byte-order] "@ + subject
            + " input has a multi-byte scalar with no committed byte order — build it from raw bytes (embed/bytes)"@,
        FlattenError::SymRef => "["@ + tag + ".symbolic] "@ + subject
            + " input has an unresolved symbol reference"@,
        FlattenError::RelOffset => "["@ + tag + ".symbolic] "@ + subject
            + " input has an unresolved offset-table entry"@,
        FlattenError::Expr => "["@ + tag + ".symbolic] "@ + subject
            + " input has an unresolved link-expr value"@,
    }
}

/// Build the diagnostic for a refused cell.
pub fn flatten_message(tag: &str, subject: &str, e: FlattenError) -> (m: String)
    ensures
        m@ == flatten_message_spec(tag@, subject@, e),
{
    let mut m = String::from_str("[");
    m.append(tag);
    match e {
        FlattenError::ByteRange(v) => {
            m.append(".byte-range] ");
            m.append(subject);
            m.append(" input byte ");
            push_signed_decimal(&mut m, v);
            m.append(" does not fit 8 bits");
        },
        FlattenError::ByteOrder => {
            m.append(".byte-order] ");
            m.append(subject);
            m.append(
                " input has a multi-byte scalar with no committed byte order — build it from raw bytes (embed/bytes)",
            );
        },
        FlattenError::SymRef => {
            m.append(".symbolic] ");
            m.append(subject);
            m.append(" input has an unresolved symbol reference");
        },
        FlattenError::RelOffset => {
            m.append(".symbolic] ");
            m.append(subject);
            m.append(" input has an unresolved offset-table entry");
        },
        FlattenError::Expr => {
            m.append(".symbolic] ");
            m.append(subject);
            m.append(" input has an unresolved link-expr value");
        },
    }
    m
}

/// `[<tag>.too-large] <tag> input is <n> bytes, exceeds the 65535-byte u16
/// size field`.
pub open spec fn too_large_message(tag: Seq<char>, n: nat) -> Seq<char> {
    "["@ + tag + ".too-large] "@ + tag + " input is "@ + dec_digits(n)
        + " bytes, exceeds the 65535-byte u16 size field"@
}

/// The input a builtin whose output header stores the input length in a
/// `u16` hands its compressor: the flattened cells, refused with the cell's
/// diagnostic, or with `too-large` past 65535 bytes.
pub open spec fn sized_input_spec(tag: Seq<char>, cells: Seq<Cell>) -> Result<Seq<u8>, Seq<char>> {
    match flatten_spec(cells) {
        Err(e) => Err(flatten_message_spec(tag, tag, e)),
        Ok(b) => if b.len() > 0xFFFF {
            Err(too_large_message(tag, b.len()))
        } else {
            Ok(b)
        },
    }
}

fn sized_input(tag: &str, cells: &[Cell]) -> (r: Result<Vec<u8>, String>)
    ensures
        match sized_input_spec(tag@, cells@) {
            Ok(b) => r matches Ok(v) && v@ == b,
            Err(m) => r matches Err(e) && e@ == m,
        },
{
    match flatten_cells(cells) {
        Err(e) => Err(flatten_message(tag, tag, e)),
        Ok(input) => {
            if input.len() > 0xFFFF {
                let mut m = String::from_str("[");
                m.append(tag);
                m.append(".too-large] ");
                m.append(tag);
                m.append(" input is ");
                push_decimal_u128(&mut m, input.len() as u128);
                m.append(" bytes, exceeds the 65535-byte u16 size field");
                Err(m)
            } else {
                Ok(input)
            }
        },
    }
}

/// The bytes `zx0(data)` compresses: the data's cells flattened (a refused
/// cell is a `[zx0.*]` diagnostic) and at most 65535 of them, the most its
/// `u16` size header holds.
pub fn zx0_input(cells: &[Cell]) -> (r: Result<Vec<u8>, String>)
    ensures
        match sized_input_spec("zx0"@, cells@) {
            Ok(b) => r matches Ok(v) && v@ == b,
            Err(m) => r matches Err(e) && e@ == m,
        },
{
    sized_input("zx0", cells)
}

/// The `zx0` output: a 4-byte header (the input length big-endian, then
/// `00 02`) ahead of the compressed stream.
pub fn zx0_frame(input_len: usize, compressed: &[u8]) -> (out: Vec<u8>)
    requires
        input_len <= 0xFFFF,
    ensures
        out@ == seq![(input_len / 256) as u8, (input_len % 256) as u8, 0u8, 2u8] + compressed@,
{
    let mut out: Vec<u8> = Vec::new();
    out.push((input_len / 256) as u8);
    out.push((input_len % 256) as u8);
    out.push(0u8);
    out.push(2u8);
    push_bytes(&mut out, compressed);
    assert(out@ =~= seq![(input_len / 256) as u8, (input_len % 256) as u8, 0u8, 2u8] + compressed@);
    out
}

/// The bytes `s4lz(data, ..)` compresses: the data's cells flattened (a
/// refused cell is an `[s4lz.*]` diagnostic) and at most 65535 of them, the
/// most its `u16` size field holds.
pub fn s4lz_input(cells: &[Cell]) -> (r: Result<Vec<u8>, String>)
    ensures
        match sized_input_spec("s4lz"@, cells@) {
            Ok(b) => r matches Ok(v) && v@ == b,
            Err(m) => r matches Err(e) && e@ == m,
        },
{
    sized_input("s4lz", cells)
}

/// The dictionary `s4lz(data, dict: d)` primes its window with: `d`'s cells
/// flattened (a refused cell is an `[s4lz.dict.*]` diagnostic) and a whole
/// number of words.
pub open spec fn s4lz_dict_spec(cells: Seq<Cell>) -> Result<Seq<u8>, Seq<char>> {
    match flatten_spec(cells) {
        Err(e) => Err(flatten_message_spec("s4lz.dict"@, "s4lz"@, e)),
        Ok(b) => if b.len() % 2 != 0 {
            Err("[s4lz.dict-odd] s4lz dict length "@ + dec_digits(b.len())
                + " must be word-even (mirrors s4lz.py's ValueError)"@)
        } else {
            Ok(b)
        },
    }
}

/// Flatten and check the `s4lz` dictionary argument.
pub fn s4lz_dict_input(cells: &[Cell]) -> (r: Result<Vec<u8>, String>)
    ensures
        match s4lz_dict_spec(cells@) {
            Ok(b) => r matches Ok(v) && v@ == b,
            Err(m) => r matches Err(e) && e@ == m,
        },
{
    match flatten_cells(cells) {
        Err(e) => Err(flatten_message("s4lz.dict", "s4lz", e)),
        Ok(d) => {
            if d.len() % 2 != 0 {
                let mut m = String::from_str("[s4lz.dict-odd] s4lz dict length ");
                push_decimal_u128(&mut m, d.len() as u128);
                m.append(" must be word-even (mirrors s4lz.py's ValueError)");
                Err(m)
            } else {
                Ok(d)
            }
        },
    }
}

/// The arguments of an `s4lz(data, dict: d, tile_delta: b)` call: the index
/// of the data argument and of each named one given.
pub struct S4lzRequest {
    pub data: usize,
    pub dict: Option<usize>,
    pub tile_delta: Option<usize>,
}

/// The names `s4lz` takes.
pub open spec fn s4lz_names() -> Seq<Seq<char>> {
    seq!["dict"@, "tile_delta"@]
}

/// Sort an `s4lz` call's arguments: one positional data argument and the
/// optional `dict:` and `tile_delta:`; each misuse (a second positional
/// argument, a name given twice, an unknown name) is a diagnostic in
/// argument order, and a missing data argument is the error.
pub fn s4lz_args(args: &[Arg]) -> (r: (SortedArgs, Result<S4lzRequest, String>))
    ensures
        ({
            let st = sort_upto("s4lz"@, "data"@, s4lz_names(), args@, args@.len() as int);
            &&& sorted_view(r.0) == st
            &&& match st.0 {
                Some(p) => r.1 matches Ok(q) && q.data == p && (match st.1[0] {
                    Some(x) => q.dict == Some(x as usize),
                    None => q.dict is None,
                }) && (match st.1[1] {
                    Some(x) => q.tile_delta == Some(x as usize),
                    None => q.tile_delta is None,
                }),
                None => r.1 matches Err(m) && m@ == "`"@ + "s4lz"@ + "` requires a "@ + "data"@ + " argument"@,
            }
        }),
{
    let names: [&str; 2] = ["dict", "tile_delta"];
    assert(name_views(names@) =~= s4lz_names());
    let sorted = sort_builtin_args("s4lz", "data", names.as_slice(), args);
    let ghost sv = sorted_view(sorted);
    assert(sv == sort_upto("s4lz"@, "data"@, s4lz_names(), args@, args@.len() as int));
    proof {
        crate::eval::args::lemma_sort_upto_len("s4lz"@, "data"@, s4lz_names(), args@, args@.len() as int);
    }
    assert(sorted.named@.len() == 2);
    let dict = sorted.named[0];
    let tile_delta = sorted.named[1];
    assert(sv.1[0] == match dict {
        Some(p) => Some(p as int),
        None => None::<int>,
    });
    assert(sv.1[1] == match tile_delta {
        Some(p) => Some(p as int),
        None => None::<int>,
    });
    let req = match require_positional("s4lz", "data", &sorted) {
        Ok(p) => Ok(S4lzRequest { data: p, dict, tile_delta }),
        Err(m) => Err(m),
    };
    (sorted, req)
}

/// The refusal of `dict:` together with a true `tile_delta:`.
pub open spec fn s4lz_exclusive_msg() -> Seq<char> {
    "[s4lz.dict-tile-delta-exclusive] s4lz cannot take both `dict:` and `tile_delta:` (mirrors s4lz.py's ValueError: dictionary is not supported with tile_delta)"@
}

/// A dictionary cannot prime the window of a tile-delta stream: refused when
/// `tile_delta` is true and a `dict:` argument was given (before the
/// dictionary is even flattened).
pub fn s4lz_exclusive(tile_delta: bool, dict_given: bool) -> (r: Option<String>)
    ensures
        tile_delta && dict_given ==> (r matches Some(m) && m@ == s4lz_exclusive_msg()),
        !(tile_delta && dict_given) ==> r is None,
{
    if tile_delta && dict_given {
        Some(
            String::from_str(
                "[s4lz.dict-tile-delta-exclusive] s4lz cannot take both `dict:` and `tile_delta:` (mirrors s4lz.py's ValueError: dictionary is not supported with tile_delta)",
            ),
        )
    } else {
        None
    }
}

/// The bytes a classic-format builtin `name` (`kosinski`, `saxman`,
/// `nemesis`, ...) compresses: the data's cells flattened, a refused cell
/// being a `[<name>.*]` diagnostic.
pub fn classic_input(name: &str, cells: &[Cell]) -> (r: Result<Vec<u8>, String>)
    ensures
        match flatten_spec(cells@) {
            Ok(b) => r matches Ok(v) && v@ == b,
            Err(e) => r matches Err(m) && m@ == flatten_message_spec(name@, name@, e),
        },
{
    match flatten_cells(cells) {
        Err(e) => Err(flatten_message(name, name, e)),
        Ok(v) => Ok(v),
    }
}

/// The largest module a moduled format's 12-bit header describes, and the
/// `module_size` used when none is given.
pub const MAX_MODULE_SIZE: u16 = 0x1000;

/// `{n:#x}` of a 128-bit signed integer: `0x` and the lower-case hex digits
/// of its two's-complement bits.
pub open spec fn alt_hex(n: i128) -> Seq<char> {
    "0x"@ + lower_hex_digits((n as u128) as nat)
}

/// The `[<name>.module-size]` refusal of a `module_size` outside `1..=$1000`.
pub open spec fn module_size_message(name: Seq<char>, n: i128) -> Seq<char> {
    "["@ + name + ".module-size] "@ + name + " module_size "@ + alt_hex(n)
        + " must be in 1..=0x1000 (0 is not a valid module size; the 12-bit moduled header cannot represent more than 0x1000)"@
}

/// The module size a moduled builtin `name` (`kosinski_m`, `kosplus_m`)
/// compresses with: `$1000` when the argument is absent, else the given
/// value when it lies in `1..=$1000`; zero, a negative value and anything
/// past `$1000` are a `[<name>.module-size]` diagnostic.
pub fn moduled_module_size(name: &str, given: Option<i128>) -> (r: Result<u16, String>)
    ensures
        match given {
            None => r == Ok::<u16, String>(MAX_MODULE_SIZE),
            Some(n) => if 1 <= n <= MAX_MODULE_SIZE {
                r == Ok::<u16, String>(n as u16)
            } else {
                r matches Err(m) && m@ == module_size_message(name@, n)
            },
        },
{
    match given {
        None => Ok(MAX_MODULE_SIZE),
        Some(n) => {
            if n <= 0 || n > MAX_MODULE_SIZE as i128 {
                let mut m = String::from_str("[");
                m.append(name);
                m.append(".module-size] ");
                m.append(name);
                m.append(" module_size ");
                m.append("0x");
                push_lower_hex(&mut m, n as u128);
                m.append(
                    " must be in 1..=0x1000 (0 is not a valid module size; the 12-bit moduled header cannot represent more than 0x1000)",
                );
                Err(m)
            } else {
                Ok(n as u16)
            }
        },
    }
}

/// A refusal of the classic LZSS-family compressors (`kosinski`, `kosplus`
/// and their moduled forms, `saxman`, `enigma`, `comper`, `rocket`).
#[derive(Clone, Copy, Debug, PartialEq, Eq, Structural)]
pub enum LzssError {
    /// A `module_size` past what the moduled header can describe.
    ModuleSizeTooLarge { requested: usize, max: usize },
    /// A zero `module_size`.
    ModuleSizeZero,
    /// More input than the moduled header's 16-bit length describes.
    DataTooLargeForModuled { len: usize, max: usize },
    /// A compressed stream too long for its 16-bit size header.
    CompressedSizeExceedsU16 { actual: usize },
    /// An odd input length where whole words are required.
    NotWordEven { len: usize },
    /// The compressor failed.
    Overflow,
}

/// `{n:#x}` of a length.
pub open spec fn alt_hex_len(n: usize) -> Seq<char> {
    "0x"@ + lower_hex_digits(n as nat)
}

/// The diagnostic a classic builtin `name` reports for a compressor refusal.
pub open spec fn lzss_error_message_spec(name: Seq<char>, e: LzssError) -> Seq<char> {
    match e {
        LzssError::ModuleSizeTooLarge { requested, max } => "["@ + name + ".module-size] "@ + name
            + " module_size "@ + alt_hex_len(requested) + " exceeds the maximum "@ + alt_hex_len(max)
            + " representable by the moduled header"@,
        LzssError::ModuleSizeZero => "["@ + name + ".module-size] "@ + name
            + " module_size 0 is not a valid module size"@,
        LzssError::DataTooLargeForModuled { len, max } => "["@ + name + ".data-too-large] "@ + name
            + " input is "@ + dec_digits(len as nat)
            + " bytes — the 16-bit moduled header cannot represent more than "@ + dec_digits(max as nat)
            + " bytes at this module_size"@,
        LzssError::CompressedSizeExceedsU16 { actual } => "["@ + name + ".too-large] "@ + name
            + " compressed output is "@ + dec_digits(actual as nat)
            + " bytes, exceeds the 65535-byte u16 header field"@,
        LzssError::NotWordEven { len } => "["@ + name + ".word-even] "@ + name + " input is "@
            + dec_digits(len as nat) + " bytes — must be word-even (a multiple of 2)"@,
        LzssError::Overflow => "["@ + name + ".overflow] "@ + name + " compression failed"@,
    }
}

/// Build the diagnostic a classic builtin `name` reports for a compressor
/// refusal: every refusal has its own code, none is folded into another.
pub fn lzss_error_message(name: &str, e: LzssError) -> (m: String)
    ensures
        m@ == lzss_error_message_spec(name@, e),
{
    let mut m = String::from_str("[");
    m.append(name);
    match e {
        LzssError::ModuleSizeTooLarge { requested, max } => {
            m.append(".module-size] ");
            m.append(name);
            m.append(" module_size ");
            m.append("0x");
            push_lower_hex(&mut m, requested as u128);
            m.append(" exceeds the maximum ");
            m.append("0x");
            push_lower_hex(&mut m, max as u128);
            m.append(" representable by the moduled header");
        },
        LzssError::ModuleSizeZero => {
            m.append(".module-size] ");
            m.append(name);
            m.append(" module_size 0 is not a valid module size");
        },
        LzssError::DataTooLargeForModuled { len, max } => {
            m.append(".data-too-large] ");
            m.append(name);
            m.append(" input is ");
            push_decimal_u128(&mut m, len as u128);
            m.append(" bytes — the 16-bit moduled header cannot represent more than ");
            push_decimal_u128(&mut m, max as u128);
            m.append(" bytes at this module_size");
        },
        LzssError::CompressedSizeExceedsU16 { actual } => {
            m.append(".too-large] ");
            m.append(name);
            m.append(" compressed output is ");
            push_decimal_u128(&mut m, actual as u128);
            m.append(" bytes, exceeds the 65535-byte u16 header field");
        },
        LzssError::NotWordEven { len } => {
            m.append(".word-even] ");
            m.append(name);
            m.append(" input is ");
            push_decimal_u128(&mut m, len as u128);
            m.append(" bytes — must be word-even (a multiple of 2)");
        },
        LzssError::Overflow => {
            m.append(".overflow] ");
            m.append(name);
            m.append(" compression failed");
        },
    }
    m
}

/// A refusal of the Nemesis compressor.
#[derive(Clone, Copy, Debug, PartialEq, Eq, Structural)]
pub enum NemesisError {
    /// An input that is not a whole number of 32-byte tiles.
    NotTileAligned { len: usize },
    /// More tiles than the 15-bit header field counts.
    TooManyTiles { tiles: usize, max_tiles: usize },
    /// The compressor failed.
    Overflow,
}

/// The diagnostic `nemesis` reports for a compressor refusal.
pub open spec fn nemesis_error_message_spec(e: NemesisError) -> Seq<char> {
    match e {
        NemesisError::NotTileAligned { len } => "[nemesis.tile-granularity] nemesis input is "@
            + dec_digits(len as nat) + " bytes — must be a multiple of $20 (one 8x8 4bpp tile)"@,
        NemesisError::TooManyTiles { tiles, max_tiles } => "[nemesis.too-many-tiles] nemesis input has "@
            + dec_digits(tiles as nat) + " tiles, exceeds the maximum "@ + dec_digits(max_tiles as nat)
            + " representable by the 15-bit header field"@,
        NemesisError::Overflow => "[nemesis.overflow] nemesis compression failed"@,
    }
}

/// Build the diagnostic `nemesis` reports for a compressor refusal.
pub fn nemesis_error_message(e: NemesisError) -> (m: String)
    ensures
        m@ == nemesis_error_message_spec(e),
{
    match e {
        NemesisError::NotTileAligned { len } => {
            let mut m = String::from_str("[nemesis.tile-granularity] nemesis input is ");
            push_decimal_u128(&mut m, len as u128);
            m.append(" bytes — must be a multiple of $20 (one 8x8 4bpp tile)");
            m
        },
        NemesisError::TooManyTiles { tiles, max_tiles } => {
            let mut m = String::from_str("[nemesis.too-many-tiles] nemesis input has ");
            push_decimal_u128(&mut m, tiles as u128);
            m.append(" tiles, exceeds the maximum ");
            push_decimal_u128(&mut m, max_tiles as u128);
            m.append(" representable by the 15-bit header field");
            m
        },
        NemesisError::Overflow => String::from_str("[nemesis.overflow] nemesis compression failed"),
    }
}

/// A refusal of the S4LZ compressor.
#[derive(Clone, Copy, Debug, PartialEq, Eq, Structural)]
pub enum S4lzError {
    /// A dictionary together with tile-delta coding.
    DictTileDeltaExclusive,
    /// A dictionary of odd length.
    DictLengthOdd(usize),
    /// Dictionary and data together past the 32766-byte window.
    WindowExceeded { dict_len: usize, data_len: usize },
}

/// The diagnostic `s4lz` reports for a compressor refusal.
pub open spec fn s4lz_error_message_spec(e: S4lzError) -> Seq<char> {
    match e {
        S4lzError::DictTileDeltaExclusive => "[s4lz.dict-tile-delta-exclusive] s4lz cannot take both `dict:` and `tile_delta:`"@,
        S4lzError::DictLengthOdd(n) => "[s4lz.dict-odd] s4lz dict length "@ + dec_digits(n as nat)
            + " must be word-even"@,
        S4lzError::WindowExceeded { dict_len, data_len } => "[s4lz.too-large] s4lz dict+data "@
            + dec_digits((dict_len + data_len) as nat) + " bytes (dict "@ + dec_digits(dict_len as nat)
            + " + data "@ + dec_digits(data_len as nat) + ") exceeds the 32766-byte window"@,
    }
}

/// Build the diagnostic `s4lz` reports for a compressor refusal. The window
/// message states the combined length, so the two lengths must add up
/// within `usize`.
pub fn s4lz_error_message(e: S4lzError) -> (m: String)
    requires
        e matches S4lzError::WindowExceeded { dict_len, data_len } ==> dict_len + data_len <= usize::MAX,
    ensures
        m@ == s4lz_error_message_spec(e),
{
    match e {
        S4lzError::DictTileDeltaExclusive => String::from_str(
            "[s4lz.dict-tile-delta-exclusive] s4lz cannot take both `dict:` and `tile_delta:`",
        ),
        S4lzError::DictLengthOdd(n) => {
            let mut m = String::from_str("[s4lz.dict-odd] s4lz dict length ");
            push_decimal_u128(&mut m, n as u128);
            m.append(" must be word-even");
            m
        },
        S4lzError::WindowExceeded { dict_len, data_len } => {
            let mut m = String::from_str("[s4lz.too-large] s4lz dict+data ");
            push_decimal_u128(&mut m, (dict_len + data_len) as u128);
            m.append(" bytes (dict ");
            push_decimal_u128(&mut m, dict_len as u128);
            m.append(" + data ");
            push_decimal_u128(&mut m, data_len as u128);
            m.append(") exceeds the 32766-byte window");
            m
        },
    }
}

/// Flattening works cell by cell: flattening two runs of cells one after the
/// other gives the first run's bytes followed by the second's, and the
/// first refusal met (in the first run, else in the second) decides.
pub proof fn law_flatten_concatenates(a: Seq<Cell>, b: Seq<Cell>)
    ensures
        flatten_spec(a + b) == match flatten_spec(a) {
            Err(e) => Err(e),
            Ok(x) => match flatten_spec(b) {
                Err(e) => Err(e),
                Ok(y) => Ok(x + y),
            },
        },
    decreases b.len(),
{
    if b.len() == 0 {
        assert(a + b =~= a);
        match flatten_spec(a) {
            Err(e) => {},
            Ok(x) => {
                assert(x + Seq::<u8>::empty() =~= x);
            },
        }
    } else {
        let b0 = b.drop_last();
        law_flatten_concatenates(a, b0);
        let ab = a + b;
        assert(ab.drop_last() =~= a + b0);
        assert(ab[ab.len() - 1] == b[b.len() - 1]);
        lemma_upto_prefix(ab, a + b0, (a + b0).len() as int);
        lemma_upto_prefix(b, b0, b0.len() as int);
        match flatten_spec(a) {
            Err(e) => {},
            Ok(x) => match flatten_upto(b, b0.len() as int) {
                Err(e) => {},
                Ok(y) => match cell_bytes(b[b.len() - 1]) {
                    Err(e) => {},
                    Ok(c) => {
                        assert(x + y + c =~= x + (y + c));
                    },
                },
            },
        }
    }
}

proof fn lemma_upto_prefix(s: Seq<Cell>, t: Seq<Cell>, n: int)
    requires
        0 <= n <= t.len(),
        t.len() <= s.len(),
        forall|k: int| 0 <= k < t.len() ==> s[k] == t[k],
    ensures
        flatten_upto(s, n) == flatten_upto(t, n),
    decreases n,
{
    if n > 0 {
        lemma_upto_prefix(s, t, n - 1);
    }
}

/// The `zx0` header gives back the input length: its first two bytes read
/// big-endian are the length, and the compressed stream follows the four
/// header bytes unchanged.
pub proof fn law_zx0_header_holds_length(input_len: usize, compressed: Seq<u8>)
    requires
        input_len <= 0xFFFF,
    ensures
        ({
            let out = seq![(input_len / 256) as u8, (input_len % 256) as u8, 0u8, 2u8] + compressed;
            &&& out[0] as int * 256 + out[1] as int == input_len
            &&& out.subrange(4, out.len() as int) == compressed
        }),
{
    let out = seq![(input_len / 256) as u8, (input_len % 256) as u8, 0u8, 2u8] + compressed;
    assert(out.subrange(4, out.len() as int) =~= compressed);
}

} // verus!
