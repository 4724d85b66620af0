//! Checked emission of data values: the natural range of a primitive, the
//! out-of-range report, the scalar and pointer cells a value lowers to, a
//! string's raw ASCII bytes against a byte array, and the shape check of a
//! struct value against its declared fields.
//!
//! A value outside its type's range is reported but its cell is still
//! emitted, so a table's total size keeps lining up with its layout.
use crate::eval::text::{chars_of, dec_digits, push_decimal, push_signed_decimal, signed_dec, str_eq};
use crate::eval::typed::{lemma_two_pow_127, lemma_two_pow_mono, two_pow};
use crate::value::Cell;
use vstd::prelude::*;

verus! {

// ---------------------------------------------------------------------------
// Ranges.
// ---------------------------------------------------------------------------

/// The least value a primitive of `width` bytes holds.
pub open spec fn prim_lo(width: u8, signed: bool) -> int {
    if signed {
        -two_pow((8 * width - 1) as nat)
    } else {
        0
    }
}

/// The greatest value a primitive of `width` bytes holds.
pub open spec fn prim_hi(width: u8, signed: bool) -> int {
    if signed {
        two_pow((8 * width - 1) as nat) - 1
    } else {
        two_pow((8 * width) as nat) - 1
    }
}

/// The natural range of a primitive of `width` bytes, signed or not: its
/// least and greatest value. Little-endian storage does not change it.
pub fn prim_bounds(width: u8, signed: bool) -> (r: (i128, i128))
    requires
        1 <= width <= 15,
    ensures
        r.0 == prim_lo(width, signed),
        r.1 == prim_hi(width, signed),
{
    let bits: u32 = 8 * (width as u32);
    let mut p: i128 = 1;
    let mut k: u32 = 0;
    proof {
        lemma_two_pow_127();
        reveal_with_fuel(two_pow, 2);
    }
    while k + 1 < bits
        invariant
            bits == 8 * width,
            8 <= bits <= 120,
            k + 1 <= bits,
            p == two_pow(k as nat),
        decreases bits - k,
    {
        proof {
            lemma_two_pow_mono((k + 1) as nat, 126);
            assert(two_pow(127) == 2 * two_pow(126));
            lemma_two_pow_127();
            assert(two_pow((k + 1) as nat) == 2 * two_pow(k as nat));
        }
        p = p * 2;
        k = k + 1;
    }
    assert(k == bits - 1);
    proof {
        lemma_two_pow_mono(bits as nat, 126);
        assert(two_pow(127) == 2 * two_pow(126));
        lemma_two_pow_127();
        assert(two_pow(bits as nat) == 2 * two_pow(k as nat));
    }
    if signed {
        (-p, p - 1)
    } else {
        (0, 2 * p - 1)
    }
}

/// The report of a value outside `lo..=hi` for the type `ty`.
pub open spec fn out_of_range_msg(n: int, lo: int, hi: int, ty: Seq<char>) -> Seq<char> {
    "[emit.out-of-range] "@ + signed_dec(n) + " does not fit "@ + ty + " ("@ + signed_dec(lo) + "..="@
        + signed_dec(hi) + ")"@
}

/// The emission range check: the report when `n` falls outside `lo..=hi`,
/// naming the value, the type and the range; `None` when it fits.
pub fn range_check(n: i128, lo: i128, hi: i128, ty: &str) -> (r: Option<String>)
    ensures
        lo <= n <= hi ==> r is None,
        !(lo <= n <= hi) ==> (r matches Some(m) && m@ == out_of_range_msg(n as int, lo as int, hi as int, ty@)),
{
    if n < lo || n > hi {
        let mut m = String::from_str("[emit.out-of-range] ");
        push_signed_decimal(&mut m, n);
        m.append(" does not fit ");
        m.append(ty);
        m.append(" (");
        push_signed_decimal(&mut m, lo);
        m.append("..=");
        push_signed_decimal(&mut m, hi);
        m.append(")");
        Some(m)
    } else {
        None
    }
}

// ---------------------------------------------------------------------------
// Scalar and pointer cells.
// ---------------------------------------------------------------------------

/// Lower an integer against a primitive of `width` bytes (its description
/// `ty`, as `u16` or `i8le`): one scalar cell of that width and signedness,
/// and the out-of-range report when the value leaves the primitive's natural
/// range (the cell is emitted either way).
pub fn prim_cell(n: i128, width: u8, signed: bool, le: bool, ty: &str) -> (r: (Cell, Option<String>))
    requires
        1 <= width <= 15,
    ensures
        r.0 == (Cell::Scalar { value: n, width, signed, le }),
        prim_lo(width, signed) <= n <= prim_hi(width, signed) ==> r.1 is None,
        !(prim_lo(width, signed) <= n <= prim_hi(width, signed)) ==> (r.1 matches Some(m) && m@
            == out_of_range_msg(n as int, prim_lo(width, signed), prim_hi(width, signed), ty@)),
{
    let (lo, hi) = prim_bounds(width, signed);
    let report = range_check(n, lo, hi, ty);
    (Cell::Scalar { value: n, width, signed, le }, report)
}

/// What a pointer slot's range report calls the slot.
pub open spec fn pointer_slot_desc() -> Seq<char> {
    "*u8 (absolute pointer cell)"@
}

/// An integer in a pointer slot (the null `0` of a sparse table, or a
/// literal absolute address): a four-byte unsigned big-endian scalar, with
/// the out-of-range report when it does not fit 32 bits unsigned, so it can
/// never silently truncate to its low bytes.
pub fn pointer_int_cell(n: i128) -> (r: (Cell, Option<String>))
    ensures
        r.0 == (Cell::Scalar { value: n, width: 4, signed: false, le: false }),
        0 <= n <= u32::MAX ==> r.1 is None,
        !(0 <= n <= u32::MAX) ==> (r.1 matches Some(m) && m@ == out_of_range_msg(
            n as int,
            0,
            u32::MAX as int,
            pointer_slot_desc(),
        )),
{
    let report = range_check(n, 0, 0xFFFF_FFFF, "*u8 (absolute pointer cell)");
    (Cell::Scalar { value: n, width: 4, signed: false, le: false }, report)
}

// ---------------------------------------------------------------------------
// Strings as bytes.
// ---------------------------------------------------------------------------

/// What `{:?}` renders a `char` as.
pub uninterp spec fn char_debug_text(c: char) -> Seq<char>;

/// `format!("{c:?}")`, std's `Debug` rendering of a `char` (quoted, with
/// std's escapes). The contract names the rendering and does not restate
/// std's quoting and escaping rules.
#[verifier::external_body]
fn char_debug(c: char) -> (r: String)
    ensures
        r@ == char_debug_text(c),
{
    format!("{c:?}")
}

/// A character below 128.
pub open spec fn is_ascii_char(c: char) -> bool {
    (c as u32) < 128
}

/// The report of a non-ASCII character in a data string.
pub open spec fn non_ascii_msg(c: char) -> Seq<char> {
    "[emit.non-ascii] string byte must be ASCII; "@ + char_debug_text(c)
        + " is not — use a numeric literal or an escape"@
}

/// The raw byte of each character.
pub open spec fn ascii_seq(s: Seq<char>) -> Seq<u8> {
    s.map_values(|c: char| (c as u32) as u8)
}

/// A data string's raw ASCII bytes, one per character; the first non-ASCII
/// character stops the conversion and is reported.
pub fn ascii_bytes(s: &str) -> (r: Result<Vec<u8>, String>)
    ensures
        (forall|i: int| 0 <= i < s@.len() ==> is_ascii_char(#[trigger] s@[i])) ==> (r matches Ok(b) && b@
            == ascii_seq(s@)),
        r matches Err(m) ==> exists|j: int|
            0 <= j < s@.len() && !is_ascii_char(s@[j]) && (forall|k: int|
                0 <= k < j ==> is_ascii_char(#[trigger] s@[k])) && m@ == non_ascii_msg(s@[j]),
        r is Ok ==> forall|i: int| 0 <= i < s@.len() ==> is_ascii_char(#[trigger] s@[i]),
{
    let cs = chars_of(s);
    let mut out: Vec<u8> = Vec::new();
    let mut i: usize = 0;
    while i < cs.len()
        invariant
            i <= cs@.len(),
            cs@ == s@,
            out@ == ascii_seq(s@.subrange(0, i as int)),
            forall|k: int| 0 <= k < i ==> is_ascii_char(#[trigger] s@[k]),
        decreases cs@.len() - i,
    {
        let c = cs[i];
        let code = c as u32;
        if code >= 128 {
            let mut m = String::from_str("[emit.non-ascii] string byte must be ASCII; ");
            let shown = char_debug(c);
            m.append(shown.as_str());
            m.append(" is not — use a numeric literal or an escape");
            proof {
                assert(!is_ascii_char(s@[i as int]));
            }
            return Err(m);
        }
        out.push(code as u8);
        assert(ascii_seq(s@.subrange(0, i + 1)) =~= ascii_seq(s@.subrange(0, i as int)).push(
            (code as u8),
        ));
        i = i + 1;
    }
    assert(s@.subrange(0, s@.len() as int) =~= s@);
    Ok(out)
}

/// The report of an array value of the wrong length.
pub open spec fn length_mismatch_msg(n: nat, got: nat) -> Seq<char> {
    "array length mismatch: expected "@ + dec_digits(n) + " element(s), got "@ + dec_digits(got)
}

/// A string against a `[u8; n]` / `[i8; n]` array: one byte-run cell of its
/// raw ASCII bytes, and the length report when it does not hold exactly `n`
/// bytes (there is no implicit terminator). A non-ASCII character is the
/// error, and nothing is emitted.
pub fn str_byte_array(s: &str, n: usize) -> (r: Result<(Cell, Option<String>), String>)
    ensures
        (forall|i: int| 0 <= i < s@.len() ==> is_ascii_char(#[trigger] s@[i])) ==> (r matches Ok(
            (Cell::Bytes(b), report),
        ) && b@ == ascii_seq(s@) && (s@.len() == n ==> report is None) && (s@.len() != n ==> (report matches Some(
            m,
        ) && m@ == length_mismatch_msg(n as nat, s@.len())))),
        r matches Err(m) ==> exists|j: int|
            0 <= j < s@.len() && !is_ascii_char(s@[j]) && (forall|k: int|
                0 <= k < j ==> is_ascii_char(#[trigger] s@[k])) && m@ == non_ascii_msg(s@[j]),
        r is Ok ==> forall|i: int| 0 <= i < s@.len() ==> is_ascii_char(#[trigger] s@[i]),
{
    let bytes = match ascii_bytes(s) {
        Ok(b) => b,
        Err(m) => return Err(m),
    };
    let report = if bytes.len() != n {
        let mut m = String::from_str("array length mismatch: expected ");
        push_decimal(&mut m, n as u64);
        m.append(" element(s), got ");
        push_decimal(&mut m, bytes.len() as u64);
        Some(m)
    } else {
        None
    };
    Ok((Cell::Bytes(bytes), report))
}

// ---------------------------------------------------------------------------
// Struct shapes.
// ---------------------------------------------------------------------------

/// The report of a declared field the value does not provide.
pub open spec fn missing_field_msg(name: Seq<char>, field: Seq<char>) -> Seq<char> {
    "[struct.missing-field] struct "@ + name + ": field `"@ + field + "` was not provided"@
}

/// The report of a provided field the struct does not declare.
pub open spec fn unknown_field_msg(name: Seq<char>, field: Seq<char>) -> Seq<char> {
    "[struct.unknown-field] struct "@ + name + " has no field `"@ + field + "`"@
}

/// The reports, in order, of each name of `fields` absent from `others`,
/// each made by `msg`.
pub open spec fn absent_reports(
    name: Seq<char>,
    fields: Seq<Seq<char>>,
    others: Seq<Seq<char>>,
    missing: bool,
) -> Seq<Seq<char>>
    decreases fields.len(),
{
    if fields.len() == 0 {
        Seq::empty()
    } else {
        let rest = absent_reports(name, fields.drop_last(), others, missing);
        if others.contains(fields.last()) {
            rest
        } else if missing {
            rest.push(missing_field_msg(name, fields.last()))
        } else {
            rest.push(unknown_field_msg(name, fields.last()))
        }
    }
}

/// The names of a list of fields.
pub open spec fn field_names(v: Seq<String>) -> Seq<Seq<char>> {
    v.map_values(|s: String| s@)
}

fn contains_name(names: &[String], x: &str) -> (b: bool)
    ensures
        b == field_names(names@).contains(x@),
{
    let ghost nv = field_names(names@);
    let mut k: usize = 0;
    while k < names.len()
        invariant
            k <= names@.len(),
            nv == field_names(names@),
            forall|j: int| 0 <= j < k ==> nv[j] != x@,
        decreases names@.len() - k,
    {
        if str_eq(names[k].as_str(), x) {
            assert(nv[k as int] == x@);
            return true;
        }
        k = k + 1;
    }
    false
}

fn push_absent_reports(
    out: &mut Vec<String>,
    name: &str,
    fields: &[String],
    others: &[String],
    missing: bool,
)
    ensures
        field_names(final(out)@) == field_names(old(out)@) + absent_reports(
            name@,
            field_names(fields@),
            field_names(others@),
            missing,
        ),
{
    let ghost fv = field_names(fields@);
    let ghost ov = field_names(others@);
    let ghost start = field_names(out@);
    let mut k: usize = 0;
    while k < fields.len()
        invariant
            k <= fields@.len(),
            fv == field_names(fields@),
            ov == field_names(others@),
            field_names(out@) == start + absent_reports(name@, fv.subrange(0, k as int), ov, missing),
        decreases fields@.len() - k,
    {
        let ghost before = field_names(out@);
        assert(fv.subrange(0, k + 1).drop_last() =~= fv.subrange(0, k as int));
        assert(fv.subrange(0, k + 1).last() == fields@[k as int]@);
        if !contains_name(others, fields[k].as_str()) {
            let mut m = String::new();
            if missing {
                m.append("[struct.missing-field] struct ");
                m.append(name);
                m.append(": field `");
                m.append(fields[k].as_str());
                m.append("` was not provided");
            } else {
                m.append("[struct.unknown-field] struct ");
                m.append(name);
                m.append(" has no field `");
                m.append(fields[k].as_str());
                m.append("`");
            }
            proof {
                if missing {
                    assert(m@ =~= missing_field_msg(name@, fields@[k as int]@));
                } else {
                    assert(m@ =~= unknown_field_msg(name@, fields@[k as int]@));
                }
            }
            out.push(m);
            assert(field_names(out@) =~= before.push(m@));
        }
        assert(field_names(out@) =~= start + absent_reports(name@, fv.subrange(0, k + 1), ov, missing));
        k = k + 1;
    }
    assert(fv.subrange(0, fields@.len() as int) =~= fv);
}

/// Check a struct value's field names against its declared fields: first
/// each declared field the value does not provide, in declaration order,
/// then each provided field the struct does not declare, in the value's
/// order. No reports means the shape matches.
pub fn struct_shape_errors(name: &str, declared: &[String], provided: &[String]) -> (r: Vec<String>)
    ensures
        field_names(r@) == absent_reports(name@, field_names(declared@), field_names(provided@), true)
            + absent_reports(name@, field_names(provided@), field_names(declared@), false),
{
    let mut out: Vec<String> = Vec::new();
    assert(field_names(out@) =~= Seq::<Seq<char>>::empty());
    push_absent_reports(&mut out, name, declared, provided, true);
    push_absent_reports(&mut out, name, provided, declared, false);
    out
}

proof fn lemma_absent_reports_empty(name: Seq<char>, fields: Seq<Seq<char>>, others: Seq<Seq<char>>, missing: bool)
    ensures
        absent_reports(name, fields, others, missing).len() == 0 <==> forall|i: int|
            0 <= i < fields.len() ==> others.contains(#[trigger] fields[i]),
    decreases fields.len(),
{
    if fields.len() > 0 {
        let init = fields.drop_last();
        lemma_absent_reports_empty(name, init, others, missing);
        if absent_reports(name, fields, others, missing).len() == 0 {
            assert forall|i: int| 0 <= i < fields.len() implies others.contains(#[trigger] fields[i]) by {
                if i < fields.len() - 1 {
                    assert(fields[i] == init[i]);
                }
            }
        }
        if forall|i: int| 0 <= i < fields.len() ==> others.contains(#[trigger] fields[i]) {
            assert forall|i: int| 0 <= i < init.len() implies others.contains(#[trigger] init[i]) by {
                assert(init[i] == fields[i]);
            }
            assert(others.contains(fields[fields.len() - 1]));
        }
    }
}

/// A struct value's shape is accepted exactly when it provides every
/// declared field and declares every provided field.
pub proof fn law_shape_accepted_iff_same_fields(name: Seq<char>, declared: Seq<Seq<char>>, provided: Seq<Seq<char>>)
    ensures
        (absent_reports(name, declared, provided, true) + absent_reports(name, provided, declared, false)).len()
            == 0 <==> (forall|i: int| 0 <= i < declared.len() ==> provided.contains(#[trigger] declared[i])) && (
        forall|i: int| 0 <= i < provided.len() ==> declared.contains(#[trigger] provided[i])),
{
    lemma_absent_reports_empty(name, declared, provided, true);
    lemma_absent_reports_empty(name, provided, declared, false);
}

} // verus!
