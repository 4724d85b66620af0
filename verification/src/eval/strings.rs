//! The string builtins (`len`, `find`, `slice`), the arity check every
//! builtin shares, and the byte-data constructors `byte`, `bytes` and
//! `winptr`.
use crate::eval::builtins::{BYTE_HI, BYTE_LO};
use crate::eval::compress::byte_of;
use crate::eval::text::{chars_of, dec_digits, push_decimal_u128, push_signed_decimal, signed_dec};
use crate::value::Cell;
use vstd::prelude::*;

verus! {

/// `s.len`: the number of characters (not bytes).
pub fn str_len(s: &str) -> (n: i128)
    ensures
        n == s@.len(),
{
    s.unicode_len() as i128
}

/// Whether `needle` occurs in `s` starting at character `i`.
pub open spec fn occurs_at(s: Seq<char>, needle: Seq<char>, i: int) -> bool {
    0 <= i && i + needle.len() <= s.len() && s.subrange(i, i + needle.len()) == needle
}

/// `s.find(needle)`: the character index of the first occurrence of
/// `needle` in `s`, or -1 when it does not occur (an empty needle occurs at
/// 0).
pub fn str_find(s: &str, needle: &str) -> (r: i128)
    ensures
        r == -1 ==> forall|i: int| !occurs_at(s@, needle@, i),
        r != -1 ==> occurs_at(s@, needle@, r as int) && forall|i: int| 0 <= i < r ==> !occurs_at(s@, needle@, i),
{
    let hay = chars_of(s);
    let pat = chars_of(needle);
    if pat.len() > hay.len() {
        assert forall|i: int| !occurs_at(s@, needle@, i) by {}
        return -1;
    }
    let hn: usize = hay.len();
    let last = hn - pat.len();
    let mut i: usize = 0;
    loop
        invariant
            hn == hay@.len(),
            hay@ == s@,
            pat@ == needle@,
            last == hay@.len() - pat@.len(),
            i <= last,
            forall|k: int| 0 <= k < i ==> !occurs_at(s@, needle@, k),
        decreases last - i,
    {
        let mut j: usize = 0;
        let mut same = true;
        while j < pat.len()
            invariant
                hn == hay@.len(),
                hay@ == s@,
                pat@ == needle@,
                i <= last,
                last == hay@.len() - pat@.len(),
                i + pat@.len() <= hay@.len(),
                j <= pat@.len(),
                same == forall|t: int| 0 <= t < j ==> hay@[i + t] == pat@[t],
            decreases pat@.len() - j,
        {
            if hay[i + j] != pat[j] {
                same = false;
            }
            j = j + 1;
        }
        if same {
            assert(s@.subrange(i as int, i + needle@.len()) =~= needle@);
            return i as i128;
        }
        assert(!occurs_at(s@, needle@, i as int)) by {
            let t = choose|t: int| 0 <= t < pat@.len() && hay@[i + t] != pat@[t];
            assert(s@.subrange(i as int, i + needle@.len())[t] != needle@[t]);
        }
        if i == last {
            assert forall|k: int| !occurs_at(s@, needle@, k) by {
                if 0 <= k && k + needle@.len() <= s@.len() {
                    assert(k <= i);
                }
            }
            return -1;
        }
        i = i + 1;
    }
}

/// The refusal of a slice outside `0 <= start <= end <= length`.
pub open spec fn slice_range_message(start: i128, end: i128, n: nat) -> Seq<char> {
    "slice ["@ + signed_dec(start as int) + ".."@ + signed_dec(end as int) + "] out of range for string of length "@
        + dec_digits(n)
}

/// `s.slice(start, end)`: the characters `start..end` (half-open) of `s`,
/// refused unless `0 <= start <= end <= length`.
pub fn str_slice(s: &str, start: i128, end: i128) -> (r: Result<String, String>)
    ensures
        0 <= start <= end <= s@.len() ==> (r matches Ok(t) && t@ == s@.subrange(start as int, end as int)),
        !(0 <= start <= end <= s@.len()) ==> (r matches Err(m) && m@ == slice_range_message(start, end, s@.len())),
{
    let n = s.unicode_len();
    if start < 0 || end < start || end > n as i128 {
        let mut m = String::from_str("slice [");
        push_signed_decimal(&mut m, start);
        m.append("..");
        push_signed_decimal(&mut m, end);
        m.append("] out of range for string of length ");
        push_decimal_u128(&mut m, n as u128);
        return Err(m);
    }
    Ok(String::from_str(s.substring_char(start as usize, end as usize)))
}

/// A builtin's arity check: ``[`method` expects want argument(s), got n]``
/// unless exactly `want` arguments were given.
pub fn check_arity(method: &str, want: usize, got: usize) -> (r: Option<String>)
    ensures
        got == want ==> r is None,
        got != want ==> (r matches Some(m) && m@ == "`"@ + method@ + "` expects "@ + dec_digits(want as nat)
            + " argument(s), got "@ + dec_digits(got as nat)),
{
    if got == want {
        return None;
    }
    let mut m = String::from_str("`");
    m.append(method);
    m.append("` expects ");
    push_decimal_u128(&mut m, want as u128);
    m.append(" argument(s), got ");
    push_decimal_u128(&mut m, got as u128);
    Some(m)
}

/// ``[`method` is not defined on string]``.
pub fn not_on_string_message(method: &str) -> (m: String)
    ensures
        m@ == "`"@ + method@ + "` is not defined on string"@,
{
    let mut m = String::from_str("`");
    m.append(method);
    m.append("` is not defined on string");
    m
}

/// `byte value n does not fit 8 bits (-128..=255)`.
pub open spec fn byte_range_message(n: i128) -> Seq<char> {
    "byte value "@ + signed_dec(n as int) + " does not fit 8 bits (-128..=255)"@
}

fn push_byte_range_message(n: i128) -> (m: String)
    ensures
        m@ == byte_range_message(n),
{
    let mut m = String::from_str("byte value ");
    push_signed_decimal(&mut m, n);
    m.append(" does not fit 8 bits (-128..=255)");
    m
}

/// `byte(n)`: one unsigned byte cell holding the 8-bit pattern of `n`
/// (`byte(-5)` stores 251), for `n` in `-128..=255`.
pub fn byte_cell(n: i128) -> (r: Result<Cell, String>)
    ensures
        BYTE_LO <= n <= BYTE_HI ==> (r matches Ok(Cell::Scalar { value, width, signed, le }) && value
            == byte_of(n) as i128 && width == 1 && !signed && !le),
        !(BYTE_LO <= n <= BYTE_HI) ==> (r matches Err(m) && m@ == byte_range_message(n)),
{
    if n < BYTE_LO || n > BYTE_HI {
        return Err(push_byte_range_message(n));
    }
    let b: i128 = if n < 0 {
        n + 256
    } else {
        n
    };
    Ok(Cell::Scalar { value: b, width: 1, signed: false, le: false })
}

/// The range refusals of a run of byte values, in order.
pub open spec fn byte_errors(s: Seq<i128>) -> Seq<Seq<char>>
    decreases s.len(),
{
    if s.len() == 0 {
        Seq::empty()
    } else if BYTE_LO <= s.last() <= BYTE_HI {
        byte_errors(s.drop_last())
    } else {
        byte_errors(s.drop_last()).push(byte_range_message(s.last()))
    }
}

proof fn lemma_no_errors_all_in_range(s: Seq<i128>)
    ensures
        byte_errors(s).len() == 0 <==> forall|i: int| 0 <= i < s.len() ==> BYTE_LO <= #[trigger] s[i] <= BYTE_HI,
    decreases s.len(),
{
    if s.len() > 0 {
        lemma_no_errors_all_in_range(s.drop_last());
        if byte_errors(s).len() == 0 {
            assert forall|i: int| 0 <= i < s.len() implies BYTE_LO <= #[trigger] s[i] <= BYTE_HI by {
                if i < s.len() - 1 {
                    assert(s.drop_last()[i] == s[i]);
                }
            }
        }
        if forall|i: int| 0 <= i < s.len() ==> BYTE_LO <= #[trigger] s[i] <= BYTE_HI {
            assert(BYTE_LO <= s[s.len() - 1] <= BYTE_HI);
            assert forall|i: int| 0 <= i < s.drop_last().len() implies BYTE_LO <= #[trigger] s.drop_last()[i]
                <= BYTE_HI by {
                assert(s.drop_last()[i] == s[i]);
            }
        }
    }
}

/// `bytes([..])`: one byte-run cell of the elements' 8-bit patterns when
/// every element is in `-128..=255`; otherwise every out-of-range element is
/// reported, in order.
pub fn bytes_cell(elems: &[i128]) -> (r: Result<Cell, Vec<String>>)
    ensures
        byte_errors(elems@).len() == 0 ==> (r matches Ok(Cell::Bytes(b)) && b@ == elems@.map_values(
            |n: i128| byte_of(n),
        )),
        byte_errors(elems@).len() > 0 ==> (r matches Err(ms) && ms@.map_values(|m: String| m@) == byte_errors(
            elems@,
        )),
        byte_errors(elems@).len() == 0 <==> forall|i: int| 0 <= i < elems@.len() ==> BYTE_LO <= #[trigger] elems@[i]
            <= BYTE_HI,
{
    let mut out: Vec<u8> = Vec::new();
    let mut errs: Vec<String> = Vec::new();
    let mut i: usize = 0;
    while i < elems.len()
        invariant
            i <= elems@.len(),
            errs@.map_values(|m: String| m@) == byte_errors(elems@.subrange(0, i as int)),
            byte_errors(elems@.subrange(0, i as int)).len() == 0 ==> out@ == elems@.subrange(0, i as int).map_values(
                |n: i128| byte_of(n),
            ),
        decreases elems@.len() - i,
    {
        let n = elems[i];
        let ghost pre = elems@.subrange(0, i as int);
        assert(elems@.subrange(0, i + 1) =~= pre.push(n));
        assert(pre.push(n).drop_last() =~= pre);
        if n < BYTE_LO || n > BYTE_HI {
            let ghost before = errs@.map_values(|m: String| m@);
            errs.push(push_byte_range_message(n));
            assert(errs@.map_values(|m: String| m@) =~= before.push(byte_range_message(n)));
        } else {
            let b: u8 = if n < 0 {
                (n + 256) as u8
            } else {
                n as u8
            };
            out.push(b);
            assert(byte_errors(pre.push(n)) == byte_errors(pre));
            proof {
                if byte_errors(pre).len() == 0 {
                    assert(out@ =~= elems@.subrange(0, i + 1).map_values(|n: i128| byte_of(n)));
                }
            }
        }
        i = i + 1;
    }
    assert(elems@.subrange(0, elems@.len() as int) =~= elems@);
    proof {
        lemma_no_errors_all_in_range(elems@);
    }
    if errs.len() == 0 {
        Ok(Cell::Bytes(out))
    } else {
        Err(errs)
    }
}

/// `winptr(sym)`: one 2-byte windowed symbol-reference cell (a Z80 bank
/// window pointer the linker resolves).
pub fn winptr_cell(name: String) -> (r: Cell)
    ensures
        r == (Cell::SymRef { name, width: 2, windowed: true }),
{
    Cell::SymRef { name, width: 2, windowed: true }
}

} // verus!
