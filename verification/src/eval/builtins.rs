//! The builtin-method vocabulary, the range a byte accepts, and the integer
//! reader behind the `val` builtin.
use crate::eval::text::{chars_of, digits_in_range, digits_value, str_eq, trim, trim_range};
use vstd::prelude::*;

verus! {

/// The lowest value a byte accepts: the signed reading of one byte.
pub const BYTE_LO: i128 = -128;

/// The highest value a byte accepts: the unsigned reading of one byte.
pub const BYTE_HI: i128 = 255;

/// The closed, non-shadowable set of builtin method names.
pub open spec fn builtin_name(name: Seq<char>) -> bool {
    ||| name == "len"@
    ||| name == "map"@
    ||| name == "filter"@
    ||| name == "fold"@
    ||| name == "find"@
    ||| name == "slice"@
    ||| name == "val"@
}

/// Whether `name` is a builtin method (`len`, `map`, `filter`, `fold`,
/// `find`, `slice`, `val`).
pub fn is_builtin(name: &str) -> (r: bool)
    ensures
        r == builtin_name(name@),
{
    str_eq(name, "len") || str_eq(name, "map") || str_eq(name, "filter") || str_eq(name, "fold")
        || str_eq(name, "find") || str_eq(name, "slice") || str_eq(name, "val")
}

/// The radix a literal's prefix selects and the digits after it: `$` and
/// `0x`/`0X` hex, `0b`/`0B` binary, anything else decimal.
pub open spec fn radix_and_digits(rest: Seq<char>) -> (nat, Seq<char>) {
    if rest.len() > 0 && rest[0] == '$' {
        (16, rest.drop_first())
    } else if rest.len() >= 2 && rest[0] == '0' && (rest[1] == 'x' || rest[1] == 'X') {
        (16, rest.subrange(2, rest.len() as int))
    } else if rest.len() >= 2 && rest[0] == '0' && (rest[1] == 'b' || rest[1] == 'B') {
        (2, rest.subrange(2, rest.len() as int))
    } else {
        (10, rest)
    }
}

/// The value of an `.emp` integer literal: surrounding whitespace is
/// ignored, then an optional `-`, a radix prefix, and at least one digit of
/// that radix, with no further sign; the magnitude must fit an `i128`.
pub open spec fn emp_int(s: Seq<char>) -> Option<int> {
    let t = trim(s);
    let neg = t.len() > 0 && t[0] == '-';
    let rest = if neg {
        t.drop_first()
    } else {
        t
    };
    let (radix, digits) = radix_and_digits(rest);
    if digits.len() == 0 || digits[0] == '+' || digits[0] == '-' {
        None
    } else {
        match digits_value(digits, radix) {
            Some(m) => if m <= i128::MAX {
                Some(
                    if neg {
                        -m
                    } else {
                        m as int
                    },
                )
            } else {
                None
            },
            None => None,
        }
    }
}

/// The radix the prefix of `cs[start..hi]` selects, and where its digits
/// begin.
fn radix_prefix(cs: &Vec<char>, start: usize, hi: usize) -> (r: (u128, usize))
    requires
        start <= hi <= cs@.len(),
    ensures
        start <= r.1 <= hi,
        r.0 == 2 || r.0 == 10 || r.0 == 16,
        radix_and_digits(cs@.subrange(start as int, hi as int)) == (r.0 as nat, cs@.subrange(
            r.1 as int,
            hi as int,
        )),
{
    let ghost rest = cs@.subrange(start as int, hi as int);
    let n = hi - start;
    if n > 0 && cs[start] == '$' {
        assert(rest.drop_first() =~= cs@.subrange(start + 1, hi as int));
        (16, start + 1)
    } else if n >= 2 && cs[start] == '0' && (cs[start + 1] == 'x' || cs[start + 1] == 'X') {
        assert(rest.subrange(2, rest.len() as int) =~= cs@.subrange(start + 2, hi as int));
        (16, start + 2)
    } else if n >= 2 && cs[start] == '0' && (cs[start + 1] == 'b' || cs[start + 1] == 'B') {
        assert(rest.subrange(2, rest.len() as int) =~= cs@.subrange(start + 2, hi as int));
        (2, start + 2)
    } else {
        (10, start)
    }
}

/// Parse a trimmed string as an `.emp` integer literal for the `val`
/// builtin: an optional leading `-`, then `$HHHH`/`0xHHHH` (hex), `0bBBBB`
/// (binary), or decimal digits. `None` on any malformed input.
pub fn parse_emp_int(s: &str) -> (r: Option<i128>)
    ensures
        match emp_int(s@) {
            Some(v) => r == Some(v as i128),
            None => r is None,
        },
{
    let cs = chars_of(s);
    let (lo, hi) = trim_range(&cs, 0, cs.len());
    assert(cs@.subrange(0, cs@.len() as int) =~= s@);
    let ghost t = cs@.subrange(lo as int, hi as int);
    let neg = lo < hi && cs[lo] == '-';
    let start = if neg {
        lo + 1
    } else {
        lo
    };
    assert(cs@.subrange(start as int, hi as int) =~= if neg {
        t.drop_first()
    } else {
        t
    });
    let (radix, dstart) = radix_prefix(&cs, start, hi);
    let ghost digits = cs@.subrange(dstart as int, hi as int);
    if dstart >= hi || cs[dstart] == '+' || cs[dstart] == '-' {
        return None;
    }
    assert(digits[0] == cs@[dstart as int]);
    let max: u128 = 0x7fff_ffff_ffff_ffff_ffff_ffff_ffff_ffff;
    match digits_in_range(&cs, dstart, hi, radix, max) {
        Some(m) => {
            let v = m as i128;
            if neg {
                Some(-v)
            } else {
                Some(v)
            }
        },
        None => None,
    }
}

} // verus!
