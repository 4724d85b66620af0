//! Character-level helpers shared by the FSTRING encoder and the numeric
//! literal parsers: Unicode whitespace and trimming, first-occurrence search,
//! ASCII case folding, radix digit parsing (the `from_str_radix` grammar) and
//! decimal / hex rendering of numbers into message text.
use vstd::prelude::*;

verus! {

/// Unicode `White_Space` — the set `char::is_whitespace` recognizes.
pub open spec fn is_ws(c: char) -> bool {
    ||| '\u{9}' <= c <= '\u{d}'
    ||| c == ' '
    ||| c == '\u{85}'
    ||| c == '\u{a0}'
    ||| c == '\u{1680}'
    ||| '\u{2000}' <= c <= '\u{200a}'
    ||| c == '\u{2028}'
    ||| c == '\u{2029}'
    ||| c == '\u{202f}'
    ||| c == '\u{205f}'
    ||| c == '\u{3000}'
}

/// `char::is_whitespace`.
pub fn is_whitespace(c: char) -> (b: bool)
    ensures
        b == is_ws(c),
{
    ('\u{9}' <= c && c <= '\u{d}') || c == ' ' || c == '\u{85}' || c == '\u{a0}' || c == '\u{1680}'
        || ('\u{2000}' <= c && c <= '\u{200a}') || c == '\u{2028}' || c == '\u{2029}' || c
        == '\u{202f}' || c == '\u{205f}' || c == '\u{3000}'
}

/// `t` with its leading whitespace removed.
pub open spec fn trim_start(t: Seq<char>) -> Seq<char>
    decreases t.len(),
{
    if t.len() > 0 && is_ws(t[0]) {
        trim_start(t.drop_first())
    } else {
        t
    }
}

/// `t` with its trailing whitespace removed.
pub open spec fn trim_end(t: Seq<char>) -> Seq<char>
    decreases t.len(),
{
    if t.len() > 0 && is_ws(t.last()) {
        trim_end(t.drop_last())
    } else {
        t
    }
}

/// `str::trim`: both ends stripped of whitespace.
pub open spec fn trim(t: Seq<char>) -> Seq<char> {
    trim_end(trim_start(t))
}

/// The index of the first `c` in `t`, if any.
#[verifier::opaque]
pub open spec fn first_of(t: Seq<char>, c: char) -> Option<int> {
    if exists|k: int| 0 <= k < t.len() && t[k] == c {
        Some(choose|k: int| 0 <= k < t.len() && t[k] == c && forall|j: int| 0 <= j < k ==> t[j] != c)
    } else {
        None
    }
}

/// The index of the first whitespace character in `t`, if any.
#[verifier::opaque]
pub open spec fn first_ws(t: Seq<char>) -> Option<int> {
    if exists|k: int| 0 <= k < t.len() && is_ws(t[k]) {
        Some(
            choose|k: int|
                0 <= k < t.len() && is_ws(t[k]) && forall|j: int| 0 <= j < k ==> !is_ws(t[j]),
        )
    } else {
        None
    }
}

/// `splitn(2, char::is_whitespace)`: the text before the first whitespace
/// character, and the text after it (`None` when there is no whitespace).
pub open spec fn split_ws(t: Seq<char>) -> (Seq<char>, Option<Seq<char>>) {
    match first_ws(t) {
        Some(k) => (t.subrange(0, k), Some(t.subrange(k + 1, t.len() as int))),
        None => (t, None),
    }
}

/// Collect the characters of `s`.
pub fn chars_of(s: &str) -> (cs: Vec<char>)
    ensures
        cs@ == s@,
{
    let n = s.unicode_len();
    let mut cs: Vec<char> = Vec::new();
    let mut i: usize = 0;
    while i < n
        invariant
            i <= n,
            n == s@.len(),
            cs@ == s@.subrange(0, i as int),
        decreases n - i,
    {
        cs.push(s.get_char(i));
        i = i + 1;
        assert(cs@ =~= s@.subrange(0, i as int));
    }
    assert(cs@ =~= s@);
    cs
}

/// The trimmed sub-range of `cs[a..b]`: `cs[lo..hi] == trim(cs[a..b])`.
pub fn trim_range(cs: &Vec<char>, a: usize, b: usize) -> (r: (usize, usize))
    requires
        a <= b <= cs@.len(),
    ensures
        a <= r.0 <= r.1 <= b,
        cs@.subrange(r.0 as int, r.1 as int) == trim(cs@.subrange(a as int, b as int)),
{
    let mut lo = a;
    while lo < b && is_whitespace(cs[lo])
        invariant
            a <= lo <= b <= cs@.len(),
            trim_start(cs@.subrange(a as int, b as int)) == trim_start(
                cs@.subrange(lo as int, b as int),
            ),
        decreases b - lo,
    {
        assert(cs@.subrange(lo as int, b as int).drop_first() =~= cs@.subrange(
            lo + 1,
            b as int,
        ));
        lo = lo + 1;
    }
    let mut hi = b;
    while hi > lo && is_whitespace(cs[hi - 1])
        invariant
            a <= lo <= hi <= b <= cs@.len(),
            trim_end(cs@.subrange(lo as int, b as int)) == trim_end(
                cs@.subrange(lo as int, hi as int),
            ),
        decreases hi,
    {
        assert(cs@.subrange(lo as int, hi as int).drop_last() =~= cs@.subrange(
            lo as int,
            hi - 1,
        ));
        hi = hi - 1;
    }
    (lo, hi)
}

/// The first `c` in `cs[a..b]`, as an absolute index.
pub fn find_char(cs: &Vec<char>, a: usize, b: usize, c: char) -> (r: Option<usize>)
    requires
        a <= b <= cs@.len(),
    ensures
        match first_of(cs@.subrange(a as int, b as int), c) {
            Some(k) => 0 <= k && k + a < b && r == Some((k + a) as usize),
            None => r is None,
        },
        match r {
            Some(i) => a <= i < b && cs@[i as int] == c && forall|j: int|
                a <= j < i ==> cs@[j] != c,
            None => forall|j: int| a <= j < b ==> cs@[j] != c,
        },
{
    reveal(first_of);
    let ghost t = cs@.subrange(a as int, b as int);
    let mut i = a;
    while i < b
        invariant
            a <= i <= b <= cs@.len(),
            t == cs@.subrange(a as int, b as int),
            forall|j: int| 0 <= j < i - a ==> t[j] != c,
            forall|j: int| a <= j < i ==> cs@[j] != c,
        decreases b - i,
    {
        if cs[i] == c {
            let ghost k = i - a;
            assert(t[k] == c);
            assert(first_of(t, c) == Some(k)) by {
                reveal(first_of);
                let w = choose|w: int| 0 <= w < t.len() && t[w] == c && forall|j: int| 0 <= j < w ==> t[j] != c;
                assert(0 <= w < t.len() && t[w] == c && forall|j: int| 0 <= j < w ==> t[j] != c);
                if w < k {
                } else if w > k {
                    assert(t[k] != c);
                }
            }
            return Some(i);
        }
        i = i + 1;
    }
    None
}

/// The first whitespace character in `cs[a..b]`, as an absolute index.
pub fn find_ws(cs: &Vec<char>, a: usize, b: usize) -> (r: Option<usize>)
    requires
        a <= b <= cs@.len(),
    ensures
        match first_ws(cs@.subrange(a as int, b as int)) {
            Some(k) => 0 <= k && k + a < b && r == Some((k + a) as usize),
            None => r is None,
        },
        match r {
            Some(i) => a <= i < b && is_ws(cs@[i as int]) && forall|j: int|
                a <= j < i ==> !is_ws(cs@[j]),
            None => forall|j: int| a <= j < b ==> !is_ws(cs@[j]),
        },
{
    reveal(first_ws);
    let ghost t = cs@.subrange(a as int, b as int);
    let mut i = a;
    while i < b
        invariant
            a <= i <= b <= cs@.len(),
            t == cs@.subrange(a as int, b as int),
            forall|j: int| 0 <= j < i - a ==> !is_ws(t[j]),
            forall|j: int| a <= j < i ==> !is_ws(cs@[j]),
        decreases b - i,
    {
        if is_whitespace(cs[i]) {
            let ghost k = i - a;
            assert(is_ws(t[k]));
            assert(first_ws(t) == Some(k)) by {
                reveal(first_ws);
                let w = choose|w: int|
                    0 <= w < t.len() && is_ws(t[w]) && forall|j: int| 0 <= j < w ==> !is_ws(t[j]);
                assert(0 <= w < t.len() && is_ws(t[w]) && forall|j: int|
                    0 <= j < w ==> !is_ws(t[j]));
                if w > k {
                    assert(!is_ws(t[k]));
                }
            }
            return Some(i);
        }
        i = i + 1;
    }
    None
}

/// Whether `cs[a..b]` spells exactly `lit`.
pub fn range_eq(cs: &Vec<char>, a: usize, b: usize, lit: &[char]) -> (r: bool)
    requires
        a <= b <= cs@.len(),
    ensures
        r == (cs@.subrange(a as int, b as int) == lit@),
{
    if b - a != lit.len() {
        assert(cs@.subrange(a as int, b as int).len() != lit@.len());
        return false;
    }
    let mut i: usize = 0;
    while i < lit.len()
        invariant
            i <= lit@.len(),
            b - a == lit@.len(),
            a <= b <= cs@.len(),
            forall|j: int| 0 <= j < i ==> cs@[a + j] == lit@[j],
        decreases lit@.len() - i,
    {
        if cs[a + i] != lit[i] {
            assert(cs@.subrange(a as int, b as int)[i as int] != lit@[i as int]);
            return false;
        }
        i = i + 1;
    }
    assert(cs@.subrange(a as int, b as int) =~= lit@);
    true
}

/// `u8::to_ascii_lowercase`.
pub open spec fn lower_byte(b: u8) -> u8 {
    if 65 <= b <= 90 {
        (b + 32) as u8
    } else {
        b
    }
}

/// Append `bytes` to `out`.
pub fn push_bytes(out: &mut Vec<u8>, bytes: &[u8])
    ensures
        final(out)@ == old(out)@ + bytes@,
{
    let mut i: usize = 0;
    while i < bytes.len()
        invariant
            i <= bytes@.len(),
            out@ == old(out)@ + bytes@.subrange(0, i as int),
        decreases bytes@.len() - i,
    {
        out.push(bytes[i]);
        i = i + 1;
        assert(out@ =~= old(out)@ + bytes@.subrange(0, i as int));
    }
    assert(bytes@.subrange(0, bytes@.len() as int) =~= bytes@);
}

/// Append `bytes` to `out`, ASCII-lowercased (`str::to_ascii_lowercase`).
pub fn push_lowercased(out: &mut Vec<u8>, bytes: &[u8])
    ensures
        final(out)@ == old(out)@ + bytes@.map_values(|b: u8| lower_byte(b)),
{
    let mut i: usize = 0;
    while i < bytes.len()
        invariant
            i <= bytes@.len(),
            out@ == old(out)@ + bytes@.subrange(0, i as int).map_values(|b: u8| lower_byte(b)),
        decreases bytes@.len() - i,
    {
        let b = bytes[i];
        let l = if 65 <= b && b <= 90 {
            b + 32
        } else {
            b
        };
        out.push(l);
        i = i + 1;
        assert(out@ =~= old(out)@ + bytes@.subrange(0, i as int).map_values(
            |b: u8| lower_byte(b),
        ));
    }
    assert(bytes@.subrange(0, bytes@.len() as int) =~= bytes@);
}

/// The value of one digit character in `radix` (2, 10 or 16), as
/// `char::to_digit` reads it.
pub open spec fn digit_value(c: char, radix: nat) -> Option<nat> {
    let v = (c as u32) as int;
    if 48 <= v <= 57 && v - 48 < radix {
        Some((v - 48) as nat)
    } else if radix == 16 && 97 <= v <= 102 {
        Some((v - 87) as nat)
    } else if radix == 16 && 65 <= v <= 70 {
        Some((v - 55) as nat)
    } else {
        None
    }
}

/// The value of a digit string in `radix`; `None` when any character is not
/// a digit. The empty string is worth 0.
pub open spec fn digits_value(d: Seq<char>, radix: nat) -> Option<nat>
    decreases d.len(),
{
    if d.len() == 0 {
        Some(0)
    } else {
        match (digits_value(d.drop_last(), radix), digit_value(d.last(), radix)) {
            (Some(v), Some(x)) => Some(v * radix + x),
            _ => None,
        }
    }
}

/// `from_str_radix` for an unsigned integer whose largest value is `max`:
/// an optional leading `+`, then at least one digit, and no overflow.
pub open spec fn parse_radix(s: Seq<char>, radix: nat, max: nat) -> Option<nat> {
    let d = if s.len() > 0 && s[0] == '+' {
        s.drop_first()
    } else {
        s
    };
    if d.len() == 0 {
        None
    } else {
        match digits_value(d, radix) {
            Some(v) => if v <= max {
                Some(v)
            } else {
                None
            },
            None => None,
        }
    }
}

proof fn lemma_digits_prefix(d: Seq<char>, radix: nat, k: int)
    requires
        0 <= k <= d.len(),
        radix >= 2,
    ensures
        digits_value(d, radix) is Some ==> digits_value(d.subrange(0, k), radix) is Some
            && digits_value(d.subrange(0, k), radix)->0 <= digits_value(d, radix)->0,
        digits_value(d.subrange(0, k), radix) is None ==> digits_value(d, radix) is None,
    decreases d.len() - k,
{
    if k < d.len() {
        lemma_digits_prefix(d.drop_last(), radix, k);
        assert(d.drop_last().subrange(0, k) =~= d.subrange(0, k));
        if let (Some(v), Some(x)) = (digits_value(d.drop_last(), radix), digit_value(d.last(), radix)) {
            assert(v * radix + x >= v) by (nonlinear_arith)
                requires
                    radix >= 2,
            ;
        }
    } else {
        assert(d.subrange(0, k) =~= d);
    }
}

/// The digits of `cs[a..b]` read in `radix`, when the value fits `max`.
pub fn digits_in_range(cs: &Vec<char>, a: usize, b: usize, radix: u128, max: u128) -> (r: Option<u128>)
    requires
        a <= b <= cs@.len(),
        radix == 2 || radix == 10 || radix == 16,
        max >= 15,
    ensures
        ({
            let d = cs@.subrange(a as int, b as int);
            match digits_value(d, radix as nat) {
                Some(v) => if v <= max {
                    r == Some(v as u128)
                } else {
                    r is None
                },
                None => r is None,
            }
        }),
{
    let ghost d = cs@.subrange(a as int, b as int);
    let mut acc: u128 = 0;
    let mut i = a;
    while i < b
        invariant
            a <= i <= b <= cs@.len(),
            d == cs@.subrange(a as int, b as int),
            radix == 2 || radix == 10 || radix == 16,
            max >= 15,
            digits_value(d.subrange(0, i - a), radix as nat) == Some(acc as nat),
            acc <= max,
        decreases b - i,
    {
        let c = cs[i];
        let v = c as u32;
        let x: u128 = if 48 <= v && v <= 57 && ((v - 48) as u128) < radix {
            (v - 48) as u128
        } else if radix == 16 && 97 <= v && v <= 102 {
            (v - 87) as u128
        } else if radix == 16 && 65 <= v && v <= 70 {
            (v - 55) as u128
        } else {
            proof {
                assert(d.subrange(0, i + 1 - a).drop_last() =~= d.subrange(0, i - a));
                lemma_digits_prefix(d, radix as nat, i + 1 - a);
            }
            return None;
        };
        assert(digit_value(c, radix as nat) == Some(x as nat));
        assert(d.subrange(0, i + 1 - a).drop_last() =~= d.subrange(0, i - a));
        assert(d.subrange(0, i + 1 - a).last() == c);
        let lim = (max - x) / radix;
        if acc > lim {
            proof {
                assert(acc * radix + x > max) by (nonlinear_arith)
                    requires
                        acc > lim,
                        lim as int == (max as int - x as int) / (radix as int),
                        radix >= 2,
                        x <= max,
                ;
                lemma_digits_prefix(d, radix as nat, i + 1 - a);
            }
            return None;
        }
        assert(acc * radix + x <= max) by (nonlinear_arith)
            requires
                acc <= lim,
                lim as int == (max as int - x as int) / (radix as int),
                radix >= 2,
                x <= max,
        ;
        acc = acc * radix + x;
        i = i + 1;
    }
    assert(d.subrange(0, b - a) =~= d);
    Some(acc)
}

/// `u64::from_str_radix(cs[a..b], radix)` reduced to "the value, if any".
pub fn parse_radix_range(cs: &Vec<char>, a: usize, b: usize, radix: u64, max: u64) -> (r: Option<u64>)
    requires
        a <= b <= cs@.len(),
        radix == 2 || radix == 10 || radix == 16,
        max >= 15,
    ensures
        match parse_radix(cs@.subrange(a as int, b as int), radix as nat, max as nat) {
            Some(v) => r == Some(v as u64),
            None => r is None,
        },
{
    let ghost s = cs@.subrange(a as int, b as int);
    let mut start = a;
    if a < b && cs[a] == '+' {
        start = a + 1;
        assert(s.drop_first() =~= cs@.subrange(start as int, b as int));
    } else {
        assert(s =~= cs@.subrange(start as int, b as int));
    }
    if start == b {
        return None;
    }
    match digits_in_range(cs, start, b, radix as u128, max as u128) {
        Some(v) => Some(v as u64),
        None => None,
    }
}

/// The decimal digits of `n`.
pub open spec fn dec_digits(n: nat) -> Seq<char>
    decreases n,
{
    if n < 10 {
        seq![digit_char(n)]
    } else {
        dec_digits(n / 10).push(digit_char(n % 10))
    }
}

/// The (upper-case) character of a digit below 16.
pub open spec fn digit_char(d: nat) -> char {
    if d < 10 {
        ((d + 48) as u32) as char
    } else {
        ((d + 55) as u32) as char
    }
}

/// The one-character text of a digit below 16 (upper-case hex letters).
fn digit_str(d: u64) -> (s: &'static str)
    requires
        d < 16,
    ensures
        s@ == seq![digit_char(d as nat)],
{
    proof {
        reveal_strlit("0");
        reveal_strlit("1");
        reveal_strlit("2");
        reveal_strlit("3");
        reveal_strlit("4");
        reveal_strlit("5");
        reveal_strlit("6");
        reveal_strlit("7");
        reveal_strlit("8");
        reveal_strlit("9");
        reveal_strlit("A");
        reveal_strlit("B");
        reveal_strlit("C");
        reveal_strlit("D");
        reveal_strlit("E");
        reveal_strlit("F");
    }
    let s = match d {
        0 => "0",
        1 => "1",
        2 => "2",
        3 => "3",
        4 => "4",
        5 => "5",
        6 => "6",
        7 => "7",
        8 => "8",
        9 => "9",
        10 => "A",
        11 => "B",
        12 => "C",
        13 => "D",
        14 => "E",
        _ => "F",
    };
    assert(s@ =~= seq![digit_char(d as nat)]);
    s
}

/// Append the decimal rendering of `n` to `out`.
pub fn push_decimal(out: &mut String, n: u64)
    ensures
        final(out)@ == old(out)@ + dec_digits(n as nat),
    decreases n,
{
    if n >= 10 {
        push_decimal(out, n / 10);
    }
    out.append(digit_str(n % 10));
    assert(out@ =~= old(out)@ + dec_digits(n as nat));
}

/// Append the decimal rendering of a 128-bit `n` to `out`.
pub fn push_decimal_u128(out: &mut String, n: u128)
    ensures
        final(out)@ == old(out)@ + dec_digits(n as nat),
    decreases n,
{
    if n >= 10 {
        push_decimal_u128(out, n / 10);
    }
    out.append(digit_str((n % 10) as u64));
    assert(out@ =~= old(out)@ + dec_digits(n as nat));
}

/// The decimal text of a signed integer: a minus sign before the digits of
/// its magnitude when negative.
pub open spec fn signed_dec(v: int) -> Seq<char> {
    if v < 0 {
        seq!['-'] + dec_digits((-v) as nat)
    } else {
        dec_digits(v as nat)
    }
}

/// Append the decimal rendering of `v` (`{v}`) to `out`.
pub fn push_signed_decimal(out: &mut String, v: i128)
    ensures
        final(out)@ == old(out)@ + signed_dec(v as int),
{
    if v < 0 {
        proof {
            reveal_strlit("-");
        }
        out.append("-");
        let m: u128 = if v == i128::MIN {
            0x8000_0000_0000_0000_0000_0000_0000_0000u128
        } else {
            (-v) as u128
        };
        push_decimal_u128(out, m);
        assert(out@ =~= old(out)@ + signed_dec(v as int));
    } else {
        push_decimal_u128(out, v as u128);
    }
}

/// The lower-case character of a digit below 16.
pub open spec fn lower_hex_char(d: nat) -> char {
    if d < 10 {
        ((d + 48) as u32) as char
    } else {
        ((d + 87) as u32) as char
    }
}

/// The lower-case hexadecimal digits of `n`.
pub open spec fn lower_hex_digits(n: nat) -> Seq<char>
    decreases n,
{
    if n < 16 {
        seq![lower_hex_char(n)]
    } else {
        lower_hex_digits(n / 16).push(lower_hex_char(n % 16))
    }
}

/// The one-character text of a digit below 16, hex letters lower-case.
fn lower_digit_str(d: u64) -> (s: &'static str)
    requires
        d < 16,
    ensures
        s@ == seq![lower_hex_char(d as nat)],
{
    proof {
        reveal_strlit("0");
        reveal_strlit("1");
        reveal_strlit("2");
        reveal_strlit("3");
        reveal_strlit("4");
        reveal_strlit("5");
        reveal_strlit("6");
        reveal_strlit("7");
        reveal_strlit("8");
        reveal_strlit("9");
        reveal_strlit("a");
        reveal_strlit("b");
        reveal_strlit("c");
        reveal_strlit("d");
        reveal_strlit("e");
        reveal_strlit("f");
    }
    let s = match d {
        0 => "0",
        1 => "1",
        2 => "2",
        3 => "3",
        4 => "4",
        5 => "5",
        6 => "6",
        7 => "7",
        8 => "8",
        9 => "9",
        10 => "a",
        11 => "b",
        12 => "c",
        13 => "d",
        14 => "e",
        _ => "f",
    };
    assert(s@ =~= seq![lower_hex_char(d as nat)]);
    s
}

/// Append the lower-case hexadecimal digits of `n` (`{n:x}`) to `out`.
pub fn push_lower_hex(out: &mut String, n: u128)
    ensures
        final(out)@ == old(out)@ + lower_hex_digits(n as nat),
    decreases n,
{
    if n >= 16 {
        push_lower_hex(out, n / 16);
    }
    out.append(lower_digit_str((n % 16) as u64));
    assert(out@ =~= old(out)@ + lower_hex_digits(n as nat));
}

/// The upper-case hexadecimal digits of `n`.
pub open spec fn upper_hex_digits(n: nat) -> Seq<char>
    decreases n,
{
    if n < 16 {
        seq![digit_char(n)]
    } else {
        upper_hex_digits(n / 16).push(digit_char(n % 16))
    }
}

/// Append the upper-case hexadecimal digits of `n` (`{n:X}`) to `out`.
pub fn push_upper_hex(out: &mut String, n: u128)
    ensures
        final(out)@ == old(out)@ + upper_hex_digits(n as nat),
    decreases n,
{
    if n >= 16 {
        push_upper_hex(out, n / 16);
    }
    out.append(digit_str((n % 16) as u64));
    assert(out@ =~= old(out)@ + upper_hex_digits(n as nat));
}

/// Append the two upper-case hex digits of `b` (`{b:02X}`) to `out`.
pub fn push_hex2(out: &mut String, b: u8)
    ensures
        final(out)@ == old(out)@ + seq![digit_char(b as nat / 16), digit_char(b as nat % 16)],
{
    out.append(digit_str((b / 16) as u64));
    out.append(digit_str((b % 16) as u64));
    assert(out@ =~= old(out)@ + seq![digit_char(b as nat / 16), digit_char(b as nat % 16)]);
}


/// `String::push`: appends the character `c` to the end of `s`, as std
/// documents it.
#[verifier::external_body]
pub(crate) fn push_char(s: &mut String, c: char)
    ensures
        final(s)@ == old(s)@.push(c),
{
    s.push(c);
}

/// Whether two texts are the same.
pub fn str_eq(a: &str, b: &str) -> (r: bool)
    ensures
        r == (a@ == b@),
{
    let n = a.unicode_len();
    if n != b.unicode_len() {
        return false;
    }
    let mut i: usize = 0;
    while i < n
        invariant
            i <= n,
            n == a@.len(),
            n == b@.len(),
            forall|j: int| 0 <= j < i ==> a@[j] == b@[j],
        decreases n - i,
    {
        if a.get_char(i) != b.get_char(i) {
            return false;
        }
        i = i + 1;
    }
    assert(a@ =~= b@);
    true
}

} // verus!
