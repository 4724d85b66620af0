//! Bitfield literals: each written field is looked up in the bitfield's
//! layout, range-checked against its width, and packed at its bit offset
//! into the repr integer. Every field is visited, so each bad one is
//! reported.
use vstd::prelude::*;

verus! {

/// A bitfield field's layout: its name, width in bits, and the bit offset
/// of its least significant bit.
#[derive(Clone, Debug, PartialEq, Eq)]
pub struct BitfieldField {
    pub name: String,
    pub bits: u32,
    pub lsb: u32,
}

/// A written field the literal cannot pack, by its position in the
/// literal.
#[derive(Clone, Copy, Debug, PartialEq, Eq, Structural)]
pub enum BitfieldIssue {
    /// No field of that name.
    UnknownField(usize),
    /// A value outside `0..=2^bits - 1`.
    OutOfRange(usize),
}

/// ``[bitfield T has no field `f`]``, the refusal of an unknown field name.
pub fn unknown_field_message(ty_name: &str, field: &str) -> (m: String)
    ensures
        m@ == "bitfield "@ + ty_name@ + " has no field `"@ + field@ + "`"@,
{
    let mut m = String::from_str("bitfield ");
    m.append(ty_name);
    m.append(" has no field `");
    m.append(field);
    m.append("`");
    m
}

/// The largest value a `bits`-wide field holds.
pub open spec fn field_max(bits: u32) -> i128 {
    ((1i128 << bits) - 1) as i128
}

/// Whether a layout can be packed without overflowing the mask or the
/// shift: every width below 127 bits and every offset below 128.
pub open spec fn layout_packable(layout: Seq<BitfieldField>) -> bool {
    forall|k: int| 0 <= k < layout.len() ==> (#[trigger] layout[k]).bits <= 126 && layout[k].lsb < 128
}

/// The first layout field named `name` from `k` on.
pub open spec fn field_from(layout: Seq<BitfieldField>, name: Seq<char>, k: int) -> Option<int>
    decreases layout.len() - k,
{
    if k < 0 || k >= layout.len() {
        None
    } else if layout[k].name@ == name {
        Some(k)
    } else {
        field_from(layout, name, k + 1)
    }
}

/// The repr integer and the issues after the first `n` written fields.
pub open spec fn pack_upto(layout: Seq<BitfieldField>, given: Seq<(String, i128)>, n: int) -> (i128, Seq<BitfieldIssue>)
    decreases n,
{
    if n <= 0 || n > given.len() {
        (0, Seq::empty())
    } else {
        let (p, issues) = pack_upto(layout, given, n - 1);
        let (name, v) = given[n - 1];
        match field_from(layout, name@, 0) {
            None => (p, issues.push(BitfieldIssue::UnknownField((n - 1) as usize))),
            Some(k) => if 0 <= v <= field_max(layout[k].bits) {
                (p | (v << layout[k].lsb), issues)
            } else {
                (p, issues.push(BitfieldIssue::OutOfRange((n - 1) as usize)))
            },
        }
    }
}

/// A bitfield literal's value: the written fields packed (an omitted field
/// is 0), or every field that could not be packed, in the literal's order.
pub open spec fn pack_spec(layout: Seq<BitfieldField>, given: Seq<(String, i128)>) -> Result<i128, Seq<BitfieldIssue>> {
    let (p, issues) = pack_upto(layout, given, given.len() as int);
    if issues.len() == 0 {
        Ok(p)
    } else {
        Err(issues)
    }
}

proof fn lemma_field_in_range(layout: Seq<BitfieldField>, name: Seq<char>, k: int)
    ensures
        field_from(layout, name, k) matches Some(j) ==> 0 <= k <= j < layout.len() && layout[j].name@ == name,
    decreases layout.len() - k,
{
    if 0 <= k < layout.len() && layout[k].name@ != name {
        lemma_field_in_range(layout, name, k + 1);
    }
}

fn find_field(layout: &[BitfieldField], name: &str) -> (r: Option<usize>)
    ensures
        r matches Some(k) ==> field_from(layout@, name@, 0) == Some(k as int) && k < layout@.len(),
        r is None ==> field_from(layout@, name@, 0) is None,
{
    let mut k: usize = 0;
    while k < layout.len()
        invariant
            k <= layout@.len(),
            field_from(layout@, name@, 0) == field_from(layout@, name@, k as int),
        decreases layout@.len() - k,
    {
        if crate::eval::text::str_eq(layout[k].name.as_str(), name) {
            return Some(k);
        }
        k = k + 1;
    }
    None
}

/// Pack a bitfield literal's written fields (see [`pack_spec`]).
pub fn pack_bitfield(layout: &[BitfieldField], given: &[(String, i128)]) -> (r: Result<i128, Vec<BitfieldIssue>>)
    requires
        layout_packable(layout@),
    ensures
        match pack_spec(layout@, given@) {
            Ok(p) => r == Ok::<i128, Vec<BitfieldIssue>>(p),
            Err(issues) => r matches Err(v) && v@ == issues,
        },
{
    let mut packed: i128 = 0;
    let mut issues: Vec<BitfieldIssue> = Vec::new();
    let mut i: usize = 0;
    while i < given.len()
        invariant
            i <= given@.len(),
            layout_packable(layout@),
            pack_upto(layout@, given@, i as int) == (packed, issues@),
        decreases given@.len() - i,
    {
        let (name, v) = &given[i];
        proof {
            lemma_field_in_range(layout@, name@, 0);
        }
        match find_field(layout, name.as_str()) {
            None => {
                issues.push(BitfieldIssue::UnknownField(i));
            },
            Some(k) => {
                let bits = layout[k].bits;
                let lsb = layout[k].lsb;
                assert(bits <= 126 && lsb < 128);
                let one_shifted: i128 = 1i128 << bits;
                assert(one_shifted > 0) by (bit_vector)
                    requires
                        one_shifted == 1i128 << bits,
                        bits <= 126,
                ;
                let max: i128 = one_shifted - 1;
                if 0 <= *v && *v <= max {
                    packed = packed | (*v << lsb);
                } else {
                    issues.push(BitfieldIssue::OutOfRange(i));
                }
            },
        }
        i = i + 1;
    }
    if issues.len() == 0 {
        Ok(packed)
    } else {
        Err(issues)
    }
}

/// Reading a field back out of a repr integer.
pub open spec fn field_read(p: i128, f: BitfieldField) -> i128 {
    (p >> f.lsb) & field_max(f.bits)
}

/// Whether the layout's fields fit below bit 127 and no two overlap.
pub open spec fn layout_disjoint(layout: Seq<BitfieldField>) -> bool {
    &&& forall|k: int| 0 <= k < layout.len() ==> (#[trigger] layout[k]).lsb as int + layout[k].bits as int <= 127
    &&& forall|j: int, k: int|
        0 <= j < layout.len() && 0 <= k < layout.len() && j != k ==> (#[trigger] layout[j]).lsb as int
            + layout[j].bits as int <= (#[trigger] layout[k]).lsb as int || layout[k].lsb as int + layout[k].bits as int
            <= layout[j].lsb as int
}

/// The value the first `n` written fields give layout field `k`: the one
/// written under its name, or 0.
pub open spec fn written(layout: Seq<BitfieldField>, given: Seq<(String, i128)>, n: int, k: int) -> i128
    decreases n,
{
    if n <= 0 || n > given.len() {
        0
    } else if field_from(layout, given[n - 1].0@, 0) == Some(k) {
        given[n - 1].1
    } else {
        written(layout, given, n - 1, k)
    }
}

proof fn lemma_shr_or(a: i128, b: i128, s: u32)
    requires
        s < 128,
    ensures
        (a | b) >> s == (a >> s) | (b >> s),
{
    assert((a | b) >> s == (a >> s) | (b >> s)) by (bit_vector)
        requires
            s < 128,
    ;
}

proof fn lemma_read_or(a: i128, b: i128, s: u32, m: i128)
    requires
        s < 128,
    ensures
        ((a | b) >> s) & m == ((a >> s) & m) | ((b >> s) & m),
{
    lemma_shr_or(a, b, s);
    let x = a >> s;
    let y = b >> s;
    assert((x | y) & m == (x & m) | (y & m)) by (bit_vector);
}

proof fn lemma_read_own(v: i128, s: u32, b: u32)
    requires
        b <= 126,
        s as int + b as int <= 127,
        0 <= v <= field_max(b),
    ensures
        ((v << s) >> s) & field_max(b) == v,
{
    let m = field_max(b);
    assert(((v << s) >> s) & m == v) by (bit_vector)
        requires
            b <= 126,
            s + b <= 127,
            m == ((1i128 << b) - 1) as i128,
            0 <= v <= m,
    ;
}

proof fn lemma_read_below(v: i128, sj: u32, bj: u32, sk: u32)
    requires
        bj <= 126,
        sj as int + bj as int <= sk as int,
        sk < 128,
        0 <= v <= field_max(bj),
    ensures
        (v << sj) >> sk == 0,
{
    let mj = field_max(bj);
    assert((v << sj) >> sk == 0) by (bit_vector)
        requires
            bj <= 126,
            sj + bj <= sk,
            sk < 128,
            mj == ((1i128 << bj) - 1) as i128,
            0 <= v <= mj,
    ;
}

proof fn lemma_read_above(v: i128, sj: u32, sk: u32, bk: u32)
    requires
        bk <= 126,
        sk as int + bk as int <= sj as int,
        sj < 128,
    ensures
        ((v << sj) >> sk) & field_max(bk) == 0,
{
    let mk = field_max(bk);
    assert(((v << sj) >> sk) & mk == 0) by (bit_vector)
        requires
            bk <= 126,
            sk + bk <= sj,
            sj < 128,
            mk == ((1i128 << bk) - 1) as i128,
    ;
}

proof fn lemma_read_other(v: i128, sj: u32, bj: u32, sk: u32, bk: u32)
    requires
        bj <= 126,
        bk <= 126,
        sj as int + bj as int <= 127,
        sk as int + bk as int <= 127,
        sj as int + bj as int <= sk as int || sk as int + bk as int <= sj as int,
        0 <= v <= field_max(bj),
    ensures
        ((v << sj) >> sk) & field_max(bk) == 0,
{
    if sj as int + bj as int <= sk as int {
        lemma_read_below(v, sj, bj, sk);
        let mk = field_max(bk);
        assert(0i128 & mk == 0) by (bit_vector);
    } else {
        lemma_read_above(v, sj, sk, bk);
    }
}

proof fn lemma_read_zero(s: u32, m: i128)
    requires
        s < 128,
    ensures
        (0i128 >> s) & m == 0,
{
    assert((0i128 >> s) & m == 0) by (bit_vector)
        requires
            s < 128,
    ;
}

proof fn lemma_or_zero(x: i128)
    ensures
        x | 0 == x,
        0 | x == x,
{
    assert(x | 0 == x && 0 | x == x) by (bit_vector);
}

/// Packing then reading back gives each field what was written for it:
/// when the layout's fields do not overlap and no field is written twice, a
/// packed literal reads back, field by field, the written value, and 0 for
/// a field the literal omits.
pub proof fn law_packed_fields_read_back(layout: Seq<BitfieldField>, given: Seq<(String, i128)>)
    requires
        layout_packable(layout),
        layout_disjoint(layout),
        forall|a: int, b: int| 0 <= a < b < given.len() ==> given[a].0@ != given[b].0@,
    ensures
        pack_spec(layout, given) matches Ok(p) ==> forall|k: int| 0 <= k < layout.len() ==> field_read(
            p,
            #[trigger] layout[k],
        ) == written(layout, given, given.len() as int, k),
{
    if pack_spec(layout, given) is Ok {
        lemma_read_back_upto(layout, given, given.len() as int);
    }
}

proof fn lemma_read_back_upto(layout: Seq<BitfieldField>, given: Seq<(String, i128)>, n: int)
    requires
        layout_packable(layout),
        layout_disjoint(layout),
        0 <= n <= given.len(),
        forall|a: int, b: int| 0 <= a < b < given.len() ==> given[a].0@ != given[b].0@,
        pack_upto(layout, given, n).1.len() == 0,
    ensures
        forall|k: int| 0 <= k < layout.len() ==> field_read(pack_upto(layout, given, n).0, #[trigger] layout[k])
            == written(layout, given, n, k),
    decreases n,
{
    if n == 0 {
        assert forall|k: int| 0 <= k < layout.len() implies field_read(pack_upto(layout, given, n).0, #[trigger] layout[k])
            == written(layout, given, n, k) by {
            lemma_read_zero(layout[k].lsb, field_max(layout[k].bits));
        }
    } else {
        let (p, issues) = pack_upto(layout, given, n - 1);
        let (name, v) = given[n - 1];
        lemma_field_in_range(layout, name@, 0);
        match field_from(layout, name@, 0) {
            None => {
                assert(pack_upto(layout, given, n).1.len() > 0);
            },
            Some(j) => {
                if !(0 <= v <= field_max(layout[j].bits)) {
                    assert(pack_upto(layout, given, n).1.len() > 0);
                } else {
                    assert(issues.len() == 0);
                    lemma_read_back_upto(layout, given, n - 1);
                    let fj = layout[j];
                    assert forall|k: int| 0 <= k < layout.len() implies field_read(
                        pack_upto(layout, given, n).0,
                        #[trigger] layout[k],
                    ) == written(layout, given, n, k) by {
                        let fk = layout[k];
                        lemma_read_or(p, v << fj.lsb, fk.lsb, field_max(fk.bits));
                        if k == j {
                            lemma_read_own(v, fj.lsb, fj.bits);
                            // No earlier field was written under this name.
                            lemma_unwritten(layout, given, n - 1, j);
                            assert(field_read(p, fk) == 0);
                            lemma_or_zero(v);
                        } else {
                            lemma_read_other(v, fj.lsb, fj.bits, fk.lsb, fk.bits);
                            lemma_or_zero(field_read(p, fk));
                        }
                    }
                }
            },
        }
    }
}

proof fn lemma_unwritten(layout: Seq<BitfieldField>, given: Seq<(String, i128)>, m: int, j: int)
    requires
        0 <= m < given.len(),
        forall|a: int, b: int| 0 <= a < b < given.len() ==> given[a].0@ != given[b].0@,
        field_from(layout, given[m].0@, 0) == Some(j),
    ensures
        written(layout, given, m, j) == 0,
{
    if m > 0 {
        lemma_unwritten_below(layout, given, m - 1, m, j);
    }
}

proof fn lemma_unwritten_below(layout: Seq<BitfieldField>, given: Seq<(String, i128)>, q: int, m: int, j: int)
    requires
        0 <= q < m < given.len(),
        forall|a: int, b: int| 0 <= a < b < given.len() ==> given[a].0@ != given[b].0@,
        field_from(layout, given[m].0@, 0) == Some(j),
    ensures
        written(layout, given, q + 1, j) == 0,
    decreases q,
{
    if q > 0 {
        lemma_unwritten_below(layout, given, q - 1, m, j);
    }
    lemma_field_in_range(layout, given[q].0@, 0);
    lemma_field_in_range(layout, given[m].0@, 0);
    if field_from(layout, given[q].0@, 0) == Some(j) {
        assert(given[q].0@ == layout[j].name@);
        assert(given[q].0@ != given[m].0@);
        assert(false);
    }
    assert(given[q + 1 - 1] == given[q]);
    assert(written(layout, given, q + 1, j) == written(layout, given, q, j));
}

} // verus!
