//! Comptime enum discriminants and the closed cast `Name(n)`: each variant
//! has its explicit discriminant, or one more than the previous variant's
//! (the first starting at 0), and a cast picks the first variant whose
//! discriminant is `n`.
use crate::eval::text::{push_signed_decimal, signed_dec};
use vstd::prelude::*;

verus! {

/// The discriminant of variant `idx`, given for each variant its explicit
/// discriminant (`Some(Some(n))`), an explicit discriminant that did not
/// evaluate to an integer (`Some(None)`), or none (`None`): explicit values
/// stand, an unusable one gives no value, and an implicit one is the
/// previous variant's plus one (0 for the first), none when the previous has
/// none.
pub open spec fn discriminant(explicit: Seq<Option<Option<i128>>>, idx: int) -> Option<int>
    decreases idx,
{
    if idx < 0 || idx >= explicit.len() {
        None
    } else {
        match explicit[idx] {
            Some(Some(n)) => Some(n as int),
            Some(None) => None,
            None => if idx == 0 {
                Some(0)
            } else {
                match discriminant(explicit, idx - 1) {
                    Some(v) => Some(v + 1),
                    None => None,
                }
            },
        }
    }
}

/// Whether every implicit discriminant stays in the 128-bit range (an
/// implicit successor of `i128::MAX` overflows).
pub open spec fn discriminants_fit(explicit: Seq<Option<Option<i128>>>) -> bool {
    forall|idx: int| 0 <= idx < explicit.len() ==> (#[trigger] discriminant(explicit, idx) matches Some(v) ==> i128::MIN
        <= v <= i128::MAX)
}

/// The discriminant of every variant (see [`discriminant`]).
pub fn enum_discriminants(explicit: &[Option<Option<i128>>]) -> (r: Vec<Option<i128>>)
    requires
        discriminants_fit(explicit@),
    ensures
        r@.len() == explicit@.len(),
        forall|idx: int| 0 <= idx < r@.len() ==> match discriminant(explicit@, idx) {
            Some(v) => #[trigger] r@[idx] == Some(v as i128),
            None => r@[idx] is None,
        },
{
    let mut out: Vec<Option<i128>> = Vec::new();
    let mut i: usize = 0;
    while i < explicit.len()
        invariant
            i <= explicit@.len(),
            out@.len() == i,
            discriminants_fit(explicit@),
            forall|idx: int| 0 <= idx < i ==> match discriminant(explicit@, idx) {
                Some(v) => #[trigger] out@[idx] == Some(v as i128),
                None => out@[idx] is None,
            },
        decreases explicit@.len() - i,
    {
        let d: Option<i128> = match explicit[i] {
            Some(e) => e,
            None => {
                if i == 0 {
                    Some(0)
                } else {
                    match out[i - 1] {
                        Some(v) => {
                            assert(discriminant(explicit@, i as int) == Some(v + 1));
                            assert(v + 1 <= i128::MAX);
                            Some(v + 1)
                        },
                        None => None,
                    }
                }
            },
        };
        out.push(d);
        i = i + 1;
    }
    out
}

/// The closed cast `Name(n)` on discriminants: the first variant whose
/// discriminant is `n`, else `[enum.out-of-range] n is not a variant of
/// Name`.
pub fn cast_enum(name: &str, discriminants: &[Option<i128>], n: i128) -> (r: Result<usize, String>)
    ensures
        r matches Ok(k) ==> k < discriminants@.len() && discriminants@[k as int] == Some(n) && forall|j: int|
            0 <= j < k ==> discriminants@[j] != Some(n),
        r is Err ==> forall|j: int| 0 <= j < discriminants@.len() ==> discriminants@[j] != Some(n),
        r matches Err(m) ==> m@ == "[enum.out-of-range] "@ + signed_dec(n as int) + " is not a variant of "@ + name@,
{
    let mut k: usize = 0;
    while k < discriminants.len()
        invariant
            k <= discriminants@.len(),
            forall|j: int| 0 <= j < k ==> discriminants@[j] != Some(n),
        decreases discriminants@.len() - k,
    {
        if discriminants[k] == Some(n) {
            return Ok(k);
        }
        k = k + 1;
    }
    let mut m = String::from_str("[enum.out-of-range] ");
    push_signed_decimal(&mut m, n);
    m.append(" is not a variant of ");
    m.append(name);
    Err(m)
}

} // verus!
