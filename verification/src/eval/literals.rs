//! Checked struct literals: which written field fills each declared field,
//! which falls back to its default under `..`, and what is reported for an
//! unknown, repeated or missing field; and the cycle report when a field's
//! default constructs the struct being built.
use crate::eval::emit::{field_names, unknown_field_msg};
use crate::eval::evaluator::chain_text;
use crate::eval::text::str_eq;
use vstd::prelude::*;

verus! {

/// Where a declared field's value comes from.
#[derive(Clone, Debug, PartialEq, Eq)]
pub enum FieldSource {
    /// The written field at this index of the literal.
    Provided(usize),
    /// The field's `= default`, elided under `..`.
    Default,
    /// Nothing: the report says why.
    Missing(String),
}

/// The plan of a checked struct literal: one optional report per written
/// field, in the literal's order, and one source per declared field, in
/// declaration order.
pub struct StructLitPlan {
    pub provided_reports: Vec<Option<String>>,
    pub fields: Vec<FieldSource>,
}

/// The report of a field written twice.
pub open spec fn duplicate_field_msg(ty: Seq<char>, field: Seq<char>) -> Seq<char> {
    "struct "@ + ty + ": field `"@ + field + "` given more than once"@
}

/// The report of a declared field neither written nor elided: it either
/// could have been elided with `..` (it has a default) or it has none.
pub open spec fn missing_literal_field_msg(ty: Seq<char>, field: Seq<char>, has_default: bool) -> Seq<char> {
    if has_default {
        "[struct.missing-field] struct "@ + ty + ": field `"@ + field
            + "` was not provided — add it, or elide it explicitly with `..` (it has a default)"@
    } else {
        "[struct.missing-field] struct "@ + ty + ": field `"@ + field + "` has no default and was not provided"@
    }
}

/// The declared fields as (name, has a default).
pub open spec fn decl_view(declared: Seq<(String, bool)>) -> Seq<(Seq<char>, bool)> {
    declared.map_values(|d: (String, bool)| (d.0@, d.1))
}

/// `name` is among the declared fields.
pub open spec fn is_declared(decl: Seq<(Seq<char>, bool)>, name: Seq<char>) -> bool {
    exists|i: int| 0 <= i < decl.len() && (#[trigger] decl[i]).0 == name
}

/// What the written field at `k` is reported for: not declared, or written
/// already; `None` when it is accepted.
pub open spec fn provided_report(ty: Seq<char>, decl: Seq<(Seq<char>, bool)>, written: Seq<Seq<char>>, k: int) -> Option<
    Seq<char>,
> {
    if !is_declared(decl, written[k]) {
        Some(unknown_field_msg(ty, written[k]))
    } else if exists|j: int| 0 <= j < k && written[j] == written[k] {
        Some(duplicate_field_msg(ty, written[k]))
    } else {
        None
    }
}

/// The source of a declared field (name, has a default): the first written
/// field of that name, else its default when the literal elides with `..`,
/// else missing.
pub open spec fn field_source_ok(src: FieldSource, ty: Seq<char>, d: (Seq<char>, bool), written: Seq<Seq<char>>, rest: bool) -> bool {
    if exists|k: int| 0 <= k < written.len() && written[k] == d.0 {
        src matches FieldSource::Provided(k) && k < written.len() && written[k as int] == d.0 && (forall|j: int|
            0 <= j < k ==> written[j] != d.0)
    } else if d.1 && rest {
        src == FieldSource::Default
    } else {
        src matches FieldSource::Missing(m) && m@ == missing_literal_field_msg(ty, d.0, d.1)
    }
}

fn declared_has(declared: &[(String, bool)], name: &str) -> (b: bool)
    ensures
        b == is_declared(decl_view(declared@), name@),
{
    let ghost dv = decl_view(declared@);
    let mut i: usize = 0;
    while i < declared.len()
        invariant
            i <= declared@.len(),
            dv == decl_view(declared@),
            forall|j: int| 0 <= j < i ==> dv[j].0 != name@,
        decreases declared@.len() - i,
    {
        if str_eq(declared[i].0.as_str(), name) {
            assert(dv[i as int].0 == name@);
            return true;
        }
        i = i + 1;
    }
    false
}

/// The first index below `end` where `written` holds `name`.
fn first_written(written: &[String], name: &str, end: usize) -> (r: Option<usize>)
    requires
        end <= written@.len(),
    ensures
        r matches Some(k) ==> k < end && written@[k as int]@ == name@ && forall|j: int| 0 <= j < k ==> written@[j]@ != name@,
        r is None ==> forall|j: int| 0 <= j < end ==> written@[j]@ != name@,
{
    let mut k: usize = 0;
    while k < end
        invariant
            k <= end <= written@.len(),
            forall|j: int| 0 <= j < k ==> written@[j]@ != name@,
        decreases end - k,
    {
        if str_eq(written[k].as_str(), name) {
            return Some(k);
        }
        k = k + 1;
    }
    None
}

/// Plan a checked struct literal of type `ty`: `declared` lists the
/// struct's fields (name, has a default) in declaration order, `written`
/// the literal's field names in order, and `rest` whether it ends in `..`.
/// A written field that is not declared, or that repeats an earlier one, is
/// reported and dropped; each declared field then takes its first written
/// value, else (under `..`) its default, else it is missing — elision is
/// explicit, so a defaulted field without `..` is missing too.
pub fn plan_struct_literal(ty: &str, declared: &[(String, bool)], written: &[String], rest: bool) -> (r:
    StructLitPlan)
    ensures
        r.provided_reports@.len() == written@.len(),
        forall|k: int|
            0 <= k < written@.len() ==> match #[trigger] provided_report(ty@, decl_view(declared@), field_names(written@), k) {
                Some(m) => r.provided_reports@[k] matches Some(s) && s@ == m,
                None => r.provided_reports@[k] is None,
            },
        r.fields@.len() == declared@.len(),
        forall|i: int|
            0 <= i < declared@.len() ==> field_source_ok(
                #[trigger] r.fields@[i],
                ty@,
                decl_view(declared@)[i],
                field_names(written@),
                rest,
            ),
{
    let ghost dv = decl_view(declared@);
    let ghost wv = field_names(written@);
    let mut reports: Vec<Option<String>> = Vec::new();
    let mut k: usize = 0;
    while k < written.len()
        invariant
            k <= written@.len(),
            dv == decl_view(declared@),
            wv == field_names(written@),
            reports@.len() == k,
            forall|q: int|
                0 <= q < k ==> match #[trigger] provided_report(ty@, dv, wv, q) {
                    Some(m) => reports@[q] matches Some(s) && s@ == m,
                    None => reports@[q] is None,
                },
        decreases written@.len() - k,
    {
        let name = written[k].as_str();
        assert(wv[k as int] == name@);
        if !declared_has(declared, name) {
            let mut m = String::from_str("[struct.unknown-field] struct ");
            m.append(ty);
            m.append(" has no field `");
            m.append(name);
            m.append("`");
            reports.push(Some(m));
        } else {
            match first_written(written, name, k) {
                Some(j) => {
                    assert(wv[j as int] == wv[k as int]);
                    let mut m = String::from_str("struct ");
                    m.append(ty);
                    m.append(": field `");
                    m.append(name);
                    m.append("` given more than once");
                    reports.push(Some(m));
                },
                None => {
                    assert(!exists|j: int| 0 <= j < k && wv[j] == wv[k as int]);
                    reports.push(None);
                },
            }
        }
        k = k + 1;
    }
    let mut fields: Vec<FieldSource> = Vec::new();
    let mut i: usize = 0;
    while i < declared.len()
        invariant
            i <= declared@.len(),
            dv == decl_view(declared@),
            wv == field_names(written@),
            fields@.len() == i,
            forall|q: int| 0 <= q < i ==> field_source_ok(#[trigger] fields@[q], ty@, dv[q], wv, rest),
        decreases declared@.len() - i,
    {
        let name = declared[i].0.as_str();
        let has_default = declared[i].1;
        assert(dv[i as int] == (name@, has_default));
        let src = match first_written(written, name, written.len()) {
            Some(j) => {
                assert(wv[j as int] == name@);
                FieldSource::Provided(j)
            },
            None => {
                assert(!exists|q: int| 0 <= q < wv.len() && wv[q] == name@);
                if has_default && rest {
                    FieldSource::Default
                } else {
                    let mut m = String::from_str("[struct.missing-field] struct ");
                    m.append(ty);
                    m.append(": field `");
                    m.append(name);
                    if has_default {
                        m.append(
                            "` was not provided — add it, or elide it explicitly with `..` (it has a default)",
                        );
                    } else {
                        m.append("` has no default and was not provided");
                    }
                    FieldSource::Missing(m)
                }
            },
        };
        fields.push(src);
        assert(fields@[i as int] == src);
        i = i + 1;
    }
    StructLitPlan { provided_reports: reports, fields }
}

/// The report when a struct's construction re-enters itself (a field's
/// default builds the same struct): the whole chain of constructions in
/// progress, then the struct again.
pub open spec fn cyclic_construction_msg(in_progress: Seq<Seq<char>>, ty: Seq<char>) -> Seq<char> {
    "cyclic struct construction: "@ + chain_text(in_progress.push(ty))
}

/// The cycle report for constructing `ty` while `in_progress` are being
/// constructed (innermost last), or `None` when `ty` is not among them.
pub fn construction_cycle(in_progress: &[String], ty: &str) -> (r: Option<String>)
    ensures
        !field_names(in_progress@).contains(ty@) ==> r is None,
        field_names(in_progress@).contains(ty@) ==> (r matches Some(m) && m@ == cyclic_construction_msg(
            field_names(in_progress@),
            ty@,
        )),
{
    let ghost sv = field_names(in_progress@);
    match first_written(in_progress, ty, in_progress.len()) {
        None => {
            assert(!sv.contains(ty@));
            None
        },
        Some(j) => {
            assert(sv[j as int] == ty@);
            assert(sv.contains(ty@));
            let mut m = String::from_str("cyclic struct construction: ");
            let mut k: usize = 0;
            while k < in_progress.len()
                invariant
                    k <= in_progress@.len(),
                    sv == field_names(in_progress@),
                    m@ == "cyclic struct construction: "@ + chain_text(sv.subrange(0, k as int)),
                decreases in_progress@.len() - k,
            {
                proof {
                    assert(sv.subrange(0, k + 1).drop_last() =~= sv.subrange(0, k as int));
                    assert(sv.subrange(0, k + 1).last() == in_progress@[k as int]@);
                }
                if k > 0 {
                    m.append(" -> ");
                }
                m.append(in_progress[k].as_str());
                proof {
                    if k == 0 {
                        assert(sv.subrange(0, 0) =~= Seq::<Seq<char>>::empty());
                        assert(chain_text(sv.subrange(0, 1)) == sv.subrange(0, 1)[0]);
                    }
                }
                assert(m@ =~= "cyclic struct construction: "@ + chain_text(sv.subrange(0, k + 1)));
                k = k + 1;
            }
            assert(sv.subrange(0, sv.len() as int) =~= sv);
            assert(sv.len() > 0);
            m.append(" -> ");
            m.append(ty);
            assert(sv.push(ty@).drop_last() =~= sv);
            assert(m@ =~= cyclic_construction_msg(sv, ty@));
            Some(m)
        },
    }
}

/// Every written field that is accepted (declared, and not a repeat) is the
/// value of a declared field: nothing accepted is silently dropped.
pub proof fn law_accepted_fields_are_used(
    ty: Seq<char>,
    decl: Seq<(Seq<char>, bool)>,
    written: Seq<Seq<char>>,
    rest: bool,
    sources: Seq<FieldSource>,
    k: int,
)
    requires
        sources.len() == decl.len(),
        forall|i: int| 0 <= i < decl.len() ==> field_source_ok(#[trigger] sources[i], ty, decl[i], written, rest),
        0 <= k < written.len(),
        provided_report(ty, decl, written, k) is None,
    ensures
        exists|i: int| 0 <= i < decl.len() && decl[i].0 == written[k] && sources[i] == FieldSource::Provided(k as usize),
{
    let i = choose|i: int| 0 <= i < decl.len() && (#[trigger] decl[i]).0 == written[k];
    assert(field_source_ok(sources[i], ty, decl[i], written, rest));
    assert(exists|q: int| 0 <= q < written.len() && written[q] == decl[i].0);
    let q = sources[i]->Provided_0;
    assert(written[q as int] == written[k]);
    if (q as int) < k {
        assert(exists|j: int| 0 <= j < k && written[j] == written[k]);
    }
    assert(q as int == k);
}

} // verus!
