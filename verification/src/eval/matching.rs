//! The static check of a `match` on an enum: every variant an arm names
//! must exist, and together the arms must cover every variant (a wildcard
//! or binding arm covers all the rest).
use crate::ast::Pattern;
use crate::value::Span;
use vstd::prelude::*;

verus! {

/// The variant an arm pattern names: the last segment of a variant
/// pattern's path.
pub open spec fn named_variant(p: Pattern) -> Option<Seq<char>> {
    match p {
        Pattern::Variant { path, .. } => if path.segments@.len() > 0 {
            Some(path.segments@.last()@)
        } else {
            None
        },
        _ => None,
    }
}

/// Whether an arm pattern matches every value.
pub open spec fn is_catch_all(p: Pattern) -> bool {
    p is Wildcard || p is Binding
}

/// Whether `name` is one of the enum's variants.
pub open spec fn declared(variants: Seq<Seq<char>>, name: Seq<char>) -> bool {
    exists|k: int| 0 <= k < variants.len() && variants[k] == name
}

/// Whether some arm names variant `v`.
pub open spec fn covered(pats: Seq<Pattern>, v: Seq<char>) -> bool {
    exists|i: int| 0 <= i < pats.len() && named_variant(pats[i]) == Some(v)
}

/// `no variant `seg` on enum `ty``.
pub open spec fn unknown_variant_message(ty: Seq<char>, seg: Seq<char>) -> Seq<char> {
    "no variant `"@ + seg + "` on enum `"@ + ty + "`"@
}

/// The typo diagnostics of the first `n` arms: each arm naming a variant
/// the enum does not declare, at the pattern's span.
pub open spec fn typo_diags(ty: Seq<char>, variants: Seq<Seq<char>>, pats: Seq<Pattern>, n: int) -> Seq<(Span, Seq<char>)>
    decreases n,
{
    if n <= 0 || n > pats.len() {
        Seq::empty()
    } else {
        let prev = typo_diags(ty, variants, pats, n - 1);
        match pats[n - 1] {
            Pattern::Variant { span, .. } => match named_variant(pats[n - 1]) {
                Some(seg) => if declared(variants, seg) {
                    prev
                } else {
                    prev.push((span, unknown_variant_message(ty, seg)))
                },
                None => prev,
            },
            _ => prev,
        }
    }
}

/// The declared variants no arm covers, in declaration order.
pub open spec fn missing_variants(variants: Seq<Seq<char>>, pats: Seq<Pattern>) -> Seq<Seq<char>> {
    variants.filter(|v: Seq<char>| !covered(pats, v))
}

/// `a, b, c`.
pub open spec fn comma_joined(names: Seq<Seq<char>>) -> Seq<char>
    decreases names.len(),
{
    if names.len() == 0 {
        Seq::empty()
    } else if names.len() == 1 {
        names[0]
    } else {
        comma_joined(names.drop_last()) + ", "@ + names.last()
    }
}

/// The static diagnostics of a `match` on enum `ty` with the given declared
/// variants: the typo diagnostics in arm order, then, unless some arm is a
/// catch-all, one `[match.non-exhaustive]` diagnostic (at the match) naming
/// every uncovered variant when there is any.
pub open spec fn match_check_spec(ty: Seq<char>, variants: Seq<Seq<char>>, pats: Seq<Pattern>, span: Span) -> Seq<
    (Span, Seq<char>),
> {
    let typos = typo_diags(ty, variants, pats, pats.len() as int);
    let missing = missing_variants(variants, pats);
    if (exists|i: int| 0 <= i < pats.len() && is_catch_all(pats[i])) || missing.len() == 0 {
        typos
    } else {
        typos.push((span, "[match.non-exhaustive] missing "@ + comma_joined(missing)))
    }
}

fn is_declared(variants: &[String], name: &str) -> (b: bool)
    ensures
        b == declared(variants@.map_values(|v: String| v@), name@),
{
    let ghost vs = variants@.map_values(|v: String| v@);
    let mut k: usize = 0;
    while k < variants.len()
        invariant
            k <= variants@.len(),
            vs == variants@.map_values(|v: String| v@),
            forall|j: int| 0 <= j < k ==> vs[j] != name@,
        decreases variants@.len() - k,
    {
        if crate::eval::text::str_eq(variants[k].as_str(), name) {
            assert(vs[k as int] == name@);
            return true;
        }
        k = k + 1;
    }
    false
}

fn last_segment(p: &Pattern) -> (r: Option<&str>)
    ensures
        match named_variant(*p) {
            Some(s) => r matches Some(t) && t@ == s,
            None => r is None,
        },
{
    match p {
        Pattern::Variant { path, .. } => {
            let n = path.segments.len();
            if n > 0 {
                Some(path.segments[n - 1].as_str())
            } else {
                None
            }
        },
        _ => None,
    }
}

fn is_covered(pats: &[Pattern], v: &str) -> (b: bool)
    ensures
        b == covered(pats@, v@),
{
    let mut i: usize = 0;
    while i < pats.len()
        invariant
            i <= pats@.len(),
            forall|j: int| 0 <= j < i ==> named_variant(pats@[j]) != Some(v@),
        decreases pats@.len() - i,
    {
        match last_segment(&pats[i]) {
            Some(seg) => {
                if crate::eval::text::str_eq(seg, v) {
                    return true;
                }
            },
            None => {},
        }
        i = i + 1;
    }
    false
}

/// Check a `match` on enum `ty_name` statically (see [`match_check_spec`]):
/// the diagnostics, empty when the match is well-formed.
pub fn check_match_exhaustive(ty_name: &str, variants: &[String], pats: &[Pattern], span: Span) -> (r: Vec<(Span, String)>)
    ensures
        r@.map_values(|d: (Span, String)| (d.0, d.1@)) == match_check_spec(
            ty_name@,
            variants@.map_values(|v: String| v@),
            pats@,
            span,
        ),
{
    let ghost vs = variants@.map_values(|v: String| v@);
    let mut diags: Vec<(Span, String)> = Vec::new();
    let mut catch_all = false;
    let mut i: usize = 0;
    while i < pats.len()
        invariant
            i <= pats@.len(),
            vs == variants@.map_values(|v: String| v@),
            diags@.map_values(|d: (Span, String)| (d.0, d.1@)) == typo_diags(ty_name@, vs, pats@, i as int),
            catch_all == exists|j: int| 0 <= j < i && is_catch_all(pats@[j]),
        decreases pats@.len() - i,
    {
        let ghost before = diags@.map_values(|d: (Span, String)| (d.0, d.1@));
        match &pats[i] {
            Pattern::Variant { span: pspan, .. } => {
                match last_segment(&pats[i]) {
                    Some(seg) => {
                        if !is_declared(variants, seg) {
                            let mut m = String::from_str("no variant `");
                            m.append(seg);
                            m.append("` on enum `");
                            m.append(ty_name);
                            m.append("`");
                            diags.push((*pspan, m));
                            assert(diags@.map_values(|d: (Span, String)| (d.0, d.1@)) =~= before.push(
                                (*pspan, unknown_variant_message(ty_name@, seg@)),
                            ));
                        }
                    },
                    None => {},
                }
            },
            _ => {
                catch_all = true;
            },
        }
        i = i + 1;
    }
    if catch_all {
        return diags;
    }
    let mut missing: Vec<&str> = Vec::new();
    let mut k: usize = 0;
    while k < variants.len()
        invariant
            k <= variants@.len(),
            vs == variants@.map_values(|v: String| v@),
            missing@.map_values(|t: &str| t@) == vs.subrange(0, k as int).filter(|v: Seq<char>| !covered(pats@, v)),
        decreases variants@.len() - k,
    {
        let ghost before = missing@.map_values(|t: &str| t@);
        let v = variants[k].as_str();
        proof {
            reveal(Seq::filter);
            assert(vs.subrange(0, k + 1).drop_last() =~= vs.subrange(0, k as int));
            assert(vs.subrange(0, k + 1).last() == v@);
        }
        if !is_covered(pats, v) {
            missing.push(v);
            assert(missing@.map_values(|t: &str| t@) =~= before.push(v@));
        }
        k = k + 1;
    }
    assert(vs.subrange(0, vs.len() as int) =~= vs);
    if missing.len() == 0 {
        return diags;
    }
    let mut m = String::from_str("[match.non-exhaustive] missing ");
    let ghost mv = missing@.map_values(|t: &str| t@);
    let mut j: usize = 0;
    while j < missing.len()
        invariant
            j <= missing@.len(),
            mv == missing@.map_values(|t: &str| t@),
            m@ == "[match.non-exhaustive] missing "@ + comma_joined(mv.subrange(0, j as int)),
        decreases missing@.len() - j,
    {
        proof {
            assert(mv.subrange(0, j + 1).drop_last() =~= mv.subrange(0, j as int));
        }
        if j > 0 {
            m.append(", ");
        }
        m.append(missing[j]);
        proof {
            if j == 0 {
                assert(comma_joined(mv.subrange(0, 1)) == mv[0]);
            }
            assert(m@ =~= "[match.non-exhaustive] missing "@ + comma_joined(mv.subrange(0, j + 1)));
        }
        j = j + 1;
    }
    assert(mv.subrange(0, mv.len() as int) =~= mv);
    let ghost before = diags@.map_values(|d: (Span, String)| (d.0, d.1@));
    diags.push((span, m));
    assert(diags@.map_values(|d: (Span, String)| (d.0, d.1@)) =~= before.push(
        (span, "[match.non-exhaustive] missing "@ + comma_joined(mv)),
    ));
    diags
}

proof fn lemma_missing_empty(variants: Seq<Seq<char>>, pats: Seq<Pattern>)
    ensures
        missing_variants(variants, pats).len() == 0 <==> forall|k: int| 0 <= k < variants.len() ==> covered(
            pats,
            #[trigger] variants[k],
        ),
    decreases variants.len(),
{
    reveal(Seq::filter);
    if variants.len() > 0 {
        let init = variants.drop_last();
        lemma_missing_empty(init, pats);
        assert(variants.filter(|v: Seq<char>| !covered(pats, v)) == {
            let f = init.filter(|v: Seq<char>| !covered(pats, v));
            if !covered(pats, variants.last()) {
                f.push(variants.last())
            } else {
                f
            }
        });
        if forall|k: int| 0 <= k < variants.len() ==> covered(pats, #[trigger] variants[k]) {
            assert(covered(pats, variants[variants.len() - 1]));
            assert forall|k: int| 0 <= k < init.len() implies covered(pats, #[trigger] init[k]) by {
                assert(init[k] == variants[k]);
            }
        }
        if missing_variants(variants, pats).len() == 0 {
            assert forall|k: int| 0 <= k < variants.len() implies covered(pats, #[trigger] variants[k]) by {
                if k < variants.len() - 1 {
                    assert(init[k] == variants[k]);
                }
            }
        }
    }
}

/// A `match` is reported non-exhaustive exactly when it has no catch-all
/// arm and some declared variant is named by no arm; the other diagnostics
/// are the variant-name typos, which are reported with or without a
/// catch-all.
pub proof fn law_non_exhaustive_iff_a_variant_is_uncovered(
    ty: Seq<char>,
    variants: Seq<Seq<char>>,
    pats: Seq<Pattern>,
    span: Span,
)
    ensures
        match_check_spec(ty, variants, pats, span).len() > typo_diags(ty, variants, pats, pats.len() as int).len()
            <==> (!(exists|i: int| 0 <= i < pats.len() && is_catch_all(pats[i])) && exists|k: int|
            0 <= k < variants.len() && !covered(pats, #[trigger] variants[k])),
        match_check_spec(ty, variants, pats, span).subrange(
            0,
            typo_diags(ty, variants, pats, pats.len() as int).len() as int,
        ) == typo_diags(ty, variants, pats, pats.len() as int),
{
    lemma_missing_empty(variants, pats);
    let typos = typo_diags(ty, variants, pats, pats.len() as int);
    let r = match_check_spec(ty, variants, pats, span);
    assert(r.subrange(0, typos.len() as int) =~= typos);
}

} // verus!
