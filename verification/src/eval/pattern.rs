//! Binding a `match` arm's pattern against an enum scrutinee, and choosing
//! the arm that fires.
//!
//! A scrutinee is modelled by its shape: an enum value (its variant name and
//! payload values), an already-poisoned value, or any other value. A binding
//! names the value it binds by its position: the path of payload indices
//! from the scrutinee down to it.
use crate::ast::Pattern;
use crate::eval::text::{dec_digits, push_decimal, str_eq};
use vstd::prelude::*;

verus! {

/// The shape of a value a pattern is matched against.
#[derive(Debug)]
pub enum Scrutinee {
    /// An enum value: its variant's name and its payload values.
    Enum { variant: String, payload: Vec<Scrutinee> },
    /// A value whose evaluation already failed (and was reported).
    Poison,
    /// Any other value.
    Other,
}

/// What binding a pattern gives: the bindings (each name and the payload
/// path of the value it binds) on a match, a plain non-match, or a pattern
/// whose payload arity is wrong (a structural error, with its report).
#[derive(Debug)]
pub enum PatternOutcome {
    Match(Vec<(String, Vec<usize>)>),
    NoMatch,
    Arity(String),
}

/// The plain view of an outcome.
pub enum BindView {
    Match(Seq<(Seq<char>, Seq<usize>)>),
    NoMatch,
    Arity(Seq<char>),
}

/// The plain view of a list of bindings.
pub open spec fn bindings_view(b: Seq<(String, Vec<usize>)>) -> Seq<(Seq<char>, Seq<usize>)> {
    b.map_values(|x: (String, Vec<usize>)| (x.0@, x.1@))
}

/// The plain view of an outcome.
pub open spec fn outcome_view(o: PatternOutcome) -> BindView {
    match o {
        PatternOutcome::Match(b) => BindView::Match(bindings_view(b@)),
        PatternOutcome::NoMatch => BindView::NoMatch,
        PatternOutcome::Arity(m) => BindView::Arity(m@),
    }
}

/// The variant name a variant pattern names: its path's last segment (empty
/// for an empty path).
pub open spec fn pattern_variant(p: Pattern) -> Seq<char> {
    match p {
        Pattern::Variant { path, .. } => if path.segments@.len() > 0 {
            path.segments@.last()@
        } else {
            Seq::empty()
        },
        _ => Seq::empty(),
    }
}

/// The report of a variant pattern whose subpattern count differs from the
/// payload's.
pub open spec fn pattern_arity_msg(v: Seq<char>, subpats: nat, payload: nat) -> Seq<char> {
    "[match.pattern-arity] pattern `"@ + v + "` expects "@ + dec_digits(subpats) + " payload value(s), got "@
        + dec_digits(payload)
}

/// The recursion measure of a pattern: a variant pattern's subpatterns are
/// bound after it.
pub open spec fn pattern_rank(p: Pattern) -> int {
    match p {
        Pattern::Variant { subpats, .. } => subpats@.len() as int + 1,
        _ => 0,
    }
}

/// What remains of a variant pattern's subpatterns from `i` on.
pub open spec fn list_rank(p: Pattern, i: int) -> int {
    match p {
        Pattern::Variant { subpats, .. } => if 0 <= i <= subpats@.len() {
            subpats@.len() - i
        } else {
            0
        },
        _ => 0,
    }
}

/// Bind pattern `p` against value `v` found at payload path `path`:
/// - `_` matches and binds nothing; a name matches and binds `v`;
/// - a variant pattern against an enum value: a different variant does not
///   match; a different number of subpatterns than payload values is an
///   arity error; otherwise each subpattern binds against its payload value
///   in order, the first non-match or error deciding;
/// - a variant pattern against a poisoned value matches, its subpatterns'
///   names all binding the poisoned value (so the arm body reports nothing
///   more); against any other value it does not match.
pub open spec fn bind_spec(p: Pattern, v: Scrutinee, path: Seq<usize>) -> BindView
    decreases p, pattern_rank(p),
{
    match p {
        Pattern::Wildcard(_) => BindView::Match(Seq::empty()),
        Pattern::Binding(name, _) => BindView::Match(seq![(name@, path)]),
        Pattern::Variant { subpats, .. } => match v {
            Scrutinee::Enum { variant, payload } => if variant@ != pattern_variant(p) {
                BindView::NoMatch
            } else if subpats@.len() != payload@.len() {
                BindView::Arity(pattern_arity_msg(pattern_variant(p), subpats@.len(), payload@.len()))
            } else {
                bind_list(p, v, path, 0)
            },
            Scrutinee::Poison => bind_list(p, v, path, 0),
            Scrutinee::Other => BindView::NoMatch,
        },
    }
}

/// Bind a variant pattern's subpatterns from `i` on against the payload of
/// `v` (or against `v` itself when it is poisoned), concatenating the
/// bindings; the first non-match or error ends it.
pub open spec fn bind_list(p: Pattern, v: Scrutinee, path: Seq<usize>, i: int) -> BindView
    decreases p, list_rank(p, i),
{
    match p {
        Pattern::Variant { subpats, .. } => if 0 <= i < subpats@.len() {
            let child = match v {
                Scrutinee::Enum { payload, .. } => if i < payload@.len() {
                    payload@[i]
                } else {
                    Scrutinee::Other
                },
                _ => Scrutinee::Poison,
            };
            let child_path = if v is Enum {
                path.push(i as usize)
            } else {
                path
            };
            proof {
                assert(decreases_to!(p => subpats));
                assert(decreases_to!(subpats => subpats@));
                assert(decreases_to!(subpats@ => subpats@[i]));
            }
            match bind_spec(subpats@[i], child, child_path) {
                BindView::Match(b) => match bind_list(p, v, path, i + 1) {
                    BindView::Match(rest) => BindView::Match(b + rest),
                    other => other,
                },
                other => other,
            }
        } else {
            BindView::Match(Seq::empty())
        },
        _ => BindView::Match(Seq::empty()),
    }
}

fn copy_path(path: &Vec<usize>) -> (r: Vec<usize>)
    ensures
        r@ == path@,
{
    let mut r: Vec<usize> = Vec::new();
    let mut k: usize = 0;
    while k < path.len()
        invariant
            k <= path@.len(),
            r@ == path@.subrange(0, k as int),
        decreases path@.len() - k,
    {
        r.push(path[k]);
        assert(r@ =~= path@.subrange(0, k + 1));
        k = k + 1;
    }
    assert(path@.subrange(0, path@.len() as int) =~= path@);
    r
}

/// Bind pattern `p` against `v` at payload path `path` (see [`bind_spec`]).
pub fn bind_pattern(p: &Pattern, v: &Scrutinee, path: &Vec<usize>) -> (r: PatternOutcome)
    ensures
        outcome_view(r) == bind_spec(*p, *v, path@),
    decreases p, pattern_rank(*p),
{
    match p {
        Pattern::Wildcard(_) => {
            let b: Vec<(String, Vec<usize>)> = Vec::new();
            assert(bindings_view(b@) =~= Seq::<(Seq<char>, Seq<usize>)>::empty());
            PatternOutcome::Match(b)
        },
        Pattern::Binding(name, _) => {
            let mut b: Vec<(String, Vec<usize>)> = Vec::new();
            b.push((String::from_str(name.as_str()), copy_path(path)));
            assert(bindings_view(b@) =~= seq![(name@, path@)]);
            PatternOutcome::Match(b)
        },
        Pattern::Variant { path: vpath, subpats, .. } => {
            let vname: &str = if vpath.segments.len() > 0 {
                vpath.segments[vpath.segments.len() - 1].as_str()
            } else {
                ""
            };
            proof {
                if vpath.segments@.len() == 0 {
                    reveal_strlit("");
                }
            }
            assert(vname@ == pattern_variant(*p));
            match v {
                Scrutinee::Enum { variant, payload } => {
                    if !str_eq(variant.as_str(), vname) {
                        return PatternOutcome::NoMatch;
                    }
                    if subpats.len() != payload.len() {
                        let mut m = String::from_str("[match.pattern-arity] pattern `");
                        m.append(vname);
                        m.append("` expects ");
                        push_decimal(&mut m, subpats.len() as u64);
                        m.append(" payload value(s), got ");
                        push_decimal(&mut m, payload.len() as u64);
                        return PatternOutcome::Arity(m);
                    }
                    bind_subpatterns(p, subpats, v, path)
                },
                Scrutinee::Poison => bind_subpatterns(p, subpats, v, path),
                Scrutinee::Other => PatternOutcome::NoMatch,
            }
        },
    }
}

/// Bind the subpatterns of the variant pattern `p` in order (see
/// [`bind_list`]).
fn bind_subpatterns(p: &Pattern, subpats: &Vec<Pattern>, v: &Scrutinee, path: &Vec<usize>) -> (r: PatternOutcome)
    requires
        p matches Pattern::Variant { subpats: s, .. } && s == subpats,
        v matches Scrutinee::Enum { payload, .. } ==> payload@.len() == subpats@.len(),
        !(v is Other),
    ensures
        outcome_view(r) == bind_list(*p, *v, path@, 0),
    decreases p, pattern_rank(*p) - 1,
{
    let mut acc: Vec<(String, Vec<usize>)> = Vec::new();
    let mut i: usize = 0;
    assert(bindings_view(acc@) =~= Seq::<(Seq<char>, Seq<usize>)>::empty());
    while i < subpats.len()
        invariant
            p matches Pattern::Variant { subpats: s, .. } && s == subpats,
            v matches Scrutinee::Enum { payload, .. } ==> payload@.len() == subpats@.len(),
            i <= subpats@.len(),
            bind_list(*p, *v, path@, 0) == match bind_list(*p, *v, path@, i as int) {
                BindView::Match(rest) => BindView::Match(bindings_view(acc@) + rest),
                other => other,
            },
        decreases subpats@.len() - i,
    {
        let mut child_path = copy_path(path);
        let poison = Scrutinee::Poison;
        let child: &Scrutinee = match v {
            Scrutinee::Enum { payload, .. } => {
                child_path.push(i);
                &payload[i]
            },
            _ => &poison,
        };
        proof {
            assert(decreases_to!(*p => *subpats));
            assert(decreases_to!(*subpats => subpats@));
            assert(decreases_to!(subpats@ => subpats@[i as int]));
        }
        let sub = bind_pattern(&subpats[i], child, &child_path);
        match sub {
            PatternOutcome::Match(mut b) => {
                let ghost bv = bindings_view(b@);
                let ghost before = bindings_view(acc@);
                acc.append(&mut b);
                assert(bindings_view(acc@) =~= before + bv);
                proof {
                    match bind_list(*p, *v, path@, i + 1) {
                        BindView::Match(rest) => {
                            assert(before + (bv + rest) =~= before + bv + rest);
                        },
                        _ => {},
                    }
                }
            },
            other => {
                return other;
            },
        }
        i = i + 1;
    }
    assert(bind_list(*p, *v, path@, subpats@.len() as int) == BindView::Match(Seq::empty()));
    assert(bindings_view(acc@) + Seq::<(Seq<char>, Seq<usize>)>::empty() =~= bindings_view(acc@));
    PatternOutcome::Match(acc)
}

/// Which arm of a `match` fires.
#[derive(Debug)]
pub enum ArmChoice {
    /// The first matching arm, with its bindings.
    Arm(usize, Vec<(String, Vec<usize>)>),
    /// An arm before any match has the wrong payload arity: the whole match
    /// is poisoned, with the report.
    Poisoned(String),
    /// No arm matches.
    NoArm,
}

/// The arm choice over arms `i..` (arms before `i` did not match).
pub open spec fn choose_arm_from(pats: Seq<Pattern>, v: Scrutinee, i: int) -> (int, BindView)
    decreases pats.len() - i,
{
    if i < 0 || i >= pats.len() {
        (pats.len() as int, BindView::NoMatch)
    } else {
        match bind_spec(pats[i], v, Seq::empty()) {
            BindView::NoMatch => choose_arm_from(pats, v, i + 1),
            other => (i, other),
        }
    }
}

/// Try the arms top to bottom against the scrutinee: the first that matches
/// fires; an arity error poisons the match at once (the pattern's shape is
/// wrong, whatever the data); otherwise no arm fires.
pub fn select_arm(pats: &[Pattern], v: &Scrutinee) -> (r: ArmChoice)
    ensures
        ({
            let (k, o) = choose_arm_from(pats@, *v, 0);
            match o {
                BindView::Match(b) => r matches ArmChoice::Arm(j, bs) && j == k && bindings_view(bs@) == b,
                BindView::Arity(m) => r matches ArmChoice::Poisoned(s) && s@ == m,
                BindView::NoMatch => r is NoArm,
            }
        }),
{
    let mut i: usize = 0;
    let empty: Vec<usize> = Vec::new();
    while i < pats.len()
        invariant
            i <= pats@.len(),
            empty@ == Seq::<usize>::empty(),
            choose_arm_from(pats@, *v, 0) == choose_arm_from(pats@, *v, i as int),
        decreases pats@.len() - i,
    {
        match bind_pattern(&pats[i], v, &empty) {
            PatternOutcome::Match(b) => return ArmChoice::Arm(i, b),
            PatternOutcome::Arity(m) => return ArmChoice::Poisoned(m),
            PatternOutcome::NoMatch => {},
        }
        i = i + 1;
    }
    ArmChoice::NoArm
}

/// The report when no arm fired although the static check found nothing.
pub open spec fn no_arm_msg(ty: Seq<char>, variant: Seq<char>) -> Seq<char> {
    "no arm matched enum value `"@ + ty + "."@ + variant + "`"@
}

/// The runtime report when no arm fired: none when the static check already
/// reported (a non-exhaustive match or a misspelt variant is the same event).
pub fn no_arm_report(statically_reported: bool, ty: &str, variant: &str) -> (r: Option<String>)
    ensures
        statically_reported ==> r is None,
        !statically_reported ==> (r matches Some(m) && m@ == no_arm_msg(ty@, variant@)),
{
    if statically_reported {
        return None;
    }
    let mut m = String::from_str("no arm matched enum value `");
    m.append(ty);
    m.append(".");
    m.append(variant);
    m.append("`");
    Some(m)
}

} // verus!
