use sigil_frontend_emp::ast::{Path, Pattern};
use sigil_frontend_emp::eval::pattern::{bind_pattern, no_arm_report, select_arm, ArmChoice, PatternOutcome, Scrutinee};
use sigil_frontend_emp::value::Span;

fn sp() -> Span {
    Span { source: 0, start: 0, end: 0 }
}

fn variant(name: &str, subpats: Vec<Pattern>) -> Pattern {
    Pattern::Variant {
        path: Path { segments: vec!["Shape".to_string(), name.to_string()], span: sp() },
        subpats,
        span: sp(),
    }
}

fn bind(name: &str) -> Pattern {
    Pattern::Binding(name.to_string(), sp())
}

fn value(name: &str, payload: Vec<Scrutinee>) -> Scrutinee {
    Scrutinee::Enum { variant: name.to_string(), payload }
}

#[test]
fn a_matching_variant_binds_its_payload_by_position() {
    let p = variant("Rect", vec![bind("w"), Pattern::Wildcard(sp())]);
    let v = value("Rect", vec![Scrutinee::Other, Scrutinee::Other]);
    match bind_pattern(&p, &v, &vec![]) {
        PatternOutcome::Match(b) => assert_eq!(b, vec![("w".to_string(), vec![0])]),
        other => panic!("{other:?}"),
    }
}

#[test]
fn nested_patterns_bind_deep_paths() {
    let p = variant("Pair", vec![variant("Leaf", vec![bind("x")]), bind("y")]);
    let v = value("Pair", vec![value("Leaf", vec![Scrutinee::Other]), Scrutinee::Other]);
    match bind_pattern(&p, &v, &vec![]) {
        PatternOutcome::Match(b) => {
            assert_eq!(b, vec![("x".to_string(), vec![0, 0]), ("y".to_string(), vec![1])])
        }
        other => panic!("{other:?}"),
    }
}

#[test]
fn other_variants_do_not_match_and_arity_is_an_error() {
    let p = variant("Rect", vec![bind("w")]);
    assert!(matches!(bind_pattern(&p, &value("Circle", vec![]), &vec![]), PatternOutcome::NoMatch));
    assert!(matches!(bind_pattern(&p, &Scrutinee::Other, &vec![]), PatternOutcome::NoMatch));
    match bind_pattern(&p, &value("Rect", vec![Scrutinee::Other, Scrutinee::Other]), &vec![]) {
        PatternOutcome::Arity(m) => {
            assert_eq!(m, "[match.pattern-arity] pattern `Rect` expects 1 payload value(s), got 2")
        }
        other => panic!("{other:?}"),
    }
}

#[test]
fn a_poisoned_value_binds_every_inner_name_to_itself() {
    let p = variant("Pair", vec![variant("Leaf", vec![bind("x")]), bind("y")]);
    match bind_pattern(&p, &Scrutinee::Poison, &vec![3]) {
        PatternOutcome::Match(b) => {
            assert_eq!(b, vec![("x".to_string(), vec![3]), ("y".to_string(), vec![3])])
        }
        other => panic!("{other:?}"),
    }
}

#[test]
fn the_first_matching_arm_fires() {
    let arms = vec![variant("Circle", vec![bind("r")]), bind("other"), Pattern::Wildcard(sp())];
    match select_arm(&arms, &value("Rect", vec![Scrutinee::Other])) {
        ArmChoice::Arm(1, b) => assert_eq!(b, vec![("other".to_string(), vec![])]),
        other => panic!("{other:?}"),
    }
    let only = vec![variant("Circle", vec![])];
    assert!(matches!(select_arm(&only, &value("Rect", vec![])), ArmChoice::NoArm));
    let bad = vec![variant("Rect", vec![]), bind("x")];
    assert!(matches!(select_arm(&bad, &value("Rect", vec![Scrutinee::Other])), ArmChoice::Poisoned(_)));
    assert_eq!(no_arm_report(true, "Shape", "Rect"), None);
    assert_eq!(no_arm_report(false, "Shape", "Rect").unwrap(), "no arm matched enum value `Shape.Rect`");
}
