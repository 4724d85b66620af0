use sigil_frontend_emp::ast::{Path, Pattern};
use sigil_frontend_emp::eval::matching::check_match_exhaustive;
use sigil_frontend_emp::value::Span;

fn at(start: u32) -> Span {
    Span { source: 0, start, end: start + 1 }
}
fn variant(segs: &[&str], start: u32) -> Pattern {
    Pattern::Variant {
        path: Path { segments: segs.iter().map(|s| s.to_string()).collect(), span: at(start) },
        subpats: vec![],
        span: at(start),
    }
}
fn variants() -> Vec<String> {
    vec!["Red".into(), "Green".into(), "Blue".into()]
}

#[test]
fn an_exhaustive_match_reports_nothing() {
    let pats = vec![variant(&["Color", "Red"], 1), variant(&["Green"], 2), variant(&["Color", "Blue"], 3)];
    assert!(check_match_exhaustive("Color", &variants(), &pats, at(0)).is_empty());
    let with_wild = vec![variant(&["Color", "Red"], 1), Pattern::Wildcard(at(2))];
    assert!(check_match_exhaustive("Color", &variants(), &with_wild, at(0)).is_empty());
    let with_binding = vec![Pattern::Binding("c".into(), at(1))];
    assert!(check_match_exhaustive("Color", &variants(), &with_binding, at(0)).is_empty());
}

#[test]
fn missing_variants_are_listed_in_declaration_order() {
    let pats = vec![variant(&["Color", "Green"], 1)];
    assert_eq!(
        check_match_exhaustive("Color", &variants(), &pats, at(0)),
        vec![(at(0), "[match.non-exhaustive] missing Red, Blue".to_string())]
    );
    assert_eq!(
        check_match_exhaustive("Color", &variants(), &[], at(9)),
        vec![(at(9), "[match.non-exhaustive] missing Red, Green, Blue".to_string())]
    );
}

#[test]
fn a_typo_is_reported_even_under_a_catch_all() {
    let pats = vec![variant(&["Color", "Gren"], 1), Pattern::Wildcard(at(2))];
    assert_eq!(
        check_match_exhaustive("Color", &variants(), &pats, at(0)),
        vec![(at(1), "no variant `Gren` on enum `Color`".to_string())]
    );
    let pats = vec![variant(&["Color", "Red"], 1), variant(&["Color", "Bleu"], 2), variant(&["Green"], 3)];
    assert_eq!(
        check_match_exhaustive("Color", &variants(), &pats, at(0)),
        vec![
            (at(2), "no variant `Bleu` on enum `Color`".to_string()),
            (at(0), "[match.non-exhaustive] missing Blue".to_string()),
        ]
    );
}
