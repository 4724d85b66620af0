use sigil_frontend_emp::eval::literals::{construction_cycle, plan_struct_literal, FieldSource};

fn decl(v: &[(&str, bool)]) -> Vec<(String, bool)> {
    v.iter().map(|(n, d)| (n.to_string(), *d)).collect()
}

fn names(v: &[&str]) -> Vec<String> {
    v.iter().map(|s| s.to_string()).collect()
}

#[test]
fn written_fields_fill_declared_fields_in_declaration_order() {
    let p = plan_struct_literal("Point", &decl(&[("x", false), ("y", false)]), &names(&["y", "x"]), false);
    assert_eq!(p.provided_reports, vec![None, None]);
    assert_eq!(p.fields, vec![FieldSource::Provided(1), FieldSource::Provided(0)]);
}

#[test]
fn unknown_and_repeated_fields_are_reported_and_dropped() {
    let p = plan_struct_literal("P", &decl(&[("a", false)]), &names(&["a", "b", "a"]), false);
    assert_eq!(
        p.provided_reports,
        vec![
            None,
            Some("[struct.unknown-field] struct P has no field `b`".to_string()),
            Some("struct P: field `a` given more than once".to_string()),
        ]
    );
    assert_eq!(p.fields, vec![FieldSource::Provided(0)]);
}

#[test]
fn defaults_need_explicit_elision() {
    let d = decl(&[("a", false), ("b", true)]);
    let with_rest = plan_struct_literal("S", &d, &names(&["a"]), true);
    assert_eq!(with_rest.fields, vec![FieldSource::Provided(0), FieldSource::Default]);
    let without = plan_struct_literal("S", &d, &names(&["a"]), false);
    assert_eq!(
        without.fields[1],
        FieldSource::Missing(
            "[struct.missing-field] struct S: field `b` was not provided — add it, or elide it explicitly with `..` (it has a default)"
                .to_string()
        )
    );
    let none = plan_struct_literal("S", &d, &names(&[]), true);
    assert_eq!(
        none.fields[0],
        FieldSource::Missing("[struct.missing-field] struct S: field `a` has no default and was not provided".to_string())
    );
}

#[test]
fn construction_cycles_name_the_whole_chain() {
    assert_eq!(construction_cycle(&names(&["A", "B"]), "C"), None);
    assert_eq!(
        construction_cycle(&names(&["A", "B"]), "A").unwrap(),
        "cyclic struct construction: A -> B -> A"
    );
}
