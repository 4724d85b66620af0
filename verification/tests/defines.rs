use sigil_frontend_emp::eval::defines::{lookup_define, seed_defines};

fn defs(v: &[(&str, i128)]) -> Vec<(String, i128)> {
    v.iter().map(|(n, x)| (n.to_string(), *x)).collect()
}

fn names(v: &[&str]) -> Vec<String> {
    v.iter().map(|s| s.to_string()).collect()
}

#[test]
fn declared_names_are_not_seeded() {
    let seeded = seed_defines(&defs(&[("DEBUG", 1), ("LIMIT", 7), ("Foo", 3)]), &names(&["LIMIT", "Foo"]));
    assert_eq!(seeded, defs(&[("DEBUG", 1)]));
    assert_eq!(lookup_define(&seeded, "DEBUG"), Some(1));
    assert_eq!(lookup_define(&seeded, "LIMIT"), None);
}

#[test]
fn the_last_define_of_a_name_wins() {
    let seeded = seed_defines(&defs(&[("X", 1), ("X", 2)]), &names(&[]));
    assert_eq!(lookup_define(&seeded, "X"), Some(2));
    assert_eq!(lookup_define(&seeded, "Y"), None);
}
