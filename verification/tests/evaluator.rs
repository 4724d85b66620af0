use sigil_frontend_emp::eval::evaluator::{cycle_report, Evaluator, Level, MAX_CALL_DEPTH, STEP_BUDGET};
use sigil_frontend_emp::value::Span;

fn span() -> Span {
    Span { source: 0, start: 0, end: 0 }
}

#[test]
fn evaluator_error_collects_diagnostic() {
    let mut ev = Evaluator::new();
    let span = Span { source: 0, start: 1, end: 2 };
    ev.error(span, "boom");
    assert_eq!(ev.diags.len(), 1);
    assert_eq!(ev.diags[0].level, Level::Error);
    assert_eq!(ev.diags[0].message, "boom");
}

#[test]
fn bump_step_reports_budget_exhaustion() {
    let mut ev = Evaluator::new();
    assert!(ev.bump_step());
    ev.steps = STEP_BUDGET - 1;
    // The step that reaches exactly the budget is still allowed...
    assert!(ev.bump_step());
    assert_eq!(ev.steps, STEP_BUDGET);
    // ...the next one exceeds it.
    assert!(!ev.bump_step());
}

#[test]
fn warnings_and_notes_keep_their_level() {
    let mut ev = Evaluator::new();
    ev.warn(span(), "w");
    ev.note(span(), "n");
    assert_eq!(ev.diags[0].level, Level::Warning);
    assert_eq!(ev.diags[1].level, Level::Note);
    assert_eq!(ev.diags[1].message, "n");
}

#[test]
fn abort_names_the_call_chain_once() {
    let mut ev = Evaluator::new();
    assert!(ev.enter_call("outer", span()));
    assert!(ev.enter_call("inner", span()));
    ev.abort(span(), "step budget exceeded");
    ev.abort(span(), "again");
    assert!(ev.aborted);
    assert_eq!(ev.diags.len(), 1);
    assert_eq!(ev.diags[0].message, "step budget exceeded: in outer -> inner");
    let mut quiet = Evaluator::new();
    quiet.abort(span(), "recursion too deep");
    assert_eq!(quiet.diags[0].message, "recursion too deep");
}

#[test]
fn a_deep_chain_names_only_the_innermost_frames() {
    let mut ev = Evaluator::new();
    for k in 0..20 {
        assert!(ev.enter_call(&format!("f{k}"), span()));
    }
    ev.abort(span(), "stop");
    assert_eq!(
        ev.diags[0].message,
        "stop: in ... -> f8 -> f9 -> f10 -> f11 -> f12 -> f13 -> f14 -> f15 -> f16 -> f17 -> f18 -> f19"
    );
}

#[test]
fn calls_are_bounded_by_depth_and_budget() {
    let mut ev = Evaluator::new();
    for _ in 0..MAX_CALL_DEPTH {
        assert!(ev.enter_call("r", span()));
    }
    assert!(!ev.enter_call("r", span()));
    assert!(ev.aborted);
    assert!(ev.diags[0].message.starts_with("recursion too deep: in ... -> r -> r"));
    let mut ev = Evaluator::new();
    ev.steps = STEP_BUDGET;
    assert!(!ev.enter_call("f", span()));
    assert_eq!(ev.diags[0].message, "step budget exceeded");
    assert!(ev.call_stack.is_empty());
}

#[test]
fn cycle_reports_name_the_loop() {
    let stack = vec!["A".to_string(), "B".to_string(), "C".to_string()];
    assert_eq!(cycle_report("cyclic const definition: ", &stack, "B"), Some("cyclic const definition: B -> C -> B".to_string()));
    assert_eq!(cycle_report("cyclic type: ", &stack, "A"), Some("cyclic type: A -> B -> C -> A".to_string()));
    assert_eq!(cycle_report("cyclic type: ", &stack, "D"), None);
    assert_eq!(cycle_report("cyclic type: ", &[], "D"), None);
}

#[test]
fn generator_errors_get_a_call_site_note() {
    let mut ev = Evaluator::new();
    ev.error(span(), "before");
    let watermark = ev.diags.len();
    ev.warn(span(), "only a warning");
    ev.note_if_comptime_error(watermark, span());
    assert_eq!(ev.diags.len(), 2);
    ev.error(span(), "inside the table");
    ev.note_if_comptime_error(watermark, span());
    assert_eq!(ev.diags.len(), 4);
    assert_eq!(ev.diags[3].level, Level::Note);
    assert_eq!(
        ev.diags[3].message,
        "[prov.comptime] error is inside a table generated by this comptime call"
    );
}

#[test]
fn fatal_guards_halt_and_report_once() {
    let mut ev = Evaluator::new();
    ev.fail_guard(false, span(), "soft");
    assert!(!ev.aborted);
    ev.fail_guard(true, span(), "hard");
    assert!(ev.aborted);
    ev.fail_guard(true, span(), "again");
    assert_eq!(ev.diags.len(), 2);
    assert_eq!(ev.diags[1].message, "hard");
}
