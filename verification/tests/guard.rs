use sigil_frontend_emp::ast::{Arg, Expr};
use sigil_frontend_emp::eval::guard::{guard_arguments, scan_template, TemplatePiece, render_template};
use sigil_frontend_emp::value::Span;

fn at(start: u32) -> Span {
    Span { source: 0, start, end: start + 1 }
}
fn arg(name: Option<&str>, start: u32) -> Arg {
    Arg { name: name.map(|n| n.to_string()), value: Expr::Int(0, at(start)), span: at(start) }
}

fn render(pieces: &[TemplatePiece]) -> String {
    let mut out = String::new();
    for p in pieces {
        match p {
            TemplatePiece::Char(c) => out.push(*c),
            TemplatePiece::Placeholder(e) => out.push_str(&format!("<{e}>")),
            TemplatePiece::Unterminated(rest) => {
                out.push('{');
                out.push_str(rest);
            }
        }
    }
    out
}

#[test]
fn guard_templates_split_into_text_and_placeholders() {
    let p = scan_template("hp {hp} of {max}");
    assert_eq!(render(&p), "hp <hp> of <max>");
    assert_eq!(p[3], TemplatePiece::Placeholder("hp".to_string()));
    assert_eq!(render(&scan_template("a {{b}} c")), "a {b} c");
    assert_eq!(render(&scan_template("lone } brace")), "lone } brace");
    assert_eq!(render(&scan_template("{}")), "<>");
    assert_eq!(render(&scan_template("")), "");
    assert_eq!(render(&scan_template("ünïcode {x}")), "ünïcode <x>");
}

#[test]
fn an_unterminated_placeholder_keeps_the_rest_literally() {
    let p = scan_template("bad {x + 1 and more");
    assert_eq!(p.last(), Some(&TemplatePiece::Unterminated("x + 1 and more".to_string())));
    assert_eq!(render(&p), "bad {x + 1 and more");
    assert_eq!(scan_template("{"), vec![TemplatePiece::Unterminated(String::new())]);
}

#[test]
fn guard_argument_shape() {
    let (diags, ok) = guard_arguments(false, &[arg(None, 0), arg(None, 1)]);
    assert!(diags.is_empty());
    assert_eq!(ok, Ok(()));
    let (diags, ok) = guard_arguments(true, &[arg(Some("cond"), 0), arg(None, 1), arg(Some("msg"), 2)]);
    assert_eq!(
        diags,
        vec![
            (at(0), "`ensure_fatal` takes positional arguments (cond, message)".to_string()),
            (at(2), "`ensure_fatal` takes positional arguments (cond, message)".to_string()),
        ]
    );
    assert_eq!(ok, Err("`ensure_fatal` expects 2 arguments (cond, message), got 3".to_string()));
    let (_, ok) = guard_arguments(false, &[]);
    assert_eq!(ok, Err("`ensure` expects 2 arguments (cond, message), got 0".to_string()));
}

#[test]
fn rendering_fills_placeholders_and_reports_failures() {
    let pieces = scan_template("x={x} y={bad} {{ok}}");
    let vals = vec![Ok("5".to_string()), Err("parse error".to_string())];
    let (text, reports) = render_template(&pieces, &vals);
    assert_eq!(text, "x=5 y=<?> {ok}");
    assert_eq!(reports, vec!["cannot interpolate `{bad}`: parse error".to_string()]);
}

#[test]
fn rendering_stops_at_an_unterminated_brace() {
    let pieces = scan_template("a {b c");
    let (text, reports) = render_template(&pieces, &[]);
    assert_eq!(text, "a {b c");
    assert_eq!(reports, vec!["unterminated `{` in guard message".to_string()]);
}

#[test]
fn a_plain_message_renders_unchanged() {
    let (text, reports) = render_template(&scan_template("plain text"), &[]);
    assert_eq!(text, "plain text");
    assert!(reports.is_empty());
}
