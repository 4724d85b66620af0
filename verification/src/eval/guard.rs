//! `ensure` / `ensure_fatal` guards: their argument shape, and the scan of
//! a failing guard's message template into literal characters and `{expr}`
//! placeholders (`{{` and `}}` being literal braces).
use crate::ast::Arg;
use crate::eval::text::{chars_of, dec_digits, push_char, push_decimal_u128};
use crate::value::Span;
use vstd::prelude::*;

verus! {

/// One piece of a scanned guard message.
#[derive(Clone, Debug, PartialEq, Eq)]
pub enum TemplatePiece {
    /// A literal character.
    Char(char),
    /// The text of a `{...}` placeholder, to be evaluated.
    Placeholder(String),
    /// An unterminated `{` and the rest of the template after it, kept
    /// literally (and diagnosed).
    Unterminated(String),
}

/// The plain view of a piece: a literal character as one-character text.
pub enum PieceView {
    Literal(Seq<char>),
    Placeholder(Seq<char>),
    Unterminated(Seq<char>),
}

/// The plain view of a piece.
pub open spec fn piece_view(p: TemplatePiece) -> PieceView {
    match p {
        TemplatePiece::Char(c) => PieceView::Literal(seq![c]),
        TemplatePiece::Placeholder(s) => PieceView::Placeholder(s@),
        TemplatePiece::Unterminated(s) => PieceView::Unterminated(s@),
    }
}

/// How far past `j` the first `}` at or after `j` lies.
pub open spec fn close_dist(s: Seq<char>, j: int) -> Option<nat>
    decreases s.len() - j,
{
    if j < 0 || j >= s.len() {
        None
    } else if s[j] == '}' {
        Some(0)
    } else {
        match close_dist(s, j + 1) {
            Some(d) => Some(d + 1),
            None => None,
        }
    }
}

/// The first `}` at or after `j`.
pub open spec fn close_from(s: Seq<char>, j: int) -> Option<int> {
    match close_dist(s, j) {
        Some(d) => Some(j + d),
        None => None,
    }
}

/// The pieces of the template from character `i` on.
pub open spec fn scan_from(s: Seq<char>, i: int) -> Seq<PieceView>
    decreases s.len() - i,
{
    if i < 0 || i >= s.len() {
        Seq::empty()
    } else if s[i] == '{' && i + 1 < s.len() && s[i + 1] == '{' {
        seq![PieceView::Literal(seq!['{'])] + scan_from(s, i + 2)
    } else if s[i] == '}' && i + 1 < s.len() && s[i + 1] == '}' {
        seq![PieceView::Literal(seq!['}'])] + scan_from(s, i + 2)
    } else if s[i] == '{' {
        match close_dist(s, i + 1) {
            Some(d) => seq![PieceView::Placeholder(s.subrange(i + 1, i + 1 + d))] + scan_from(
                s,
                if i + 2 + d <= s.len() {
                    i + 2 + d
                } else {
                    s.len() as int
                },
            ),
            None => seq![PieceView::Unterminated(s.subrange(i + 1, s.len() as int))],
        }
    } else {
        seq![PieceView::Literal(s.subrange(i, i + 1))] + scan_from(s, i + 1)
    }
}

proof fn lemma_close_in_range(s: Seq<char>, j: int)
    ensures
        close_from(s, j) matches Some(k) ==> 0 <= j <= k < s.len() && s[k] == '}' && forall|t: int|
            j <= t < k ==> s[t] != '}',
        close_from(s, j) is None && 0 <= j ==> forall|t: int| j <= t < s.len() ==> s[t] != '}',
    decreases s.len() - j,
{
    if 0 <= j < s.len() && s[j] != '}' {
        lemma_close_in_range(s, j + 1);
    }
}

/// The piece starting at character `i` and where the next one starts.
fn scan_one(template: &str, cs: &Vec<char>, i: usize) -> (r: (TemplatePiece, usize))
    requires
        cs@ == template@,
        i < cs@.len(),
    ensures
        i < r.1 <= cs@.len(),
        seq![piece_view(r.0)] + scan_from(cs@, r.1 as int) == scan_from(cs@, i as int),
{
    let n = cs.len();
    let c = cs[i];
    if c == '{' && i + 1 < n && cs[i + 1] == '{' {
        assert(piece_view(TemplatePiece::Char('{')) == PieceView::Literal(seq!['{']));
        (TemplatePiece::Char('{'), i + 2)
    } else if c == '}' && i + 1 < n && cs[i + 1] == '}' {
        assert(piece_view(TemplatePiece::Char('}')) == PieceView::Literal(seq!['}']));
        (TemplatePiece::Char('}'), i + 2)
    } else if c == '{' {
        proof {
            lemma_close_in_range(cs@, i + 1);
        }
        let mut j: usize = i + 1;
        while j < n && cs[j] != '}'
            invariant
                cs@ == template@,
                n == cs@.len(),
                i < n,
                i + 1 <= j <= n,
                close_from(cs@, i + 1) == close_from(cs@, j as int),
            decreases n - j,
        {
            j = j + 1;
        }
        let inner = String::from_str(template.substring_char(i + 1, j));
        if j == n {
            assert(scan_from(cs@, n as int) =~= Seq::<PieceView>::empty());
            assert(seq![PieceView::Unterminated(inner@)] + scan_from(cs@, n as int) =~= scan_from(cs@, i as int));
            (TemplatePiece::Unterminated(inner), n)
        } else {
            assert(close_dist(cs@, j as int) == Some(0nat));
            assert(close_from(cs@, i + 1) == Some(j as int));
            let ghost d = close_dist(cs@, i + 1)->0;
            assert(i + 1 + d == j);
            assert(seq![PieceView::Placeholder(inner@)] + scan_from(cs@, j + 1) =~= scan_from(cs@, i as int));
            (TemplatePiece::Placeholder(inner), j + 1)
        }
    } else {
        assert(seq![c] =~= cs@.subrange(i as int, i + 1));
        (TemplatePiece::Char(c), i + 1)
    }
}

/// Scan a guard message template (see [`scan_from`]).
pub fn scan_template(template: &str) -> (r: Vec<TemplatePiece>)
    ensures
        r@.map_values(|p: TemplatePiece| piece_view(p)) == scan_from(template@, 0),
{
    let cs = chars_of(template);
    let n = cs.len();
    let mut out: Vec<TemplatePiece> = Vec::new();
    let mut i: usize = 0;
    while i < n
        invariant
            cs@ == template@,
            n == cs@.len(),
            i <= n,
            out@.map_values(|p: TemplatePiece| piece_view(p)) + scan_from(cs@, i as int) == scan_from(cs@, 0),
        decreases n - i,
    {
        let ghost before = out@.map_values(|p: TemplatePiece| piece_view(p));
        let (piece, next) = scan_one(template, &cs, i);
        let ghost pv = piece_view(piece);
        out.push(piece);
        assert(out@.map_values(|p: TemplatePiece| piece_view(p)) =~= before + seq![pv]);
        assert(before + seq![pv] + scan_from(cs@, next as int) =~= before + (seq![pv] + scan_from(cs@, next as int)));
        i = next;
    }
    assert(scan_from(cs@, n as int) =~= Seq::<PieceView>::empty());
    assert(out@.map_values(|p: TemplatePiece| piece_view(p)) =~= scan_from(cs@, 0));
    out
}

/// The argument shape of a guard call (`ensure`, or `ensure_fatal` when
/// `fatal`): every named argument is diagnosed (the call is still checked),
/// and anything but exactly two arguments is refused.
pub fn guard_arguments(fatal: bool, args: &[Arg]) -> (r: (Vec<(Span, String)>, Result<(), String>))
    ensures
        ({
            let kw: Seq<char> = if fatal {
                "ensure_fatal"@
            } else {
                "ensure"@
            };
            &&& r.0@.map_values(|d: (Span, String)| (d.0, d.1@)) == args@.filter(|a: Arg| a.name is Some).map_values(
                |a: Arg| (a.span, "`"@ + kw + "` takes positional arguments (cond, message)"@),
            )
            &&& args@.len() == 2 ==> r.1 is Ok
            &&& args@.len() != 2 ==> (r.1 matches Err(m) && m@ == "`"@ + kw + "` expects 2 arguments (cond, message), got "@
                + dec_digits(args@.len()))
        }),
{
    let kw: &str = if fatal {
        "ensure_fatal"
    } else {
        "ensure"
    };
    let ghost kwv = kw@;
    let mut diags: Vec<(Span, String)> = Vec::new();
    let mut i: usize = 0;
    while i < args.len()
        invariant
            i <= args@.len(),
            kw@ == kwv,
            diags@.map_values(|d: (Span, String)| (d.0, d.1@)) == args@.subrange(0, i as int).filter(
                |a: Arg| a.name is Some,
            ).map_values(|a: Arg| (a.span, "`"@ + kwv + "` takes positional arguments (cond, message)"@)),
        decreases args@.len() - i,
    {
        let ghost before = diags@.map_values(|d: (Span, String)| (d.0, d.1@));
        proof {
            reveal(Seq::filter);
            assert(args@.subrange(0, i + 1).drop_last() =~= args@.subrange(0, i as int));
        }
        if args[i].name.is_some() {
            let mut m = String::from_str("`");
            m.append(kw);
            m.append("` takes positional arguments (cond, message)");
            diags.push((args[i].span, m));
            assert(diags@.map_values(|d: (Span, String)| (d.0, d.1@)) =~= before.push(
                (args@[i as int].span, "`"@ + kwv + "` takes positional arguments (cond, message)"@),
            ));
        }
        i = i + 1;
    }
    assert(args@.subrange(0, args@.len() as int) =~= args@);
    if args.len() != 2 {
        let mut m = String::from_str("`");
        m.append(kw);
        m.append("` expects 2 arguments (cond, message), got ");
        push_decimal_u128(&mut m, args.len() as u128);
        return (diags, Err(m));
    }
    (diags, Ok(()))
}

/// How many placeholders a list of pieces holds.
pub open spec fn placeholder_count(pieces: Seq<PieceView>) -> nat
    decreases pieces.len(),
{
    if pieces.len() == 0 {
        0
    } else {
        placeholder_count(pieces.drop_last()) + if pieces.last() is Placeholder {
            1nat
        } else {
            0nat
        }
    }
}

/// Some piece is an unterminated `{`.
pub open spec fn has_unterminated(pieces: Seq<PieceView>) -> bool {
    exists|i: int| 0 <= i < pieces.len() && pieces[i] is Unterminated
}

/// The report for a placeholder that could not be interpolated, with why.
pub open spec fn cannot_interpolate_msg(inner: Seq<char>, reason: Seq<char>) -> Seq<char> {
    "cannot interpolate `{"@ + inner + "}`: "@ + reason
}

/// The report for an unterminated `{`.
pub open spec fn unterminated_msg() -> Seq<char> {
    "unterminated `{` in guard message"@
}

/// The interpolated text of a scanned guard message and its reports, given
/// what each placeholder rendered to, in order (`Err` with why it could not
/// be interpolated): literal characters stay; a rendered placeholder is its
/// text, a failed one `<?>` and a report; an unterminated `{` is reported
/// and kept literally, with the rest of the template, and ends the message.
pub open spec fn render_spec(pieces: Seq<PieceView>, vals: Seq<Result<Seq<char>, Seq<char>>>) -> (
    Seq<char>,
    Seq<Seq<char>>,
)
    decreases pieces.len(),
{
    if pieces.len() == 0 {
        (Seq::empty(), Seq::empty())
    } else {
        let init = pieces.drop_last();
        let (o, d) = render_spec(init, vals);
        if has_unterminated(init) {
            (o, d)
        } else {
            match pieces.last() {
                PieceView::Literal(t) => (o + t, d),
                PieceView::Placeholder(inner) => match vals[placeholder_count(init) as int] {
                    Ok(t) => (o + t, d),
                    Err(r) => (o + "<?>"@, d.push(cannot_interpolate_msg(inner, r))),
                },
                PieceView::Unterminated(rest) => (o + "{"@ + rest, d.push(unterminated_msg())),
            }
        }
    }
}

/// The plain view of the placeholders' renderings.
pub open spec fn vals_view(v: Seq<Result<String, String>>) -> Seq<Result<Seq<char>, Seq<char>>> {
    v.map_values(
        |r: Result<String, String>|
            match r {
                Ok(t) => Ok::<Seq<char>, Seq<char>>(t@),
                Err(e) => Err::<Seq<char>, Seq<char>>(e@),
            },
    )
}

/// Assemble a failing guard's message from its scanned pieces and what each
/// placeholder rendered to (see [`render_spec`]): the text and the reports,
/// in order.
pub fn render_template(pieces: &[TemplatePiece], vals: &[Result<String, String>]) -> (r: (String, Vec<String>))
    requires
        vals@.len() >= placeholder_count(pieces@.map_values(|p: TemplatePiece| piece_view(p))),
    ensures
        (r.0@, r.1@.map_values(|m: String| m@)) == render_spec(
            pieces@.map_values(|p: TemplatePiece| piece_view(p)),
            vals_view(vals@),
        ),
{
    let ghost pv = pieces@.map_values(|p: TemplatePiece| piece_view(p));
    let ghost vv = vals_view(vals@);
    let mut out = String::new();
    let mut diags: Vec<String> = Vec::new();
    let mut k: usize = 0;
    let mut i: usize = 0;
    let mut stopped = false;
    assert(pv.subrange(0, 0) =~= Seq::<PieceView>::empty());
    assert(diags@.map_values(|m: String| m@) =~= Seq::<Seq<char>>::empty());
    while i < pieces.len()
        invariant
            i <= pieces@.len(),
            pv == pieces@.map_values(|p: TemplatePiece| piece_view(p)),
            vv == vals_view(vals@),
            vals@.len() >= placeholder_count(pv),
            k == placeholder_count(pv.subrange(0, i as int)),
            stopped == has_unterminated(pv.subrange(0, i as int)),
            (out@, diags@.map_values(|m: String| m@)) == render_spec(pv.subrange(0, i as int), vv),
        decreases pieces@.len() - i,
    {
        let ghost pre = pv.subrange(0, i as int);
        let ghost cur = pv.subrange(0, i + 1);
        let ghost before = diags@.map_values(|m: String| m@);
        assert(cur.drop_last() =~= pre);
        assert(cur.last() == piece_view(pieces@[i as int]));
        proof {
            lemma_placeholder_count_prefix(pv, i + 1);
        }
        if !stopped {
            match &pieces[i] {
                TemplatePiece::Char(c) => {
                    push_char(&mut out, *c);
                },
                TemplatePiece::Placeholder(inner) => {
                    assert(k < vals@.len());
                    assert(vv[k as int] == match vals@[k as int] {
                        Ok(t) => Ok::<Seq<char>, Seq<char>>(t@),
                        Err(e) => Err::<Seq<char>, Seq<char>>(e@),
                    });
                    match &vals[k] {
                        Ok(t) => {
                            out.append(t.as_str());
                        },
                        Err(reason) => {
                            out.append("<?>");
                            let mut m = String::from_str("cannot interpolate `{");
                            m.append(inner.as_str());
                            m.append("}`: ");
                            m.append(reason.as_str());
                            diags.push(m);
                            assert(diags@.map_values(|m: String| m@) =~= before.push(
                                cannot_interpolate_msg(inner@, reason@),
                            ));
                        },
                    }
                    k = k + 1;
                },
                TemplatePiece::Unterminated(rest) => {
                    out.append("{");
                    out.append(rest.as_str());
                    diags.push(String::from_str("unterminated `{` in guard message"));
                    assert(diags@.map_values(|m: String| m@) =~= before.push(unterminated_msg()));
                    stopped = true;
                    assert(cur[i as int] is Unterminated);
                },
            }
        } else {
            if pieces[i].is_placeholder() {
                k = k + 1;
            }
        }
        proof {
            if has_unterminated(pre) {
                let w = choose|w: int| 0 <= w < pre.len() && pre[w] is Unterminated;
                assert(cur[w] == pre[w]);
            }
            if has_unterminated(cur) && !has_unterminated(pre) {
                let w = choose|w: int| 0 <= w < cur.len() && cur[w] is Unterminated;
                if w < i {
                    assert(pre[w] == cur[w]);
                }
            }
        }
        i = i + 1;
    }
    assert(pv.subrange(0, pieces@.len() as int) =~= pv);
    (out, diags)
}

proof fn lemma_placeholder_count_prefix(pv: Seq<PieceView>, n: int)
    requires
        0 <= n <= pv.len(),
    ensures
        placeholder_count(pv.subrange(0, n)) <= placeholder_count(pv),
    decreases pv.len() - n,
{
    if n < pv.len() {
        lemma_placeholder_count_prefix(pv, n + 1);
        assert(pv.subrange(0, n + 1).drop_last() =~= pv.subrange(0, n));
    } else {
        assert(pv.subrange(0, n) =~= pv);
    }
}

impl TemplatePiece {
    /// Whether this piece is a placeholder.
    pub fn is_placeholder(&self) -> (b: bool)
        ensures
            b == (*self is Placeholder),
    {
        match self {
            TemplatePiece::Placeholder(_) => true,
            _ => false,
        }
    }
}

/// Each character as its own literal piece.
pub open spec fn literal_pieces(s: Seq<char>) -> Seq<PieceView> {
    s.map_values(|c: char| PieceView::Literal(seq![c]))
}

proof fn lemma_plain_scan(s: Seq<char>, i: int)
    requires
        0 <= i <= s.len(),
        forall|k: int| 0 <= k < s.len() ==> s[k] != '{' && s[k] != '}',
    ensures
        scan_from(s, i) == literal_pieces(s.subrange(i, s.len() as int)),
    decreases s.len() - i,
{
    if i < s.len() {
        lemma_plain_scan(s, i + 1);
        assert(s.subrange(i, i + 1) =~= seq![s[i]]);
        assert(literal_pieces(s.subrange(i, s.len() as int)) =~= seq![PieceView::Literal(seq![s[i]])]
            + literal_pieces(s.subrange(i + 1, s.len() as int)));
    } else {
        assert(literal_pieces(s.subrange(i, s.len() as int)) =~= Seq::<PieceView>::empty());
    }
}

proof fn lemma_render_literals(s: Seq<char>, vals: Seq<Result<Seq<char>, Seq<char>>>)
    ensures
        render_spec(literal_pieces(s), vals) == (s, Seq::<Seq<char>>::empty()),
    decreases s.len(),
{
    if s.len() > 0 {
        let p = literal_pieces(s);
        lemma_render_literals(s.drop_last(), vals);
        assert(p.drop_last() =~= literal_pieces(s.drop_last()));
        assert(!has_unterminated(p.drop_last()));
        assert(s.drop_last() + seq![s.last()] =~= s);
    } else {
        assert(literal_pieces(s) =~= Seq::<PieceView>::empty());
    }
}

/// A guard message without braces is reported exactly as written, with no
/// interpolation reports, whatever the placeholders would render to.
pub proof fn law_plain_message_is_unchanged(s: Seq<char>, vals: Seq<Result<Seq<char>, Seq<char>>>)
    requires
        forall|k: int| 0 <= k < s.len() ==> s[k] != '{' && s[k] != '}',
    ensures
        render_spec(scan_from(s, 0), vals) == (s, Seq::<Seq<char>>::empty()),
{
    lemma_plain_scan(s, 0);
    assert(s.subrange(0, s.len() as int) =~= s);
    lemma_render_literals(s, vals);
}

} // verus!
