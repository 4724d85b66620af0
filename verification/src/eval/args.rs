//! Call arguments: sorting a builtin call's arguments (the one positional
//! argument and the named arguments the builtin takes) and binding a
//! comptime function call's arguments to its parameters, each misuse (an
//! extra positional argument, a name given twice, a name not taken, a
//! missing parameter) diagnosed.
use crate::ast::Arg;
use crate::value::Span;
use vstd::prelude::*;

verus! {

/// A builtin call's arguments, sorted: the index of the positional
/// argument, the index of the argument given for each accepted name (in the
/// order the names were listed), and the misuse diagnostics in argument
/// order.
pub struct SortedArgs {
    pub positional: Option<usize>,
    pub named: Vec<Option<usize>>,
    pub diags: Vec<(Span, String)>,
}

/// The texts of the accepted names.
pub open spec fn name_views(names: Seq<&str>) -> Seq<Seq<char>> {
    names.map_values(|s: &str| s@)
}

/// The first position of `nm` in `names` from `k` on.
pub open spec fn slot_from(names: Seq<Seq<char>>, nm: Seq<char>, k: int) -> Option<int>
    decreases names.len() - k,
{
    if k < 0 || k >= names.len() {
        None
    } else if names[k] == nm {
        Some(k)
    } else {
        slot_from(names, nm, k + 1)
    }
}

/// The state after sorting some arguments: positional index, index per
/// accepted name, diagnostics so far.
pub type ArgsState = (Option<int>, Seq<Option<int>>, Seq<(Span, Seq<char>)>);

/// Sort one more argument (the `i`-th, `a`) into `st`. A positional argument
/// after the first is diagnosed and ignored; a named argument the builtin
/// takes is recorded under its name, a repeat being diagnosed and the last
/// one kept; any other name is diagnosed.
pub open spec fn sort_step(builtin: Seq<char>, what: Seq<char>, names: Seq<Seq<char>>, st: ArgsState, i: int, a: Arg) -> ArgsState {
    match a.name {
        None => if st.0 is Some {
            (
                st.0,
                st.1,
                st.2.push(
                    (a.span, "`"@ + builtin + "` takes exactly one positional "@ + what + " argument"@),
                ),
            )
        } else {
            (Some(i), st.1, st.2)
        },
        Some(nm) => match slot_from(names, nm@, 0) {
            Some(k) => {
                let d = if st.1[k] is Some {
                    st.2.push((a.span, "`"@ + nm@ + "` given more than once"@))
                } else {
                    st.2
                };
                (st.0, st.1.update(k, Some(i)), d)
            },
            None => (
                st.0,
                st.1,
                st.2.push((a.span, "unknown named argument `"@ + nm@ + "` to `"@ + builtin + "`"@)),
            ),
        },
    }
}

/// The state after sorting the first `n` arguments.
pub open spec fn sort_upto(builtin: Seq<char>, what: Seq<char>, names: Seq<Seq<char>>, args: Seq<Arg>, n: int) -> ArgsState
    decreases n,
{
    if n <= 0 || n > args.len() {
        (None, Seq::new(names.len(), |k: int| None), Seq::empty())
    } else {
        sort_step(builtin, what, names, sort_upto(builtin, what, names, args, n - 1), n - 1, args[n - 1])
    }
}

/// The plain view of a sorted result.
pub open spec fn sorted_view(r: SortedArgs) -> ArgsState {
    (
        match r.positional {
            Some(p) => Some(p as int),
            None => None,
        },
        r.named@.map_values(|o: Option<usize>| match o {
            Some(p) => Some(p as int),
            None => None,
        }),
        r.diags@.map_values(|d: (Span, String)| (d.0, d.1@)),
    )
}

proof fn lemma_slot_in_range(names: Seq<Seq<char>>, nm: Seq<char>, k: int)
    ensures
        slot_from(names, nm, k) matches Some(j) ==> 0 <= k <= j < names.len() && names[j] == nm,
    decreases names.len() - k,
{
    if 0 <= k < names.len() && names[k] != nm {
        lemma_slot_in_range(names, nm, k + 1);
    }
}

fn slot_of(names: &[&str], nm: &str) -> (r: Option<usize>)
    ensures
        r matches Some(k) ==> slot_from(name_views(names@), nm@, 0) == Some(k as int) && k < names@.len(),
        r is None ==> slot_from(name_views(names@), nm@, 0) is None,
{
    let ghost ns = name_views(names@);
    let mut k: usize = 0;
    while k < names.len()
        invariant
            k <= names@.len(),
            ns == name_views(names@),
            slot_from(ns, nm@, 0) == slot_from(ns, nm@, k as int),
        decreases names@.len() - k,
    {
        if crate::eval::text::str_eq(names[k], nm) {
            assert(ns[k as int] == names@[k as int]@);
            return Some(k);
        }
        k = k + 1;
    }
    None
}

pub(crate) proof fn lemma_sort_upto_len(builtin: Seq<char>, what: Seq<char>, names: Seq<Seq<char>>, args: Seq<Arg>, n: int)
    ensures
        sort_upto(builtin, what, names, args, n).1.len() == names.len(),
    decreases n,
{
    if n > 0 && n <= args.len() {
        lemma_sort_upto_len(builtin, what, names, args, n - 1);
        if let Some(nm) = args[n - 1].name {
            lemma_slot_in_range(names, nm@, 0);
        }
    }
}

/// Sort a builtin's arguments (see [`sort_step`]). `builtin` names the
/// builtin, `what` the kind of its positional argument (`path`, `data`),
/// `names` the named arguments it takes.
pub fn sort_builtin_args(builtin: &str, what: &str, names: &[&str], args: &[Arg]) -> (r: SortedArgs)
    ensures
        sorted_view(r) == sort_upto(builtin@, what@, name_views(names@), args@, args@.len() as int),
{
    let ghost ns = name_views(names@);
    let mut positional: Option<usize> = None;
    let mut named: Vec<Option<usize>> = Vec::new();
    let mut j: usize = 0;
    while j < names.len()
        invariant
            j <= names@.len(),
            named@.len() == j,
            forall|k: int| 0 <= k < j ==> named@[k] is None,
        decreases names@.len() - j,
    {
        named.push(None);
        j = j + 1;
    }
    let mut diags: Vec<(Span, String)> = Vec::new();
    let ghost start = sorted_view(SortedArgs { positional, named, diags });
    assert(start.1 =~= Seq::new(ns.len(), |k: int| None::<int>));
    assert(start.2 =~= Seq::<(Span, Seq<char>)>::empty());
    let mut i: usize = 0;
    while i < args.len()
        invariant
            i <= args@.len(),
            ns == name_views(names@),
            named@.len() == ns.len(),
            sorted_view(SortedArgs { positional, named, diags }) == sort_upto(builtin@, what@, ns, args@, i as int),
        decreases args@.len() - i,
    {
        let ghost before = sorted_view(SortedArgs { positional, named, diags });
        let a = &args[i];
        match &a.name {
            None => {
                if positional.is_some() {
                    let mut m = String::from_str("`");
                    m.append(builtin);
                    m.append("` takes exactly one positional ");
                    m.append(what);
                    m.append(" argument");
                    diags.push((a.span, m));
                } else {
                    positional = Some(i);
                }
            },
            Some(nm) => {
                proof {
                    lemma_slot_in_range(ns, nm@, 0);
                }
                match slot_of(names, nm.as_str()) {
                    Some(k) => {
                        if named[k].is_some() {
                            let mut m = String::from_str("`");
                            m.append(nm.as_str());
                            m.append("` given more than once");
                            diags.push((a.span, m));
                        }
                        named.set(k, Some(i));
                        assert(sorted_view(SortedArgs { positional, named, diags }).1 =~= before.1.update(
                            k as int,
                            Some(i as int),
                        ));
                    },
                    None => {
                        let mut m = String::from_str("unknown named argument `");
                        m.append(nm.as_str());
                        m.append("` to `");
                        m.append(builtin);
                        m.append("`");
                        diags.push((a.span, m));
                    },
                }
            },
        }
        let ghost after = sorted_view(SortedArgs { positional, named, diags });
        assert(after.1 =~= sort_step(builtin@, what@, ns, before, i as int, args@[i as int]).1);
        assert(after.2 =~= sort_step(builtin@, what@, ns, before, i as int, args@[i as int]).2);
        i = i + 1;
    }
    SortedArgs { positional, named, diags }
}

/// The missing-positional refusal: ``[`builtin` requires a what argument]``.
pub fn require_positional(builtin: &str, what: &str, sorted: &SortedArgs) -> (r: Result<usize, String>)
    ensures
        match sorted.positional {
            Some(p) => r == Ok::<usize, String>(p),
            None => r matches Err(m) && m@ == "`"@ + builtin@ + "` requires a "@ + what@ + " argument"@,
        },
{
    match sorted.positional {
        Some(p) => Ok(p),
        None => {
            let mut m = String::from_str("`");
            m.append(builtin);
            m.append("` requires a ");
            m.append(what);
            m.append(" argument");
            Err(m)
        },
    }
}

/// The argument check of a call taking exactly one argument, positional
/// (a builtin such as `zx0`, with an empty `role`, or a newtype
/// construction or enum cast, with the role ` construction/cast`): any
/// other count is refused (``[`name`role expects exactly 1 argument, got
/// n]``); a lone named argument is still used, with the diagnostic
/// ``[`name`role takes a positional argument]`` at it.
pub fn sole_argument(name: &str, role: &str, args: &[Arg]) -> (r: Result<Option<(Span, String)>, String>)
    ensures
        args@.len() != 1 ==> (r matches Err(m) && m@ == "`"@ + name@ + "`"@ + role@ + " expects exactly 1 argument, got "@
            + crate::eval::text::dec_digits(args@.len())),
        args@.len() == 1 && args@[0].name is None ==> r == Ok::<Option<(Span, String)>, String>(None),
        args@.len() == 1 && args@[0].name is Some ==> (r matches Ok(Some(d)) && d.0 == args@[0].span && d.1@
            == "`"@ + name@ + "`"@ + role@ + " takes a positional argument"@),
{
    if args.len() != 1 {
        let mut m = String::from_str("`");
        m.append(name);
        m.append("`");
        m.append(role);
        m.append(" expects exactly 1 argument, got ");
        crate::eval::text::push_decimal_u128(&mut m, args.len() as u128);
        return Err(m);
    }
    if args[0].name.is_some() {
        let mut m = String::from_str("`");
        m.append(name);
        m.append("`");
        m.append(role);
        m.append(" takes a positional argument");
        return Ok(Some((args[0].span, m)));
    }
    Ok(None)
}

/// Whether argument `a` is given under the `k`-th accepted name.
pub open spec fn named_as(names: Seq<Seq<char>>, a: Arg, k: int) -> bool {
    match a.name {
        Some(m) => slot_from(names, m@, 0) == Some(k),
        None => false,
    }
}

/// Sorting keeps the first positional argument and, for each accepted
/// name, the last argument given under it: the positional index (if any)
/// is an unnamed argument with no unnamed one before it, each recorded
/// named index is an argument under that name with none after it, and a
/// name with nothing recorded was not given.
pub proof fn law_first_positional_last_named(builtin: Seq<char>, what: Seq<char>, names: Seq<Seq<char>>, args: Seq<Arg>, n: int)
    requires
        0 <= n <= args.len(),
    ensures
        ({
            let st = sort_upto(builtin, what, names, args, n);
            &&& st.1.len() == names.len()
            &&& st.0 matches Some(p) ==> 0 <= p < n && args[p].name is None && forall|q: int|
                0 <= q < p ==> !(#[trigger] args[q].name is None)
            &&& st.0 is None ==> forall|q: int| 0 <= q < n ==> !(#[trigger] args[q].name is None)
            &&& forall|k: int| #![trigger st.1[k]] 0 <= k < names.len() ==> (st.1[k] matches Some(j) ==> (0 <= j < n
                && named_as(names, args[j], k) && forall|q: int| j < q < n ==> !named_as(names, #[trigger] args[q], k)))
            &&& forall|k: int| #![trigger st.1[k]] 0 <= k < names.len() ==> (st.1[k] is None ==> forall|q: int|
                0 <= q < n ==> !named_as(names, #[trigger] args[q], k))
        }),
    decreases n,
{
    if n > 0 {
        law_first_positional_last_named(builtin, what, names, args, n - 1);
        let prev = sort_upto(builtin, what, names, args, n - 1);
        let st = sort_upto(builtin, what, names, args, n);
        let a = args[n - 1];
        assert(st == sort_step(builtin, what, names, prev, n - 1, a));
        match a.name {
            None => {
                assert(st.1 == prev.1);
                assert forall|k: int| 0 <= k < names.len() implies !named_as(names, a, k) by {}
            },
            Some(nm) => {
                lemma_slot_in_range(names, nm@, 0);
                match slot_from(names, nm@, 0) {
                    Some(kk) => {
                        assert(st.1 == prev.1.update(kk, Some(n - 1)));
                        assert(named_as(names, a, kk));
                        assert forall|k: int| 0 <= k < names.len() && k != kk implies !named_as(names, a, k) by {}
                    },
                    None => {
                        assert(st.1 == prev.1);
                        assert forall|k: int| 0 <= k < names.len() implies !named_as(names, a, k) by {}
                    },
                }
            },
        }
    }
}

/// The state after binding some call arguments to a comptime function's
/// parameters: the argument index bound to each parameter, the next
/// positional parameter, and the diagnostics so far.
pub type BindState = (Seq<Option<int>>, int, Seq<(Span, Seq<char>)>);

/// Bind one more argument (the `i`-th, `a`). A positional argument takes the
/// next positional parameter, past the last one being too many; a named
/// argument takes the parameter of that name, an unknown name being
/// diagnosed. A parameter already bound is diagnosed and keeps its first
/// argument (a positional argument still moves past it).
pub open spec fn bind_step(params: Seq<Seq<char>>, st: BindState, i: int, a: Arg) -> BindState {
    let (slots, pos, diags) = st;
    match a.name {
        None => if pos >= params.len() {
            (slots, pos, diags.push((a.span, "too many arguments"@)))
        } else if slots[pos] is Some {
            (slots, pos + 1, diags.push((a.span, "parameter `"@ + params[pos] + "` given more than once"@)))
        } else {
            (slots.update(pos, Some(i)), pos + 1, diags)
        },
        Some(nm) => match slot_from(params, nm@, 0) {
            None => (slots, pos, diags.push((a.span, "unknown named parameter `"@ + nm@ + "`"@))),
            Some(k) => if slots[k] is Some {
                (slots, pos, diags.push((a.span, "parameter `"@ + nm@ + "` given more than once"@)))
            } else {
                (slots.update(k, Some(i)), pos, diags)
            },
        },
    }
}

/// The binding state after the first `n` arguments.
pub open spec fn bind_upto(params: Seq<Seq<char>>, args: Seq<Arg>, n: int) -> BindState
    decreases n,
{
    if n <= 0 || n > args.len() {
        (Seq::new(params.len(), |k: int| None), 0, Seq::empty())
    } else {
        bind_step(params, bind_upto(params, args, n - 1), n - 1, args[n - 1])
    }
}

/// The `missing argument` diagnostics (at the call) of the unbound
/// parameters among the first `k`, in parameter order.
pub open spec fn missing_diags(params: Seq<Seq<char>>, slots: Seq<Option<int>>, span: Span, k: int) -> Seq<(Span, Seq<char>)>
    decreases k,
{
    if k <= 0 || k > params.len() || k > slots.len() {
        Seq::empty()
    } else if slots[k - 1] is None {
        missing_diags(params, slots, span, k - 1).push((span, "missing argument `"@ + params[k - 1] + "`"@))
    } else {
        missing_diags(params, slots, span, k - 1)
    }
}

/// A call's arguments bound to its parameters: the argument index each
/// parameter receives (`None`: missing) and the diagnostics, in order.
pub struct BoundArgs {
    pub slots: Vec<Option<usize>>,
    pub diags: Vec<(Span, String)>,
}

/// The plain view of bound arguments.
pub open spec fn bound_view(b: BoundArgs) -> (Seq<Option<int>>, Seq<(Span, Seq<char>)>) {
    (
        b.slots@.map_values(|o: Option<usize>| match o {
            Some(p) => Some(p as int),
            None => None,
        }),
        b.diags@.map_values(|d: (Span, String)| (d.0, d.1@)),
    )
}

/// Bind a comptime function call's arguments to its parameters (see
/// [`bind_step`]); afterwards every parameter left unbound is reported
/// missing, at the call's span.
pub fn bind_args(params: &[&str], args: &[Arg], span: Span) -> (r: BoundArgs)
    ensures
        ({
            let st = bind_upto(name_views(params@), args@, args@.len() as int);
            &&& bound_view(r).0 == st.0
            &&& bound_view(r).1 == st.2 + missing_diags(name_views(params@), st.0, span, params@.len() as int)
        }),
{
    let ghost ps = name_views(params@);
    let mut slots: Vec<Option<usize>> = Vec::new();
    let mut j: usize = 0;
    while j < params.len()
        invariant
            j <= params@.len(),
            slots@.len() == j,
            forall|k: int| 0 <= k < j ==> slots@[k] is None,
        decreases params@.len() - j,
    {
        slots.push(None);
        j = j + 1;
    }
    let mut diags: Vec<(Span, String)> = Vec::new();
    let mut pos: usize = 0;
    assert(bound_view(BoundArgs { slots, diags }).0 =~= Seq::new(ps.len(), |k: int| None::<int>));
    assert(bound_view(BoundArgs { slots, diags }).1 =~= Seq::<(Span, Seq<char>)>::empty());
    let mut i: usize = 0;
    while i < args.len()
        invariant
            i <= args@.len(),
            ps == name_views(params@),
            slots@.len() == ps.len(),
            pos <= ps.len(),
            ({
                let st = bind_upto(ps, args@, i as int);
                &&& bound_view(BoundArgs { slots, diags }).0 == st.0
                &&& pos as int == st.1
                &&& bound_view(BoundArgs { slots, diags }).1 == st.2
            }),
        decreases args@.len() - i,
    {
        let ghost before = bound_view(BoundArgs { slots, diags });
        let a = &args[i];
        match &a.name {
            None => {
                if pos >= params.len() {
                    diags.push((a.span, String::from_str("too many arguments")));
                } else if slots[pos].is_some() {
                    let mut m = String::from_str("parameter `");
                    m.append(params[pos]);
                    m.append("` given more than once");
                    diags.push((a.span, m));
                    pos = pos + 1;
                } else {
                    slots.set(pos, Some(i));
                    pos = pos + 1;
                }
            },
            Some(nm) => {
                proof {
                    lemma_slot_in_range(ps, nm@, 0);
                }
                match slot_of(params, nm.as_str()) {
                    None => {
                        let mut m = String::from_str("unknown named parameter `");
                        m.append(nm.as_str());
                        m.append("`");
                        diags.push((a.span, m));
                    },
                    Some(k) => {
                        if slots[k].is_some() {
                            let mut m = String::from_str("parameter `");
                            m.append(nm.as_str());
                            m.append("` given more than once");
                            diags.push((a.span, m));
                        } else {
                            slots.set(k, Some(i));
                        }
                    },
                }
            },
        }
        let ghost after = bound_view(BoundArgs { slots, diags });
        let ghost step = bind_step(ps, bind_upto(ps, args@, i as int), i as int, args@[i as int]);
        assert(after.0 =~= step.0);
        assert(after.1 =~= step.2);
        i = i + 1;
    }
    let ghost bound = bound_view(BoundArgs { slots, diags }).0;
    let ghost head = bound_view(BoundArgs { slots, diags }).1;
    let mut k: usize = 0;
    while k < params.len()
        invariant
            k <= params@.len(),
            ps == name_views(params@),
            slots@.len() == ps.len(),
            bound == bound_view(BoundArgs { slots, diags }).0,
            bound_view(BoundArgs { slots, diags }).1 == head + missing_diags(ps, bound, span, k as int),
        decreases params@.len() - k,
    {
        let ghost before = bound_view(BoundArgs { slots, diags }).1;
        if slots[k].is_none() {
            let mut m = String::from_str("missing argument `");
            m.append(params[k]);
            m.append("`");
            diags.push((span, m));
            assert(bound_view(BoundArgs { slots, diags }).1 =~= before.push(
                (span, "missing argument `"@ + ps[k as int] + "`"@),
            ));
        }
        k = k + 1;
    }
    BoundArgs { slots, diags }
}

/// No argument binds two parameters: the arguments bound to distinct
/// parameters are distinct, and each is an argument of the call.
pub proof fn law_each_argument_binds_at_most_one_parameter(params: Seq<Seq<char>>, args: Seq<Arg>, n: int)
    requires
        0 <= n <= args.len(),
    ensures
        ({
            let slots = bind_upto(params, args, n).0;
            &&& slots.len() == params.len()
            &&& bind_upto(params, args, n).1 >= 0
            &&& forall|k: int| 0 <= k < slots.len() ==> (#[trigger] slots[k] matches Some(j) ==> 0 <= j < n)
            &&& forall|k1: int, k2: int|
                0 <= k1 < slots.len() && 0 <= k2 < slots.len() && k1 != k2 && #[trigger] slots[k1] is Some
                    && #[trigger] slots[k2] is Some ==> slots[k1] != slots[k2]
        }),
    decreases n,
{
    if n > 0 {
        law_each_argument_binds_at_most_one_parameter(params, args, n - 1);
        let prev = bind_upto(params, args, n - 1);
        let cur = bind_upto(params, args, n);
        let a = args[n - 1];
        let ghost filled: Option<int> = match a.name {
            None => if prev.1 >= params.len() || prev.0[prev.1] is Some {
                None
            } else {
                Some(prev.1)
            },
            Some(nm) => {
                lemma_slot_in_range(params, nm@, 0);
                match slot_from(params, nm@, 0) {
                    None => None,
                    Some(k) => if prev.0[k] is Some {
                        None
                    } else {
                        Some(k)
                    },
                }
            },
        };
        match filled {
            None => {
                assert(cur.0 == prev.0);
            },
            Some(k0) => {
                assert(0 <= k0 < prev.0.len());
                assert(prev.0[k0] is None);
                assert(cur.0 == prev.0.update(k0, Some(n - 1)));
                assert forall|k: int| 0 <= k < cur.0.len() implies (#[trigger] cur.0[k] matches Some(j) ==> 0 <= j < n) by {
                    if k != k0 {
                        assert(cur.0[k] == prev.0[k]);
                    }
                }
                assert forall|k1: int, k2: int|
                    0 <= k1 < cur.0.len() && 0 <= k2 < cur.0.len() && k1 != k2 && #[trigger] cur.0[k1] is Some
                        && #[trigger] cur.0[k2] is Some implies cur.0[k1] != cur.0[k2] by {
                    if k1 == k0 {
                        assert(prev.0[k2] is Some);
                    } else if k2 == k0 {
                        assert(prev.0[k1] is Some);
                    } else {
                        assert(cur.0[k1] == prev.0[k1] && cur.0[k2] == prev.0[k2]);
                        assert(prev.0[k1] is Some && prev.0[k2] is Some);
                    }
                }
            },
        }
    }
}

} // verus!
