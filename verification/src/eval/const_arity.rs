//! Array-presence probes consulted before a signature or const is walked for
//! fixed-length array arity: a type with no array in reach costs no
//! evaluation at all.
use crate::ast::{Item, Type};
use crate::value::Span;
use crate::layout::Ty;
use vstd::prelude::*;

verus! {

/// Whether an annotation spells a fixed-length array where the arity walk
/// descends: itself, a tuple element, or a refinement's underlying type.
pub open spec fn ast_has_array(ty: Type) -> bool
    decreases ty,
{
    match ty {
        Type::Array(..) => true,
        Type::Tuple(elems) => exists|i: int| 0 <= i < elems@.len() && ast_has_array(#[trigger] elems@[i]),
        Type::Refined(inner, _) => ast_has_array(*inner),
        _ => false,
    }
}

/// Whether an AST annotation spells a fixed-length array anywhere the arity
/// walk would descend.
pub fn ast_ty_has_array(ty: &Type) -> (r: bool)
    ensures
        r == ast_has_array(*ty),
    decreases ty,
{
    match ty {
        Type::Array(..) => true,
        Type::Tuple(elems) => {
            let mut i: usize = 0;
            while i < elems.len()
                invariant
                    i <= elems@.len(),
                    *ty == Type::Tuple(*elems),
                    forall|k: int| 0 <= k < i ==> !ast_has_array(#[trigger] elems@[k]),
                decreases elems@.len() - i,
            {
                proof {
                    assert(decreases_to!(*ty => (*ty)->Tuple_0));
                    assert(decreases_to!((*ty)->Tuple_0 => (*ty)->Tuple_0@));
                    assert(decreases_to!(elems@ => elems@[i as int]));
                }
                if ast_ty_has_array(&elems[i]) {
                    return true;
                }
                i = i + 1;
            }
            false
        },
        Type::Refined(inner, _) => ast_ty_has_array(inner),
        _ => false,
    }
}

/// Whether a resolved type can contain an array where the arity walk
/// descends: itself, a tuple element, a refinement's underlying type; a
/// struct or newtype answers yes without unfolding.
pub open spec fn resolved_has_array(ty: Ty) -> bool
    decreases ty,
{
    match ty {
        Ty::Array(..) => true,
        Ty::Tuple(elems) => exists|i: int| 0 <= i < elems@.len() && resolved_has_array(#[trigger] elems@[i]),
        Ty::Struct(_) => true,
        Ty::Newtype(_) => true,
        Ty::Refined { inner } => resolved_has_array(*inner),
        _ => false,
    }
}

/// Whether `ty` can contain an array anywhere the arity walk reaches. A
/// struct or newtype answers `true` without unfolding: the walk itself
/// unfolds both.
pub fn ty_has_array(ty: &Ty) -> (r: bool)
    ensures
        r == resolved_has_array(*ty),
    decreases ty,
{
    match ty {
        Ty::Array(..) => true,
        Ty::Tuple(elems) => {
            let mut i: usize = 0;
            while i < elems.len()
                invariant
                    i <= elems@.len(),
                    *ty == Ty::Tuple(*elems),
                    forall|k: int| 0 <= k < i ==> !resolved_has_array(#[trigger] elems@[k]),
                decreases elems@.len() - i,
            {
                proof {
                    assert(decreases_to!(*ty => (*ty)->Tuple_0));
                    assert(decreases_to!((*ty)->Tuple_0 => (*ty)->Tuple_0@));
                    assert(decreases_to!(elems@ => elems@[i as int]));
                }
                if ty_has_array(&elems[i]) {
                    return true;
                }
                i = i + 1;
            }
            false
        },
        Ty::Struct(_) => true,
        Ty::Newtype(_) => true,
        Ty::Refined { inner } => ty_has_array(inner),
        _ => false,
    }
}

/// The typed `const` declarations an item declares, in source order,
/// descending into `section` bodies: name, annotation and span.
pub open spec fn item_targets(it: Item) -> Seq<(Seq<char>, Type, Span)>
    decreases it, 0int,
{
    match it {
        Item::Const(c) => match c.ty {
            Some(t) => seq![(c.name@, t, c.span)],
            None => Seq::empty(),
        },
        Item::Section(s) => items_targets(s.items@, s.items@.len() as int),
        Item::Other => Seq::empty(),
    }
}

/// The typed `const` declarations of the first `n` items, in source order.
pub open spec fn items_targets(items: Seq<Item>, n: int) -> Seq<(Seq<char>, Type, Span)>
    decreases items, n,
{
    if n <= 0 || n > items.len() {
        Seq::empty()
    } else {
        items_targets(items, n - 1) + item_targets(items[n - 1])
    }
}

/// The plain view of a gathered target.
pub open spec fn target_view<'a>(e: (&'a str, &'a Type, Span)) -> (Seq<char>, Type, Span) {
    (e.0@, *e.1, e.2)
}

/// Gather every typed `const` in `items`, recursing into `section` bodies so
/// a section-nested const is checked exactly like a top-level one. An untyped
/// const declares no shape and is skipped.
pub fn collect<'a>(items: &'a [Item], out: &mut Vec<(&'a str, &'a Type, Span)>)
    ensures
        final(out)@.map_values(|e: (&'a str, &'a Type, Span)| target_view(e)) == old(out)@.map_values(
            |e: (&'a str, &'a Type, Span)| target_view(e),
        ) + items_targets(items@, items@.len() as int),
    decreases items@,
{
    let ghost start = old(out)@.map_values(|e: (&'a str, &'a Type, Span)| target_view(e));
    let mut i: usize = 0;
    while i < items.len()
        invariant
            i <= items@.len(),
            out@.map_values(|e: (&'a str, &'a Type, Span)| target_view(e)) == start + items_targets(
                items@,
                i as int,
            ),
        decreases items@.len() - i,
    {
        let ghost before = out@.map_values(|e: (&'a str, &'a Type, Span)| target_view(e));
        match &items[i] {
            Item::Const(c) => {
                match &c.ty {
                    Some(ty) => {
                        out.push((c.name.as_str(), ty, c.span));
                        assert(out@.map_values(|e: (&'a str, &'a Type, Span)| target_view(e)) =~= before.push(
                            (c.name@, *ty, c.span),
                        ));
                    },
                    None => {},
                }
            },
            Item::Section(s) => {
                proof {
                    assert(decreases_to!(items@ => items@[i as int]));
                    assert(decreases_to!(items@[i as int] => items@[i as int]->Section_0));
                    assert(decreases_to!(items@[i as int]->Section_0 => items@[i as int]->Section_0.items));
                    assert(decreases_to!(items@[i as int]->Section_0.items => items@[i as int]->Section_0.items@));
                }
                collect(s.items.as_slice(), out);
            },
            Item::Other => {},
        }
        assert(items_targets(items@, i + 1) == items_targets(items@, i as int) + item_targets(items@[i as int]));
        i = i + 1;
    }
    assert(items_targets(items@, items@.len() as int) == items_targets(items@, i as int));
}

/// The first `n` targets with every target whose span an earlier one already
/// carries left out, the first of each span kept in order.
pub open spec fn first_per_span(t: Seq<(Seq<char>, Type, Span)>, n: int) -> Seq<(Seq<char>, Type, Span)>
    decreases n,
{
    if n <= 0 || n > t.len() {
        Seq::empty()
    } else if exists|j: int| 0 <= j < n - 1 && #[trigger] t[j].2 == t[n - 1].2 {
        first_per_span(t, n - 1)
    } else {
        first_per_span(t, n - 1).push(t[n - 1])
    }
}

/// The const declarations the arity check visits, in source order: every
/// typed `const` of `items` (sections included), each declaration once. A
/// composed file can hold the same declaration twice (a module's `pub const`
/// cloned in with its original span), so a span already seen is skipped.
pub fn arity_check_targets<'a>(items: &'a [Item]) -> (r: Vec<(&'a str, &'a Type, Span)>)
    ensures
        r@.map_values(|e: (&'a str, &'a Type, Span)| target_view(e)) == checked_targets(items@),
{
    let mut all: Vec<(&'a str, &'a Type, Span)> = Vec::new();
    collect(items, &mut all);
    assert(all@.map_values(|e: (&'a str, &'a Type, Span)| target_view(e)) =~= items_targets(
        items@,
        items@.len() as int,
    ));
    let ghost t = all@.map_values(|e: (&'a str, &'a Type, Span)| target_view(e));
    let mut seen: Vec<Span> = Vec::new();
    let mut out: Vec<(&'a str, &'a Type, Span)> = Vec::new();
    let mut i: usize = 0;
    while i < all.len()
        invariant
            i <= all@.len(),
            t == all@.map_values(|e: (&'a str, &'a Type, Span)| target_view(e)),
            out@.map_values(|e: (&'a str, &'a Type, Span)| target_view(e)) == first_per_span(t, i as int),
            forall|s: Span| seen@.contains(s) <==> exists|j: int| 0 <= j < i && #[trigger] t[j].2 == s,
        decreases all@.len() - i,
    {
        let span = all[i].2;
        let mut dup = false;
        let mut k: usize = 0;
        while k < seen.len()
            invariant
                k <= seen@.len(),
                dup <==> exists|m: int| 0 <= m < k && seen@[m] == span,
            decreases seen@.len() - k,
        {
            let s = seen[k];
            if s.source == span.source && s.start == span.start && s.end == span.end {
                dup = true;
            }
            k = k + 1;
        }
        proof {
            assert(t[i as int] == target_view(all@[i as int]));
            if dup {
                let m = choose|m: int| 0 <= m < seen@.len() && seen@[m] == span;
                assert(seen@.contains(seen@[m]));
            } else {
                assert forall|j: int| 0 <= j < i implies t[j].2 != t[i as int].2 by {
                    if t[j].2 == t[i as int].2 {
                        assert(seen@.contains(t[j].2));
                        let m = choose|m: int| 0 <= m < seen@.len() && seen@[m] == t[j].2;
                    }
                }
            }
        }
        let ghost seen_before = seen@;
        if !dup {
            seen.push(span);
            let ghost before = out@.map_values(|e: (&'a str, &'a Type, Span)| target_view(e));
            out.push(all[i]);
            assert(out@.map_values(|e: (&'a str, &'a Type, Span)| target_view(e)) =~= before.push(t[i as int]));
        }
        proof {
            assert(span == t[i as int].2);
            assert forall|s: Span| seen@.contains(s) <==> exists|j: int| 0 <= j < i + 1 && #[trigger] t[j].2 == s by {
                if seen@.contains(s) {
                    if seen_before.contains(s) {
                        let j = choose|j: int| 0 <= j < i && #[trigger] t[j].2 == s;
                        assert(0 <= j < i + 1 && t[j].2 == s);
                    } else {
                        let m = choose|m: int| 0 <= m < seen@.len() && seen@[m] == s;
                        if m < seen_before.len() {
                            assert(seen_before[m] == s);
                        }
                        assert(s == span);
                        assert(t[i as int].2 == s);
                    }
                }
                if exists|j: int| 0 <= j < i + 1 && #[trigger] t[j].2 == s {
                    let j = choose|j: int| 0 <= j < i + 1 && #[trigger] t[j].2 == s;
                    if j < i {
                        assert(seen_before.contains(s));
                        let m = choose|m: int| 0 <= m < seen_before.len() && seen_before[m] == s;
                        assert(seen@[m] == s);
                    } else {
                        if !dup {
                            assert(seen@[seen@.len() - 1] == s);
                        } else {
                            let m = choose|m: int| 0 <= m < seen_before.len() && seen_before[m] == span;
                            assert(seen@[m] == s);
                        }
                    }
                }
            }
        }
        i = i + 1;
    }
    out
}

/// Each declaration is checked once, and none is lost: the targets the arity
/// check visits carry pairwise distinct spans, and every span of a typed
/// `const` in the items is among them.
pub proof fn law_each_declaration_checked_once(items: Seq<Item>)
    ensures
        forall|a: int, b: int|
            0 <= a < b < checked_targets(items).len() ==> checked_targets(items)[a].2 != checked_targets(items)[b].2,
        forall|k: int| 0 <= k < items_targets(items, items.len() as int).len() ==> span_kept(
            checked_targets(items),
            #[trigger] items_targets(items, items.len() as int)[k].2,
        ),
{
    let all = items_targets(items, items.len() as int);
    lemma_first_per_span_distinct(all, all.len() as int);
    lemma_first_per_span_keeps(all, all.len() as int);
}

/// The targets [`arity_check_targets`] returns, by their plain views.
pub open spec fn checked_targets(items: Seq<Item>) -> Seq<(Seq<char>, Type, Span)> {
    first_per_span(items_targets(items, items.len() as int), items_targets(items, items.len() as int).len() as int)
}

/// Some target of `r` carries span `s`.
pub open spec fn span_kept(r: Seq<(Seq<char>, Type, Span)>, s: Span) -> bool {
    exists|m: int| 0 <= m < r.len() && #[trigger] r[m].2 == s
}

proof fn lemma_first_per_span_from(t: Seq<(Seq<char>, Type, Span)>, n: int)
    requires
        0 <= n <= t.len(),
    ensures
        forall|m: int| 0 <= m < first_per_span(t, n).len() ==> span_kept(t.take(n), #[trigger] first_per_span(t, n)[m].2),
    decreases n,
{
    if n > 0 {
        lemma_first_per_span_from(t, n - 1);
        let p = first_per_span(t, n - 1);
        let r = first_per_span(t, n);
        assert forall|m: int| 0 <= m < r.len() implies span_kept(t.take(n), #[trigger] r[m].2) by {
            if m < p.len() {
                assert(r[m] == p[m]);
                assert(span_kept(t.take(n - 1), p[m].2));
                let k = choose|k: int| 0 <= k < t.take(n - 1).len() && #[trigger] t.take(n - 1)[k].2 == p[m].2;
                assert(t.take(n)[k] == t.take(n - 1)[k]);
            } else {
                assert(r[m] == t[n - 1]);
                assert(t.take(n)[n - 1] == t[n - 1]);
            }
        }
    }
}

proof fn lemma_first_per_span_distinct(t: Seq<(Seq<char>, Type, Span)>, n: int)
    requires
        0 <= n <= t.len(),
    ensures
        forall|a: int, b: int|
            0 <= a < b < first_per_span(t, n).len() ==> first_per_span(t, n)[a].2 != first_per_span(t, n)[b].2,
    decreases n,
{
    if n > 0 {
        lemma_first_per_span_distinct(t, n - 1);
        lemma_first_per_span_from(t, n - 1);
        let p = first_per_span(t, n - 1);
        let r = first_per_span(t, n);
        if !(exists|j: int| 0 <= j < n - 1 && #[trigger] t[j].2 == t[n - 1].2) {
            assert(r == p.push(t[n - 1]));
            assert forall|a: int, b: int| 0 <= a < b < r.len() implies r[a].2 != r[b].2 by {
                assert(r[a] == p[a]);
                if b == r.len() - 1 {
                    assert(span_kept(t.take(n - 1), p[a].2));
                    let k = choose|k: int| 0 <= k < t.take(n - 1).len() && #[trigger] t.take(n - 1)[k].2 == p[a].2;
                    assert(t.take(n - 1)[k] == t[k]);
                } else {
                    assert(r[b] == p[b]);
                }
            }
        }
    }
}

proof fn lemma_first_per_span_keeps(t: Seq<(Seq<char>, Type, Span)>, n: int)
    requires
        0 <= n <= t.len(),
    ensures
        forall|k: int| 0 <= k < n ==> span_kept(first_per_span(t, n), #[trigger] t[k].2),
    decreases n,
{
    if n > 0 {
        lemma_first_per_span_keeps(t, n - 1);
        let p = first_per_span(t, n - 1);
        let r = first_per_span(t, n);
        assert forall|k: int| 0 <= k < n implies span_kept(r, #[trigger] t[k].2) by {
            if exists|j: int| 0 <= j < n - 1 && #[trigger] t[j].2 == t[n - 1].2 {
                if k == n - 1 {
                    let j = choose|j: int| 0 <= j < n - 1 && #[trigger] t[j].2 == t[n - 1].2;
                    assert(span_kept(p, t[j].2));
                }
            } else {
                assert(r == p.push(t[n - 1]));
                if k == n - 1 {
                    assert(r[r.len() - 1].2 == t[k].2);
                } else {
                    assert(span_kept(p, t[k].2));
                    let m = choose|m: int| 0 <= m < p.len() && #[trigger] p[m].2 == t[k].2;
                    assert(r[m] == p[m]);
                }
            }
        }
    }
}

} // verus!
