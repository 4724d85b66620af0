//! Command-line `-D NAME=INT` defines seeded into a module's global scope.
//!
//! A define never shadows a name the module declares itself: such a define
//! is left out (the collision is reported once per compile elsewhere), so
//! the module's own declaration keeps resolving the name.
use crate::eval::emit::field_names;
use crate::eval::text::str_eq;
use vstd::prelude::*;

verus! {

/// The defines that are seeded, in order: those whose name the module does
/// not declare.
pub open spec fn seeded_spec(defines: Seq<(Seq<char>, i128)>, declared: Seq<Seq<char>>) -> Seq<(Seq<char>, i128)>
    decreases defines.len(),
{
    if defines.len() == 0 {
        Seq::empty()
    } else {
        let rest = seeded_spec(defines.drop_last(), declared);
        if declared.contains(defines.last().0) {
            rest
        } else {
            rest.push(defines.last())
        }
    }
}

/// The plain view of a list of defines.
pub open spec fn defines_view(d: Seq<(String, i128)>) -> Seq<(Seq<char>, i128)> {
    d.map_values(|p: (String, i128)| (p.0@, p.1))
}

/// Seed `defines` (in command-line order) against the names the module
/// declares (its consts, equs, enums, fns, structs, bitfields, newtypes,
/// data items, offset tables, dispatch tables and named overlays): every
/// define whose name is not declared, in order.
pub fn seed_defines(defines: &[(String, i128)], declared: &[String]) -> (r: Vec<(String, i128)>)
    ensures
        defines_view(r@) == seeded_spec(defines_view(defines@), field_names(declared@)),
{
    let ghost dv = defines_view(defines@);
    let ghost nv = field_names(declared@);
    let mut out: Vec<(String, i128)> = Vec::new();
    let mut i: usize = 0;
    assert(defines_view(out@) =~= Seq::<(Seq<char>, i128)>::empty());
    while i < defines.len()
        invariant
            i <= defines@.len(),
            dv == defines_view(defines@),
            nv == field_names(declared@),
            defines_view(out@) == seeded_spec(dv.subrange(0, i as int), nv),
        decreases defines@.len() - i,
    {
        let name = defines[i].0.as_str();
        let value = defines[i].1;
        assert(dv.subrange(0, i + 1).drop_last() =~= dv.subrange(0, i as int));
        assert(dv.subrange(0, i + 1).last() == (name@, value));
        let mut k: usize = 0;
        let mut taken = false;
        while k < declared.len() && !taken
            invariant
                k <= declared@.len(),
                nv == field_names(declared@),
                !taken ==> forall|j: int| 0 <= j < k ==> nv[j] != name@,
                taken ==> nv.contains(name@),
            decreases declared@.len() - k + (if taken { 0int } else { 1int }),
        {
            if str_eq(declared[k].as_str(), name) {
                assert(nv[k as int] == name@);
                taken = true;
            } else {
                k = k + 1;
            }
        }
        if !taken {
            let ghost before = defines_view(out@);
            out.push((String::from_str(name), value));
            assert(defines_view(out@) =~= before.push((name@, value)));
        }
        i = i + 1;
    }
    assert(dv.subrange(0, defines@.len() as int) =~= dv);
    out
}

/// What a name resolves to among seeded defines: the last define of that
/// name, if any.
pub open spec fn define_value(seeded: Seq<(Seq<char>, i128)>, name: Seq<char>) -> Option<i128>
    decreases seeded.len(),
{
    if seeded.len() == 0 {
        None
    } else if seeded.last().0 == name {
        Some(seeded.last().1)
    } else {
        define_value(seeded.drop_last(), name)
    }
}

/// Look a name up among seeded defines (the last define of it wins).
pub fn lookup_define(seeded: &[(String, i128)], name: &str) -> (r: Option<i128>)
    ensures
        r == define_value(defines_view(seeded@), name@),
{
    let ghost sv = defines_view(seeded@);
    let mut i: usize = seeded.len();
    assert(sv.subrange(0, i as int) =~= sv);
    while i > 0
        invariant
            i <= seeded@.len(),
            sv == defines_view(seeded@),
            define_value(sv, name@) == define_value(sv.subrange(0, i as int), name@),
        decreases i,
    {
        let ghost sub = sv.subrange(0, i as int);
        assert(sub.last() == sv[i - 1]);
        assert(sub.drop_last() =~= sv.subrange(0, i - 1));
        if str_eq(seeded[i - 1].0.as_str(), name) {
            return Some(seeded[i - 1].1);
        }
        i = i - 1;
    }
    None
}

proof fn lemma_seeded_names_undeclared(defines: Seq<(Seq<char>, i128)>, declared: Seq<Seq<char>>, name: Seq<char>)
    requires
        declared.contains(name),
    ensures
        define_value(seeded_spec(defines, declared), name) is None,
    decreases defines.len(),
{
    if defines.len() > 0 {
        lemma_seeded_names_undeclared(defines.drop_last(), declared, name);
        let rest = seeded_spec(defines.drop_last(), declared);
        if !declared.contains(defines.last().0) {
            assert(rest.push(defines.last()).drop_last() =~= rest);
        }
    }
}

proof fn lemma_seeded_keeps_undeclared(defines: Seq<(Seq<char>, i128)>, declared: Seq<Seq<char>>, name: Seq<char>)
    requires
        !declared.contains(name),
    ensures
        define_value(seeded_spec(defines, declared), name) == define_value(defines, name),
    decreases defines.len(),
{
    if defines.len() > 0 {
        lemma_seeded_keeps_undeclared(defines.drop_last(), declared, name);
        let rest = seeded_spec(defines.drop_last(), declared);
        if !declared.contains(defines.last().0) {
            assert(rest.push(defines.last()).drop_last() =~= rest);
        }
    }
}

/// A define never shadows a declaration: a name the module declares does not
/// resolve through the seeded defines at all, and any other name resolves
/// to its last define, exactly as the command line gave it.
pub proof fn law_defines_never_shadow_declarations(
    defines: Seq<(Seq<char>, i128)>,
    declared: Seq<Seq<char>>,
    name: Seq<char>,
)
    ensures
        declared.contains(name) ==> define_value(seeded_spec(defines, declared), name) is None,
        !declared.contains(name) ==> define_value(seeded_spec(defines, declared), name) == define_value(
            defines,
            name,
        ),
{
    if declared.contains(name) {
        lemma_seeded_names_undeclared(defines, declared, name);
    } else {
        lemma_seeded_keeps_undeclared(defines, declared, name);
    }
}

} // verus!
