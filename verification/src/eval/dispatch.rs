//! What a call `callee(args)` reaches, in the evaluator's fixed order, and
//! the arity reports of the calls that take a fixed number of arguments.
use crate::eval::builtins::{builtin_name, is_builtin};
use crate::eval::text::{dec_digits, push_decimal, str_eq};
use vstd::prelude::*;

verus! {

/// What a call reaches.
#[derive(Clone, Copy, Debug, PartialEq, Eq, Structural)]
pub enum CallTarget {
    /// `ensure(..)` (`fatal: false`) or `ensure_fatal(..)` (`fatal: true`).
    Guard { fatal: bool },
    /// A builtin method (`len`, `map`, ...), by the callee's last segment.
    Builtin,
    /// A multi-segment path that is not a builtin: poisons without a report.
    Unsupported,
    /// A local or a const whose value is called (a lambda or a fn value).
    CallableValue,
    /// A newtype or refined type constructed from one integer.
    Newtype,
    /// An enum cast from one integer.
    EnumCast,
    /// A `comptime fn`.
    Function,
    /// Nothing of that name: `unknown function`.
    Unknown,
}

/// Which tables hold the callee's (single-segment) name.
#[derive(Clone, Copy, Debug, PartialEq, Eq, Structural)]
pub struct NameKinds {
    pub local: bool,
    pub constant: bool,
    pub newtype: bool,
    pub enumeration: bool,
    pub function: bool,
}

/// The dispatch order: the guards first (they cannot be shadowed), then a
/// builtin by the last segment (builtins win over user fns), then — for a
/// single-segment callee only — a local or const value, a newtype, an enum,
/// a `comptime fn`, in that order; anything else is unknown.
pub open spec fn call_target_spec(segments: Seq<Seq<char>>, kinds: NameKinds) -> CallTarget {
    if segments.len() == 1 && segments[0] == "ensure"@ {
        CallTarget::Guard { fatal: false }
    } else if segments.len() == 1 && segments[0] == "ensure_fatal"@ {
        CallTarget::Guard { fatal: true }
    } else if segments.len() > 0 && builtin_name(segments.last()) {
        CallTarget::Builtin
    } else if segments.len() != 1 {
        CallTarget::Unsupported
    } else if kinds.local || kinds.constant {
        CallTarget::CallableValue
    } else if kinds.newtype {
        CallTarget::Newtype
    } else if kinds.enumeration {
        CallTarget::EnumCast
    } else if kinds.function {
        CallTarget::Function
    } else {
        CallTarget::Unknown
    }
}

/// Resolve what a call reaches (see [`call_target_spec`]); `kinds` says
/// which tables hold the callee's name when it is a single segment.
pub fn call_target(segments: &[String], kinds: NameKinds) -> (r: CallTarget)
    ensures
        r == call_target_spec(segments@.map_values(|s: String| s@), kinds),
{
    let ghost sv = segments@.map_values(|s: String| s@);
    let n = segments.len();
    if n == 1 {
        assert(sv[0] == segments@[0]@);
        if str_eq(segments[0].as_str(), "ensure") {
            return CallTarget::Guard { fatal: false };
        }
        if str_eq(segments[0].as_str(), "ensure_fatal") {
            return CallTarget::Guard { fatal: true };
        }
    }
    if n > 0 {
        assert(sv.last() == segments@[n - 1]@);
        if is_builtin(segments[n - 1].as_str()) {
            return CallTarget::Builtin;
        }
    }
    if n != 1 {
        return CallTarget::Unsupported;
    }
    if kinds.local || kinds.constant {
        CallTarget::CallableValue
    } else if kinds.newtype {
        CallTarget::Newtype
    } else if kinds.enumeration {
        CallTarget::EnumCast
    } else if kinds.function {
        CallTarget::Function
    } else {
        CallTarget::Unknown
    }
}

/// The report for a call of a name nothing defines.
pub open spec fn unknown_function_msg(name: Seq<char>) -> Seq<char> {
    "unknown function `"@ + name + "`"@
}

/// `unknown function `name``.
pub fn unknown_function_message(name: &str) -> (m: String)
    ensures
        m@ == unknown_function_msg(name@),
{
    let mut m = String::from_str("unknown function `");
    m.append(name);
    m.append("`");
    m
}

/// The report for a lambda called with the wrong number of arguments.
pub open spec fn lambda_arity_msg(params: nat, got: nat) -> Seq<char> {
    "lambda expects "@ + dec_digits(params) + " argument(s), got "@ + dec_digits(got)
}

/// Check a lambda call's arity: the report when `got` differs from the
/// lambda's `params`.
pub fn lambda_arity(params: usize, got: usize) -> (r: Option<String>)
    ensures
        params == got ==> r is None,
        params != got ==> (r matches Some(m) && m@ == lambda_arity_msg(params as nat, got as nat)),
{
    if params == got {
        return None;
    }
    let mut m = String::from_str("lambda expects ");
    push_decimal(&mut m, params as u64);
    m.append(" argument(s), got ");
    push_decimal(&mut m, got as u64);
    Some(m)
}

/// The report for a newtype construction or enum cast `Name(..)` without
/// exactly one argument.
pub open spec fn single_arg_arity_msg(ty: Seq<char>, got: nat) -> Seq<char> {
    "`"@ + ty + "` construction/cast expects exactly 1 argument, got "@ + dec_digits(got)
}

/// The report for such a call whose one argument is named.
pub open spec fn single_arg_named_msg(ty: Seq<char>) -> Seq<char> {
    "`"@ + ty + "` construction/cast takes a positional argument"@
}

/// The reports of `Name(args)` for a newtype construction or enum cast:
/// `Err` when it does not have exactly one argument (nothing is evaluated);
/// otherwise `Ok` with the report for a named argument, whose value is
/// still used.
pub fn single_arg_check(ty: &str, names: &[Option<String>]) -> (r: Result<Option<String>, String>)
    ensures
        names@.len() != 1 ==> (r matches Err(m) && m@ == single_arg_arity_msg(ty@, names@.len())),
        names@.len() == 1 && names@[0] is None ==> r == Ok::<Option<String>, String>(None),
        names@.len() == 1 && names@[0] is Some ==> (r matches Ok(Some(m)) && m@ == single_arg_named_msg(ty@)),
{
    if names.len() != 1 {
        let mut m = String::from_str("`");
        m.append(ty);
        m.append("` construction/cast expects exactly 1 argument, got ");
        push_decimal(&mut m, names.len() as u64);
        return Err(m);
    }
    match &names[0] {
        None => Ok(None),
        Some(_) => {
            let mut m = String::from_str("`");
            m.append(ty);
            m.append("` construction/cast takes a positional argument");
            Ok(Some(m))
        },
    }
}

/// Which of a module's item tables hold a name.
#[derive(Clone, Copy, Debug, PartialEq, Eq, Structural)]
pub struct ItemKinds {
    pub constant: bool,
    pub structure: bool,
    pub enumeration: bool,
    pub newtype: bool,
    pub bitfield: bool,
    pub data: bool,
    /// A local data item whose initializer is a struct literal.
    pub data_struct_literal: bool,
    /// A cross-module type-only data import.
    pub imported_data: bool,
    pub offsets: bool,
    pub dispatch: bool,
    pub overlay: bool,
}

/// The kind of a name that resolves to a non-code item (data, const, offset
/// table, dispatch table, overlay), which a dispatch target may not be.
pub open spec fn non_code_kind_spec(k: ItemKinds) -> Option<Seq<char>> {
    if k.data {
        Some("data item"@)
    } else if k.constant {
        Some("const"@)
    } else if k.offsets {
        Some("offset table"@)
    } else if k.dispatch {
        Some("dispatch table"@)
    } else if k.overlay {
        Some("overlay"@)
    } else {
        None
    }
}

/// The kind of a non-code item a name resolves to, else `None` (a proc, or
/// unknown: left to the link).
pub fn non_code_kind(k: ItemKinds) -> (r: Option<&'static str>)
    ensures
        match non_code_kind_spec(k) {
            Some(t) => r matches Some(x) && x@ == t,
            None => r is None,
        },
{
    if k.data {
        Some("data item")
    } else if k.constant {
        Some("const")
    } else if k.offsets {
        Some("offset table")
    } else if k.dispatch {
        Some("dispatch table")
    } else if k.overlay {
        Some("overlay")
    } else {
        None
    }
}

/// What a statement-position bareword that is not a comptime fn names, with
/// its article.
pub open spec fn bareword_kind_spec(k: ItemKinds) -> Option<Seq<char>> {
    if k.constant {
        Some("a const"@)
    } else if k.structure {
        Some("a struct"@)
    } else if k.enumeration {
        Some("an enum"@)
    } else if k.newtype {
        Some("a newtype"@)
    } else if k.bitfield {
        Some("a bitfield"@)
    } else {
        None
    }
}

/// The report for a statement-position bareword naming a comptime construct
/// other than a fn.
pub open spec fn bareword_not_fn_msg(name: Seq<char>, kind: Seq<char>) -> Seq<char> {
    "`"@ + name + "` names "@ + kind
        + ", not a comptime fn — only comptime fn calls are legal in statement position"@
}

/// The report for a statement-position bareword that names a const, struct,
/// enum, newtype or bitfield instead of a comptime fn; `None` when it names
/// none of them (it then stays an unrecognized mnemonic).
pub fn bareword_not_fn(name: &str, k: ItemKinds) -> (r: Option<String>)
    ensures
        match bareword_kind_spec(k) {
            Some(kind) => r matches Some(m) && m@ == bareword_not_fn_msg(name@, kind),
            None => r is None,
        },
{
    let kind = if k.constant {
        "a const"
    } else if k.structure {
        "a struct"
    } else if k.enumeration {
        "an enum"
    } else if k.newtype {
        "a newtype"
    } else if k.bitfield {
        "a bitfield"
    } else {
        return None;
    };
    let mut m = String::from_str("`");
    m.append(name);
    m.append("` names ");
    m.append(kind);
    m.append(", not a comptime fn — only comptime fn calls are legal in statement position");
    Some(m)
}

/// Whether `Name.field` reads a data item's value: a cross-module type-only
/// import, or a local data item with a struct-literal initializer — unless
/// the name is also an enum, offset table or dispatch table, whose
/// `Name.member` meaning comes first.
pub open spec fn data_value_readable_spec(k: ItemKinds) -> bool {
    !(k.enumeration || k.offsets || k.dispatch) && (k.imported_data || (k.data && k.data_struct_literal))
}

/// See [`data_value_readable_spec`].
pub fn data_value_readable(k: ItemKinds) -> (r: bool)
    ensures
        r == data_value_readable_spec(k),
{
    if k.enumeration || k.offsets || k.dispatch {
        return false;
    }
    if k.imported_data {
        return true;
    }
    k.data && k.data_struct_literal
}

/// The guards and the builtins cannot be shadowed: whatever a single name
/// is bound to, `ensure` and `ensure_fatal` are guards and a builtin's name
/// reaches the builtin.
pub proof fn law_guards_and_builtins_are_not_shadowed(name: Seq<char>, kinds: NameKinds)
    ensures
        name == "ensure"@ ==> call_target_spec(seq![name], kinds) == (CallTarget::Guard { fatal: false }),
        name == "ensure_fatal"@ ==> call_target_spec(seq![name], kinds) == (CallTarget::Guard { fatal: true }),
        builtin_name(name) ==> call_target_spec(seq![name], kinds) == CallTarget::Builtin,
{
    reveal_strlit("ensure");
    reveal_strlit("ensure_fatal");
    reveal_strlit("len");
    reveal_strlit("map");
    reveal_strlit("filter");
    reveal_strlit("fold");
    reveal_strlit("find");
    reveal_strlit("slice");
    reveal_strlit("val");
    assert(seq![name].last() == name);
    assert(seq![name][0] == name);
    if builtin_name(name) {
        assert(name[0] != 'e');
        assert("ensure"@[0] == 'e');
        assert("ensure_fatal"@[0] == 'e');
        assert(name != "ensure"@);
        assert(name != "ensure_fatal"@);
    }
}

} // verus!
