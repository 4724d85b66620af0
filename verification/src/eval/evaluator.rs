//! The comptime evaluator's bookkeeping: the diagnostics it collects, the
//! step budget that bounds its work, the call stack that bounds recursion,
//! and the single abort that names the active call chain. Also the
//! `A -> B -> A` chain a cycle guard reports.
use crate::value::Span;
use vstd::prelude::*;

verus! {

/// Comptime step budget: a coarse upper bound on evaluation work, guarding
/// against runaway loops and recursion.
pub const STEP_BUDGET: u64 = 5_000_000;

/// Maximum comptime-fn call depth, so unbounded recursion is caught and
/// named instead of overflowing the process stack.
pub const MAX_CALL_DEPTH: usize = 512;

/// How many innermost call-stack frames an abort message names before it
/// truncates with a leading `...`.
pub const MAX_CHAIN_FRAMES: usize = 12;

/// A diagnostic's severity.
#[derive(Clone, Copy, Debug, PartialEq, Eq, Structural)]
pub enum Level {
    Error,
    Warning,
    Note,
}

/// One diagnostic: its severity, message and primary span.
#[derive(Clone, Debug)]
pub struct Diagnostic {
    pub level: Level,
    pub message: String,
    pub primary: Span,
}

/// The plain view of a diagnostic.
pub open spec fn diag_view(d: Diagnostic) -> (Level, Seq<char>, Span) {
    (d.level, d.message@, d.primary)
}

/// The plain views of a list of diagnostics.
pub open spec fn diags_view(ds: Seq<Diagnostic>) -> Seq<(Level, Seq<char>, Span)> {
    ds.map_values(|d: Diagnostic| diag_view(d))
}

/// Some diagnostic from index `from` on is an error.
pub open spec fn has_error_from(diags: Seq<Diagnostic>, from: int) -> bool {
    exists|k: int| from <= k < diags.len() && diags[k].level == Level::Error
}

/// The note that names a comptime generator's call site.
pub open spec fn comptime_note_msg() -> Seq<char> {
    "[prov.comptime] error is inside a table generated by this comptime call"@
}

/// The evaluator's bookkeeping state: the diagnostics collected, the steps
/// consumed, the active call stack (callee name and call-site span), and
/// whether evaluation was aborted.
pub struct Evaluator {
    pub diags: Vec<Diagnostic>,
    pub steps: u64,
    pub call_stack: Vec<(String, Span)>,
    pub aborted: bool,
    /// The `-D NAME=INT` defines seeded into the module's global scope.
    pub defines: Vec<(String, i128)>,
}

/// `a -> b -> c`.
pub open spec fn chain_text(names: Seq<Seq<char>>) -> Seq<char>
    decreases names.len(),
{
    if names.len() == 0 {
        Seq::empty()
    } else if names.len() == 1 {
        names[0]
    } else {
        chain_text(names.drop_last()) + " -> "@ + names.last()
    }
}

/// The call chain an abort names: the callee names innermost last, only the
/// innermost `MAX_CHAIN_FRAMES` (after `... -> `) when there are more.
pub open spec fn abort_chain(names: Seq<Seq<char>>) -> Seq<char> {
    if names.len() > MAX_CHAIN_FRAMES {
        "... -> "@ + chain_text(names.subrange(names.len() - MAX_CHAIN_FRAMES, names.len() as int))
    } else {
        chain_text(names)
    }
}

/// The abort message: the reason, then `: in <chain>` unless the chain is
/// empty.
pub open spec fn abort_message(reason: Seq<char>, names: Seq<Seq<char>>) -> Seq<char> {
    if abort_chain(names).len() == 0 {
        reason
    } else {
        reason + ": in "@ + abort_chain(names)
    }
}

/// The callee names of a call stack.
pub open spec fn stack_names(stack: Seq<(String, Span)>) -> Seq<Seq<char>> {
    stack.map_values(|f: (String, Span)| f.0@)
}

fn push_chain(out: &mut String, names: &[(String, Span)], from: usize)
    requires
        from <= names@.len(),
    ensures
        final(out)@ == old(out)@ + chain_text(stack_names(names@).subrange(from as int, names@.len() as int)),
{
    let ghost ns = stack_names(names@);
    let mut k: usize = from;
    while k < names.len()
        invariant
            from <= k <= names@.len(),
            ns == stack_names(names@),
            out@ == old(out)@ + chain_text(ns.subrange(from as int, k as int)),
        decreases names@.len() - k,
    {
        proof {
            assert(ns.subrange(from as int, k + 1).drop_last() =~= ns.subrange(from as int, k as int));
            assert(ns.subrange(from as int, k + 1).last() == names@[k as int].0@);
        }
        if k > from {
            out.append(" -> ");
        }
        out.append(names[k].0.as_str());
        proof {
            if k == from {
                assert(chain_text(ns.subrange(from as int, k + 1)) == ns.subrange(from as int, k + 1)[0]);
                assert(ns.subrange(from as int, k as int) =~= Seq::<Seq<char>>::empty());
            }
        }
        assert(out@ =~= old(out)@ + chain_text(ns.subrange(from as int, k + 1)));
        k = k + 1;
    }
}

impl Evaluator {
    /// A fresh evaluator: no diagnostics, no steps, no calls, not aborted.
    pub fn new() -> (ev: Evaluator)
        ensures
            ev.diags@.len() == 0,
            ev.steps == 0,
            ev.call_stack@.len() == 0,
            !ev.aborted,
            ev.defines@.len() == 0,
    {
        Evaluator { diags: Vec::new(), steps: 0, call_stack: Vec::new(), aborted: false, defines: Vec::new() }
    }

    fn report(&mut self, level: Level, span: Span, msg: &str)
        ensures
            diags_view(final(self).diags@) == diags_view(old(self).diags@).push((level, msg@, span)),
            final(self).steps == old(self).steps,
            final(self).call_stack@ == old(self).call_stack@,
            final(self).defines@ == old(self).defines@,
            final(self).aborted == old(self).aborted,
    {
        let ghost before = diags_view(self.diags@);
        self.diags.push(Diagnostic { level, message: String::from_str(msg), primary: span });
        assert(diags_view(self.diags@) =~= before.push((level, msg@, span)));
    }

    /// Push an error at `span`.
    pub fn error(&mut self, span: Span, msg: &str)
        ensures
            diags_view(final(self).diags@) == diags_view(old(self).diags@).push((Level::Error, msg@, span)),
            final(self).steps == old(self).steps,
            final(self).call_stack@ == old(self).call_stack@,
            final(self).defines@ == old(self).defines@,
            final(self).aborted == old(self).aborted,
    {
        self.report(Level::Error, span, msg)
    }

    /// Push a warning at `span` (a lint that reports but does not poison).
    pub fn warn(&mut self, span: Span, msg: &str)
        ensures
            diags_view(final(self).diags@) == diags_view(old(self).diags@).push((Level::Warning, msg@, span)),
            final(self).steps == old(self).steps,
            final(self).call_stack@ == old(self).call_stack@,
            final(self).defines@ == old(self).defines@,
            final(self).aborted == old(self).aborted,
    {
        self.report(Level::Warning, span, msg)
    }

    /// Push a note at `span` (follow-up context to a preceding error).
    pub fn note(&mut self, span: Span, msg: &str)
        ensures
            diags_view(final(self).diags@) == diags_view(old(self).diags@).push((Level::Note, msg@, span)),
            final(self).steps == old(self).steps,
            final(self).call_stack@ == old(self).call_stack@,
            final(self).defines@ == old(self).defines@,
            final(self).aborted == old(self).aborted,
    {
        self.report(Level::Note, span, msg)
    }

    /// After a comptime generator call whose diagnostics start at
    /// `watermark`: if it produced an error, follow it with a note naming
    /// the call site, so an error inside a generated table traces back to
    /// where the table was instantiated. Warnings and notes alone add
    /// nothing.
    pub fn note_if_comptime_error(&mut self, watermark: usize, call_site: Span)
        requires
            watermark <= old(self).diags@.len(),
        ensures
            has_error_from(old(self).diags@, watermark as int) ==> diags_view(final(self).diags@) == diags_view(old(self).diags@).push(
                (Level::Note, comptime_note_msg(), call_site),
            ),
            !has_error_from(old(self).diags@, watermark as int) ==> final(self).diags@ == old(self).diags@,
            final(self).steps == old(self).steps,
            final(self).call_stack@ == old(self).call_stack@,
            final(self).defines@ == old(self).defines@,
            final(self).aborted == old(self).aborted,
    {
        let mut k: usize = watermark;
        let mut found = false;
        while k < self.diags.len() && !found
            invariant
                watermark <= k <= self.diags@.len(),
                found ==> has_error_from(self.diags@, watermark as int),
                !found ==> forall|j: int| watermark <= j < k ==> self.diags@[j].level != Level::Error,
            decreases self.diags@.len() - k + (if found { 0int } else { 1int }),
        {
            if self.diags[k].level == Level::Error {
                found = true;
            } else {
                k = k + 1;
            }
        }
        if found {
            self.note(
                call_site,
                "[prov.comptime] error is inside a table generated by this comptime call",
            );
        }
    }

    /// Report a failed guard's interpolated message: `ensure` reports it as
    /// an error; `ensure_fatal` also halts evaluation, reporting only if it
    /// is the first halt, so evaluation in flight unwinds silently.
    pub fn fail_guard(&mut self, fatal: bool, span: Span, text: &str)
        ensures
            !fatal || !old(self).aborted ==> diags_view(final(self).diags@)
                == diags_view(old(self).diags@).push((Level::Error, text@, span)),
            fatal && old(self).aborted ==> final(self).diags@ == old(self).diags@,
            final(self).aborted == (old(self).aborted || fatal),
            final(self).steps == old(self).steps,
            final(self).call_stack@ == old(self).call_stack@,
            final(self).defines@ == old(self).defines@,
    {
        if fatal {
            if !self.aborted {
                self.aborted = true;
                self.error(span, text);
            }
        } else {
            self.error(span, text);
        }
    }

    /// Charge one evaluation step: `false` once the step budget is exceeded
    /// (the step that reaches the budget exactly is still allowed).
    pub fn bump_step(&mut self) -> (ok: bool)
        requires
            old(self).steps < u64::MAX,
        ensures
            final(self).steps == old(self).steps + 1,
            ok == (final(self).steps <= STEP_BUDGET),
            final(self).diags@ == old(self).diags@,
            final(self).call_stack@ == old(self).call_stack@,
            final(self).defines@ == old(self).defines@,
            final(self).aborted == old(self).aborted,
    {
        self.steps = self.steps + 1;
        self.steps <= STEP_BUDGET
    }

    /// Abort evaluation on a hard limit: set the abort flag and report one
    /// error naming the active call chain (see [`abort_message`]). Only the
    /// first abort reports; later ones, while unwinding, change nothing.
    pub fn abort(&mut self, span: Span, reason: &str)
        ensures
            old(self).aborted ==> final(self).diags@ == old(self).diags@,
            !old(self).aborted ==> diags_view(final(self).diags@) == diags_view(old(self).diags@).push(
                (Level::Error, abort_message(reason@, stack_names(old(self).call_stack@)), span),
            ),
            final(self).aborted,
            final(self).steps == old(self).steps,
            final(self).call_stack@ == old(self).call_stack@,
            final(self).defines@ == old(self).defines@,
    {
        if self.aborted {
            return;
        }
        self.aborted = true;
        let n = self.call_stack.len();
        let ghost ns = stack_names(self.call_stack@);
        let mut chain = String::new();
        assert(chain@ =~= Seq::<char>::empty());
        if n > MAX_CHAIN_FRAMES {
            chain.append("... -> ");
            push_chain(&mut chain, self.call_stack.as_slice(), n - MAX_CHAIN_FRAMES);
            assert(ns.subrange((n - MAX_CHAIN_FRAMES) as int, n as int) =~= stack_names(
                self.call_stack@,
            ).subrange(n - MAX_CHAIN_FRAMES, ns.len() as int));
        } else {
            push_chain(&mut chain, self.call_stack.as_slice(), 0);
            assert(ns.subrange(0, n as int) =~= ns);
        }
        assert(chain@ =~= abort_chain(ns));
        let mut msg = String::from_str(reason);
        if chain.unicode_len() > 0 {
            msg.append(": in ");
            msg.append(chain.as_str());
        }
        self.error(span, msg.as_str());
    }

    /// Enter a comptime-fn call: refused (with the abort `recursion too
    /// deep`) at the maximum call depth, or (with the abort `step budget
    /// exceeded`) once the call's step exceeds the budget; otherwise the call
    /// is pushed onto the call stack.
    pub fn enter_call(&mut self, name: &str, span: Span) -> (ok: bool)
        requires
            old(self).steps < u64::MAX,
        ensures
            old(self).call_stack@.len() >= MAX_CALL_DEPTH ==> !ok && final(self).aborted && final(self).steps == old(self).steps,
            old(self).call_stack@.len() < MAX_CALL_DEPTH ==> final(self).steps == old(self).steps + 1,
            old(self).call_stack@.len() < MAX_CALL_DEPTH && old(self).steps + 1 > STEP_BUDGET ==> !ok && final(self).aborted,
            ok <==> old(self).call_stack@.len() < MAX_CALL_DEPTH && old(self).steps + 1 <= STEP_BUDGET,
            ok ==> final(self).call_stack@.len() == old(self).call_stack@.len() + 1 && final(self).call_stack@.last().0@
                == name@ && final(self).call_stack@.last().1 == span && final(self).call_stack@.drop_last()
                == old(self).call_stack@,
    {
        if self.call_stack.len() >= MAX_CALL_DEPTH {
            self.abort(span, "recursion too deep");
            return false;
        }
        if !self.bump_step() {
            self.abort(span, "step budget exceeded");
            return false;
        }
        let ghost before = self.call_stack@;
        self.call_stack.push((String::from_str(name), span));
        assert(self.call_stack@.drop_last() =~= before);
        true
    }
}

/// The chain a cycle guard reports when `name` is re-entered: the guarded
/// names from where `name` first entered, then `name` again.
pub open spec fn cycle_chain(stack: Seq<Seq<char>>, name: Seq<char>, start: int) -> Seq<char> {
    chain_text(stack.subrange(start, stack.len() as int).push(name))
}

/// The report of a cycle guard (`cyclic const definition: `, `cyclic type:
/// `, ...): `prefix` and the `A -> B -> A` chain from the first entry of
/// `name` on the stack, or `None` when `name` is not being evaluated.
pub fn cycle_report(prefix: &str, stack: &[String], name: &str) -> (r: Option<String>)
    ensures
        (forall|k: int| 0 <= k < stack@.len() ==> stack@[k]@ != name@) ==> r is None,
        r matches Some(m) ==> exists|start: int|
            0 <= start < stack@.len() && stack@[start]@ == name@ && (forall|j: int| 0 <= j < start ==> stack@[j]@ != name@)
                && m@ == prefix@ + cycle_chain(stack@.map_values(|s: String| s@), name@, start),
        (exists|k: int| 0 <= k < stack@.len() && stack@[k]@ == name@) ==> r is Some,
{
    let ghost sv = stack@.map_values(|s: String| s@);
    let mut start: usize = 0;
    let mut found = false;
    while start < stack.len() && !found
        invariant
            start <= stack@.len(),
            forall|j: int| 0 <= j < start ==> stack@[j]@ != name@,
            found ==> start < stack@.len() && stack@[start as int]@ == name@,
        decreases stack@.len() - start + (if found { 0int } else { 1int }),
    {
        if crate::eval::text::str_eq(stack[start].as_str(), name) {
            found = true;
        } else {
            start = start + 1;
        }
    }
    if !found {
        return None;
    }
    let mut m = String::from_str(prefix);
    let mut k: usize = start;
    while k < stack.len()
        invariant
            start <= k <= stack@.len(),
            start < stack@.len(),
            sv == stack@.map_values(|s: String| s@),
            m@ == prefix@ + chain_text(sv.subrange(start as int, k as int)),
        decreases stack@.len() - k,
    {
        proof {
            assert(sv.subrange(start as int, k + 1).drop_last() =~= sv.subrange(start as int, k as int));
        }
        if k > start {
            m.append(" -> ");
        }
        m.append(stack[k].as_str());
        proof {
            if k == start {
                assert(sv.subrange(start as int, k as int) =~= Seq::<Seq<char>>::empty());
            }
        }
        assert(m@ =~= prefix@ + chain_text(sv.subrange(start as int, k + 1)));
        k = k + 1;
    }
    m.append(" -> ");
    m.append(name);
    let ghost full = sv.subrange(start as int, sv.len() as int).push(name@);
    assert(full.drop_last() =~= sv.subrange(start as int, stack@.len() as int));
    assert(m@ =~= prefix@ + cycle_chain(sv, name@, start as int));
    Some(m)
}

} // verus!
