# sigil_frontend_emp

Verified building blocks of the `.emp` front end's comptime evaluator, written
in Verus.

- `src/eval/env.rs`: the lexical scope chain (define, lookup, assign, scopes),
  specified over a sequence of maps.
- `src/eval/diag.rs`, `src/eval/expansion.rs`: the FSTRING encoder, the
  `assert` auto-message, and the `assert`/`raise_error` desugar into `asm`
  statements.
- `src/flag_check.rs`: the per-proc control-flow graph (68000 and Z80 edge
  builders) and the flag-result checks that walk it: unused carry results,
  reads of conditional results on their invalid path, and the cc-success edge
  credits.
- `src/eval/operands.rs`, `addressing.rs`, `inline_data.rs`: operand
  recognizers (the `movem` mask among them), the addressing-mode rules
  (absolute windows, indexed displacements, size suffixes) and `dc` data.
- `src/eval/expr.rs`, `typed.rs`: bare integer arithmetic (overflow is an
  error) and typed arithmetic (prim values wrap at their width, fixed-point
  values combine scales), `rescale`.
- `src/eval/args.rs`, `guard.rs`, `matching.rs`, `enums.rs`, `bitfield.rs`,
  `strings.rs`, `const_arity.rs`, `builtins.rs`: call-argument binding, guard
  templates, `match` exhaustiveness, enum discriminants, bitfield packing,
  the string and byte builtins, const-arity targets, the `val` reader.
- `src/eval/interp.rs`: the comptime interpreter core over scalar values
  (integers, booleans, strings): expression evaluation under the step budget
  (paths through the scope chain and `-D` defines, unary and binary
  operators, short-circuit logic), statement execution (`let`, `comptime
  var`, assignment, `if`, `while`, comptime blocks, `return`) and the
  lowering of `asm` labels and comptime `if`s.
- `src/eval/lowering.rs`, `dispatch.rs`, `pattern.rs`, `literals.rs`,
  `defines.rs`, `emit.rs`: statement lowering decisions (`let` registers,
  `todo!`/`unreachable!`, `assert` prechecks, the whole `raise_error`
  expansion), the call dispatch order, pattern binding against enum values,
  checked struct literals, `-D` defines, and checked data emission (ranges,
  scalar and pointer cells, ASCII byte arrays, struct shapes).
- `src/eval/compress.rs`: the concrete bytes the compression builtins take,
  their size gates, the `zx0` header, and the compressors' refusals.
- `src/eval/evaluator.rs`: diagnostics, the step budget, call depth, abort
  and cycle reports.
- `src/eval/sandbox.rs`: lexical path resolution below the source root, the
  SHA-256 capture ledger, `embed` slices and the `import` format.
- `src/ast.rs`, `src/value.rs`, `src/layout.rs`: the syntax, code items and
  types these functions read.

`app/` holds the file-system half of the sandbox (including `embed`'s read)
and map-keyed entry points for the flag checks.
