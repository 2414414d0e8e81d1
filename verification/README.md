# pace_compiler

The front end of the Pace compiler and the data structures of its runtime,
written in Verus: every function in `src/` carries a contract that Verus
proves.

## Layout

- `src/interner.rs`, `src/types.rs`, `src/session.rs`: string interning, the
  type arena (each type stored once) and the session that owns both.
- `src/token.rs`, `src/ast.rs`, `src/parser.rs`: tokens, the syntax tree and
  the recursive-descent parser with error recovery; `src/spelling.rs` relates
  expression and statement trees to the tokens that spell them, and each
  parsing function states that the tokens it consumed without error spell
  what it returned, and that it fails only after reporting an error. Success
  is owed on a fragment of the language: expressions built from literals,
  names, `self` and arrays of these, with member access, `!`, calls and
  indexes whose arguments are single tokens, and the binary operators but
  `<`; `let`/`var`, `return`, `if`/`else`, plain enums, empty classes and
  functions whose parameter and return types are bare names. On such
  input each parser returns a result, reports nothing and stops where the
  construct ends.
- `src/scope.rs`, `src/resolver.rs`, `src/modules.rs`: lexical scopes, name
  resolution, and the resolution of a graph of modules.
- `src/env.rs`, `src/checker*.rs`, `src/check_*.rs`, `src/substitution.rs`,
  `src/mangle.rs`, `src/tables.rs`: the type checker. Each checking function
  states, as a relation between the checker before and after, exactly which
  type it gives and which diagnostics it adds.
- `src/runtime.rs`: the maps, sets, string builders and reference counts that
  compiled programs use, over plain values.
- `src/laws.rs`: properties that span several functions (interning is
  idempotent, scoping and shadowing, assignability, what a map read gives
  after a write, reference counting).
- `app/`: the parts that stay ordinary Rust: the C-callable runtime entry
  points, printing, allocation, networking, actors and the task runtime.
- `tests/`: tests on concrete inputs.
