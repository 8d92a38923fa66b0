# nova

The NOVA language toolchain as a verified library: the front end (lexer, two
recursive-descent parsers, declaration summaries), SI unit dimensions and
unit-string resolution, Hindley–Milner type inference with unit and tensor
types, tensor shape checking and lowering, the computation graph of
reverse-mode automatic differentiation, code-generation helpers, and the
formatter, manifest, package-manager and language-server logic.

Each component states its behaviour over plain mathematical values: the
lexer and parsers are proved to compute grammars written as spec functions
over the characters and tokens, unit strings are resolved against a grammar
and the SI table, unification is specified by its outcome on resolved types,
and the graph's reverse topological order is proved to list each node
reachable from the output once, before its inputs, or to fail on a cycle. Laws that relate several operations (unit algebra, scope
shadowing, unit mismatches as compile-time errors, idempotence of applying a
substitution, the lexer's output meeting the parsers' precondition, ...) are
public proof functions.

Layout:

- `src/` — the library, verified with Verus: `frontend`, `unit_resolver`,
  `typechecker`, `tensor_lowering`, `autodiff`, `codegen`, `toolchain`, and
  the string helpers `text` and `strings`.
- `tests/` — tests of the library on concrete values.
- `app/` — what the library does not hold: file and console I/O of the
  `nova` and `nebula` command lines, the language server's entry point, the
  floating-point side of automatic differentiation and unit scales, and
  error types with `std::error::Error`.
