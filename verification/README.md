# feox

An interpreter for FeOx, a small expression language with 64-bit integers,
characters, arrays (strings are arrays of characters), first-class lambdas,
iterators built from lambdas, and `mod` blocks in which arithmetic is done
modulo a number (every number computed inside one is reduced to `0..m`, or
to `m+1..=0` for a negative `m`, and `a / b` is `a` times the inverse of `b`,
found by the extended Euclidean algorithm; where `b` has no inverse it is an
error, as is any arithmetic inside `mod 0`).

Inside a lambda, a name is looked up first in the scopes around the lambda
where it was created (so iterators keep their own state), and, where none of
them binds it, in the scope the lambda was called from (so
`let g = || x; let f = || { let x = 2; g() }; f()` gives 2). Assignment finds
its variable the same way.

The library is written in Verus and verified:

- `lexer` and `grammar` state the lexical rules and the grammar as spec
  functions; `parser` reads source text and is proved to give what they say.
  The parser has a nesting budget; `budget` proves that it always suffices,
  so a program is never refused for nesting too deep.
- `semantics` states what evaluating a tree does to a store of scopes;
  `eval` is proved to do exactly that. `arith`, `value`, `text`, `env` and
  `builtins` hold the operators, values, printing, scopes and builtins.
- `laws` proves properties of the language as a whole: `mod` blocks restore
  the moduli they open, assignments change only their variable, loops give
  `nil`, `&&` and `||` short-circuit, division inside a `mod` block inverts
  multiplication, and more.
- `session` sets up the global scope with the builtins, holds the standard
  library (written in FeOx) and runs pieces of source.

Evaluation takes a step budget: `eval` and `run` take a `fuel` argument, each
nested evaluation step spends one unit, and running out gives the error
`StepLimit` instead of looping forever. The command-line program passes
`u64::MAX`, so for it the budget is in practice unlimited.

Scopes live in one store and are referred to by their index in it. Each call
(including the call of the iterator that each step of a `for` loop makes)
opens a new scope; scopes are never freed, so the store grows with the
number of calls a program makes.

`app/` holds the command-line program: a REPL, or a file to run. What a
program prints is collected in the store and written out when the piece of
source that printed it has finished running; standard input is read, whole,
only when the source text mentions `input`.
