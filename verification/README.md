# little_lamb

An untyped lambda calculus interpreter whose library is verified with Verus.

A program is tokenized, parsed into an `Ast`, desugared into an `Expr`
(numerals and `true`/`false` become Church encodings,
`let`/`letrec`/`import` become applied lambdas), converted to de Bruijn `Term`s and evaluated to normal form by one
of several evaluators (the full-reducing KN machine by default).

## Layout

- `src/lexer.rs`, `src/parser.rs`: the tokenizer and the parser, each proved
  against a specification of the language (`tokenize_spec`, `parse_spec`).
- `src/syntax/`: `Ast`, `Expr`, `Term` with their mathematical models,
  desugaring and the printers.
- `src/import.rs`: module resolution (files next to the program first, then
  the built-in library), import cycle detection, and the built-in library.
- `src/eval/`: de Bruijn conversion, shifting and substitution, and the
  evaluators: substitution, normal-order small steps, the Krivine machine and
  the KN machine. Each evaluator is specified step by step as a run of its
  machine (`substitution_eval`, `small_step_eval`, `krivine_eval`,
  `kn_eval`) and proved to return exactly what that run gives, within its
  step limit; each returns a normal form that the input reduces to. The
  machines work on terms, contracting redexes by substitution: the Krivine
  machine keeps a stack of pending arguments, the KN machine a stack of
  frames (an argument, a neutral head, a lambda to rebuild).
- `src/laws.rs`, `src/lexer_laws.rs`, `src/parser_laws.rs`: properties that
  relate several operations (round trips, the meaning of the syntactic
  sugar, white space and comments).
- `app/main.rs`: the command line program: reads a file (and the `.lil`
  files next to it) or standard input and prints the result.

## Syntax

```
\x y . x            -- lambdas, several parameters are nested lambdas
f x y               -- application, left associative
let a = 1, b = 2 in a
letrec f = \n. f n in f
import add, K as const in add 2 3
import and in and true false
```
