# TinyLanguage

A small typed functional language — a lexer, a precedence parser, a static
type checker for `Int`, `Bool` and function types, and an interpreter with
lexical scoping and closures — verified with Verus.

```text
let add = \x: Int -> \y: Int -> x + y in add 2 3
```

## Layout

- `src/ast.rs` — types, operators, expressions and their models.
- `src/lexer.rs` — `lex`, against the model `lex_spec`.
- `src/parser.rs` — `parse_expr`, against the model `parse_spec`, and the
  precedence and associativity laws.
- `src/types.rs` — `type_of`, against the model `type_spec`.
- `src/eval.rs` — `eval`, against the fuel-indexed model `eval_in`.
  Environments keep one binding per name, in the order of names, so that
  two environments with the same bindings are built alike; their bindings
  are shared by reference counting between closures and extensions.
- `src/soundness.rs` — type soundness: preservation, progress and
  normalization.
- `src/programs.rs` — laws about whole programs from source text to values.

## Lexical notes

- A `-` followed at once by a digit starts a negative integer literal,
  except where it must subtract: right after a character that can end an
  operand (a letter, a digit, `_`, `)`), or after a literal or `)` with only
  spaces between. So `f -3` applies `f` to `-3` and `if c then -3 else -4`
  reads two negative literals, while `x-3`, `x - 3`, `1 -3` and `(x) -3`
  subtract. The spacing matters after a name: `x -3` applies `x` to `-3`.
- Integer literals must fit in `i64`.

## Grammar notes

- In `\x: T -> body`, the parameter type is read greedily; an arrow after
  which no type follows ends the type, so `\f: Int -> Int -> f 1` has a
  parameter of type `Int -> Int`.
- An application takes as many atoms as follow it.

## Equality

- `==` takes two operands of the same type, whatever it is, and gives
  `Bool`. Two closures are equal when their parameters, their bodies and the
  environments they captured are equal; environments are equal when they bind
  the same names to equal values, in whatever order the bindings were made.

## What is proved

Every function meets its contract: lexing, parsing, checking and evaluating
give exactly the results (and error messages) of their models. Evaluation is
deterministic in its fuel. A closed expression that type-checks never fails
to evaluate, never runs forever, and, unless its arithmetic overflows,
evaluates to a value of its type; the same holds under any environment whose
values fit the typing environment. Lexing two texts joined by a space gives
the tokens of both, except where a literal or `)` ends the first and a
negative literal starts the second. The sample programs `a + b * 2`,
`if flag then a else b` and `let x = a in let f = \y: Int -> x + y in f b`
are followed from their source text, for every `a` and `b` whose
arithmetic fits in `i64`, through tokens and types to their values.
