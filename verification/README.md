# Expressa

Expressa is a small teaching language with Portuguese keywords (`se`,
`senao`, `repita`, `funcao`, `inicio` … `fim`). This crate holds its front end
and the runtime's rules, verified with Verus; the interpreter program around
them lives in `app/`.

## Layout

- `src/lexer/`: the scanner (`tokenize`), its token and span types, and a
  mathematical model of the token stream it produces.
- `src/parser/`: the syntax tree, the binding-power parser (`parse`),
  the check that `se` used as a value has a `senao`, and the test the prompt
  uses to know whether a snippet is finished (`needs_more_input`).
- `src/runtime/`: what the evaluator decides without touching numbers:
  scopes and assignment across blocks and functions, 1-based positions and
  slices, runtime error text, the step debugger's state machine, the prompt's
  line handling, the built-in help, how numbers are read from and laid out
  in text for the `pt`/`en` patterns, matrix layout, and where a run's files
  may be (`workspace`).
- `src/paths.rs`, `src/aula.rs`: the classroom service's path rules (a
  student's files stay in the student's folder) and the editor's text rules.
- `src/text.rs`: small string helpers shared by the rest.
- `app/`: the `expressa` command line program: evaluation of values (which
  are floating point), file and terminal I/O, the REPL with `rustyline`.

Each public function states its result in its `ensures`; the laws that tie
functions together are public proof functions whose names start with `law_`.
