# shell_runtime

A runtime for shell scripts. It evaluates words (parameters, substitutions, arithmetic, field
splitting, patterns) and runs commands (lists, conditions, loops, functions, subshells,
redirections) in environments that can be nested.

The library in `src/` is verified with Verus. It does no input or output itself: a running
command is a machine that asks for what only the system can do, such as opening a file or starting
a program, and that goes on with what came of it. `app/` is the part that deals with the system.

- `src/ast.rs` is the syntax tree. Evaluation is in `param.rs`, `arith.rs`, `split.rs`,
  `pattern.rs`, `word.rs` and `redirect.rs`, environments are in `env.rs`, and commands in
  `machine.rs` (what a step does) and `run.rs` (the code that does it).
- `src/laws.rs`, `course.rs`, `constructs.rs`, `ways.rs` and `invariants.rs` hold what is proved
  of the library beyond the contracts of its functions.
- `tests/` runs the library, with a made-up system where one is needed.

Where an evaluation comes upon something without a meaning (a number that does not fit, a construct
that is not supported), its outcome is `Undefined`. Each such function comes in two forms: `eval`
asks its caller to rule this out, and `try_eval` reports it.
