# Lox interpreter, verified

A tree-walking interpreter for the Lox language, written in Verus. The
library under `src/` is verified; `app/` is the command-line program around
it.

- `scanner` turns source text into tokens; its contract is a lexical
  grammar written as spec functions.
- `parser` turns tokens into statements; its contract is the grammar,
  with error recovery, written as spec functions.
- `resolver` finds, for each use of a local variable, the scope it refers
  to, and reports the static errors.
- `runtime` holds values and the environment of scopes that a running
  program reads and writes.
- `interpreter` runs a program as a machine that takes one small step at a
  time. What it cannot do itself (print, read the clock, floating-point
  arithmetic) it asks of the host through the action each step returns:
  the host prints, or computes a number and hands it back with `supply`.
- `state` is a simpler environment, a chain of scopes for values without
  functions.
- `errors` holds the error type and how each error is shown.

Run a script with `app <script>`, or start a prompt with no argument.
