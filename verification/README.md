# wr

A small command line tool for test-driven workshops. The exercises of a workshop lie in
`<exercises>/<NN>_<chapter>/<NN>_<exercise>`, each a crate with its own tests. `wr` verifies the
exercises that are open, remembers in a small database which of them pass, and offers the next
one.

- `src/` holds the rules, verified with Verus: how directory names define exercises and in which
  order they come (`pattern`, `definition`, `ordered`, `collection`), what the database keeps and
  what each statement makes of it (`progress`), which exercise comes next (`next`), how an
  exercise is verified (`config`, `command`, `verify`), how the open ones are walked over (`seek`),
  what the user's words mean (`selector`, `session`), which exercise lies in the current
  directory (`locate`) and what the user reads (`messages`).
  Functions from other crates and from the standard library that are taken on trust are in
  `outside`, each with what is claimed of it.
- `app/` reads directories and files, talks to the database and the terminal, and runs the
  commands.
- `tests/` runs the library, the statements also against a real database in memory.

Proof functions named `law_..` state what holds across several functions.

Paths are text. Where `/` separates their parts, how they are put together is proved; elsewhere
the standard library does it (`path`).
