# aunify

A small Prolog-like logic, verified with Verus: terms, substitutions, unification,
generalized statements, and a solver that searches for the solutions of a query one step
at a time.

## Library (`src/`)

- `var`, `numeric`, `term`, `pred`: variables, numeric expressions (with folding), values,
  tuples, lists and predicate applications, each with a mathematical model.
- `sub`, `subst`, `unify`, `unifier`, `numeric_unifier`: substitutions (finite maps, each
  variable bound once), substitution into terms and composition, unification, and the
  properties of unifiers (of values, and of numeric expressions up to folding).
- `thing`: the `Thing` and `Unify` traits shared by all terms.
- `bind`, `scheme`: values with bound variables, and statements generalized over their
  free variables and instantiated with fresh ones.
- `clause`, `env`: clauses and statements, and the solver. A `Solver` is a state machine
  (task, continuation frames, choice points); each `step` does a bounded amount of work and
  yields a solution, reports progress, or reports the end of the search. A `Tracer` can be
  told of each step of a traced search.
- `search`: what searches give: the answers of a disjunction, a negation, a conjunction
  and a goal in terms of the searches of their parts, both for searches that end (`answers`)
  and, step by step, for searches that may never end (`upto`).
- `ast`, `eval`: source syntax, its compilation into terms, and the evaluator of commands.
- `parse`: reading values and goals from text.
- `text`, `repl`: the text forms of terms, errors and command results, and the replies
  that drive the listing of a query's solutions.
- `written`: terms written back in source form.

Each public function states its result in `ensures` over the models; the laws of the
library (for example, that unifying a value with itself gives the empty substitution, that
a unifier makes both sides equal, or that every answer of a goal binds only the goal's
variables) are public proof functions.

## Program (`app/`)

`au [FILES...]` reads facts from the files, one goal-shaped fact per line such as
`parent(a, b)`, then reads goals such as `parent(X, b)` at the prompt and lists their
solutions one at a time: `;` or tab asks for the next one, return or `.` stops. With
`--trace`, each step of a query's search is shown on standard error.
