# argus

Signals, Signal Temporal Logic (STL) expressions and their offline monitoring, with the
library's behaviour stated in Verus contracts and proved.

## Layout

- `src/` — the verified library.
  - `signal.rs`, `bound.rs`, `interpolation.rs`, `sync.rs`: sampled signals (time points
    in nanoseconds, strictly increasing), their domains, interpolation between samples,
    and the synchronization points of two signals.
  - `ops.rs`, `arith.rs`, `cmp_ops.rs`, `abs.rs`, `shift_ops.rs`: pointwise operations,
    integer arithmetic, time-wise comparison, minimum and maximum (with crossing
    points), absolute values, and shifts in time.
  - `wedge.rs`, `window.rs`: the streaming min/max filter over a sliding window and the
    windowed extremes built on it.
  - `temporal.rs`, `until.rs`: the temporal operators (next, oracle, eventually, always,
    until), timed and untimed, over signals of any totally ordered value type.
  - `expr.rs`, `builder.rs`, `bool_ops.rs`, `ast_iter.rs`, `relation.rs`, `interval.rs`:
    the expression tree, a builder that keeps the declared type of each variable, the
    `&` and `|` operators, and a breadth-first walk of a tree.
  - `lexer.rs`, `syntax.rs`, `parse.rs`: the specification language — tokens, a grammar
    with its parser, and the conversion of syntax trees into expressions.
  - `laws.rs`: properties that relate the operations to each other.
- `tests/` — tests of the library on concrete values.
- `app/` — what needs floating point or run-time typing: robustness (quantitative) and
  boolean semantics over traces of `f64` signals, traces themselves, and an error type
  with messages.
