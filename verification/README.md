# partiql

Core pieces of a PartiQL implementation, written in Verus:

- `src/value.rs`: PartiQL values (`Value`, `Tuple`) and their mathematical model (`Datum`),
  with the operations the evaluator uses (coercion to a tuple, concatenation, iteration).
- `src/logical.rs`: logical plans (`LogicalPlan`, operators and flows) and the expression tree.
- `src/call_defs.rs`: the built-in functions (`CHAR_LENGTH`, `SUBSTRING`, `TRIM`, ...), their
  overloads, and the case-insensitive function symbol table.
- `src/evaluable.rs`: the evaluation operators (scan, join, filter, projections, pivot,
  unpivot, distinct, sink).
- `src/plan.rs`: pipelines of operators and sub-query expressions.

An expression is modelled by what it gives for each bindings (`EvalExpr::meaning`), and an
operator by what it yields for each input it holds (`Evaluable::sem`) and the inputs it can
take (`Evaluable::dom`); the contracts of the operators, of a plan's execution and of a
sub-query state their results exactly in these terms.
- `src/escape.rs`: escaping of names for generated test files.

`tests/` exercises the library; `app/` holds the two uninhabited marker enums of the logical
plan, which Verus does not accept.
