# circom_algebra

Symbolic arithmetic over the prime field of an arithmetic circuit, with its
contracts proved by Verus.

- `bigint`: integers of unbounded size; every operation is computed by
  `num-bigint-dig`, and its contract states the integer it returns.
- `modular_arithmetic`: field operations (sums, products, inverses, shifts,
  bit and boolean operations, signed comparisons).
- `coefficients`: linear combinations of signals as maps from a signal to its
  coefficient, the signal `0` standing for the constant term.
- `algebra`: expressions that stay linear or quadratic (`ArithmeticExpression`)
  and the hints that record how they were built.
- `constraint`: substitutions `signal = linear combination` and quadratic
  constraints `A*B - C = 0`.
- `evaluation`: values under an assignment of field elements to signals, and
  the laws that tie the symbolic operations to arithmetic on those values.
- `text`: JSON and the usual notation of hints and expressions.
- `ast`, `ast_export`: the syntax tree of the circuit language and its JSON
  export.
- `executed_template`: an executed template, built declaration by
  declaration; the analysis of its subcomponents (which component arrays
  are used, which mix instances of different templates, their clusters)
  and the numbering of its wires.
- `name_map`: maps keyed by names, kept in the order of `String`s.
- `signal_names`: the names of the single signals of signal and bus arrays,
  down through nested buses.
- `template_report`: the signals of a template with their kinds, and the
  JSON that opens and closes its entry in the report.
- `connexion_order`: the order of the connexions of a template (a stable
  sort by array name, then indices).
- `circuit_export`: the export of a template to the circuit: header,
  clusters, triggers, components and wires.

`app/` writes the exported syntax tree to files, and the report of each
template to the writer attached to it.
