# tarpaulin reports

Coverage report generation, verified with Verus.

- `src/` — the library: path and trace models, the plain-text report
  (`reporting::stdout`), the Cobertura model (`reporting::cobertura`), the
  Coveralls identity and per-file line hits (`reporting::coveralls`,
  `report::coveralls`), and the HTML page (`report::html_report`).
- `app/` — what writes to stdout or files, reads source files and talks to
  Coveralls, around the library.
- `tests/` — tests of the library on concrete values.
