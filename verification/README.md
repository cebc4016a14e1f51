# isuscope

isuscope records the benchmarks of an ISUCON contest. A run is one benchmark together with its
hypothesis, the state of the source, the configuration, what the collectors observed on the nodes,
and what was later concluded. Runs can be reported, compared and queried.

## Layout

- `src/` is the library. Everything it decides is stated in the contracts of its functions and
  proved by Verus: the parsers of the observing tools, the metrics and their aggregation, reports,
  comparisons, queries, the states of a run, the rules of a configuration.
- `app/` is the program around it: arguments, files, processes, SSH, the index in SQLite, the pages
  in a browser. It hands the library plain values and does what the library says.
- `tests/` runs the library on concrete values.

## How values are modelled

- Texts are sequences of characters, bytes sequences of bytes; `text.rs` and `bytes.rs` hold what is
  done to them.
- A floating-point number is its bits (`number.rs`). The library compares numbers itself; adding,
  dividing, reading and writing them is done by functions that the caller passes in, and contracts
  speak of what these functions give.
- A point in time is a number of nanoseconds (`moment.rs`).
- Keys, orders, groups and joins are generic (`order.rs`, `join.rs`); rows of reports are groups of
  metrics by their keys.
- What comes from a crate (regular expressions, JSON, dates, digests, compression) goes through a
  few functions that say what is taken on trust: `pattern.rs`, `json.rs`, `clock.rs`, `digest.rs`,
  `compression.rs`, and single functions in `text.rs`, `sql_shape.rs`, `init.rs` and `cleanup.rs`.

Public proof functions state what holds of several functions together, such as that a
comparison shows every row of both runs, that a project is made once and keeps the files that were
there, that a quantile is never averaged, that the shape of a statement is its own shape, that
no moment belongs to the initialization and to the load, or that a comparison whose premises are
unknown is not called the same.

## Templates

`isuscope init` writes a project from templates. They are read from `templates/` beside the program,
or from the directory that `ISUSCOPE_TEMPLATES` names.
