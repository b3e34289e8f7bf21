# stratum_core

Core building blocks of the Stratum language tooling, written in Verus: each
public function carries a contract that states its result, and the
properties that span several calls are stated and proved as proof functions.

## Layout

- `src/doc/` — documentation generation
  - `types.rs`: documented items and modules, and the doc-comment parser
  - `ast.rs`: the parts of a parsed module that documentation is drawn from
  - `extractor.rs`: documented modules extracted from parsed modules
  - `project.rs`: the project-wide symbol index, lookups and links
  - `index_laws.rs`: what indexing a module makes findable
  - `crosslink.rs`: cross-links from type names in signatures and text
  - `search.rs`: the JSON search index and the search script and style
  - `markdown.rs`, `html.rs`: the Markdown and HTML pages
- `src/data/` — data-layer building blocks
  - `memory.rs` (with `memory/laws.rs`): the allocation profiler and its report
  - `lazy.rs` (with `plan_laws.rs`): lazy query plans and their optimizer
  - `plan_run.rs`: running a plan on a table, through the table operations
    each step names, and why optimizing a plan keeps its result
  - `value.rs`, `series.rs`, `series_ops.rs` (with `series_laws.rs`): typed
    cells and columns, comparisons, logic and arithmetic on them
  - `dataframe.rs`, `frame_ops.rs`, `frame_sort.rs`, `frame_join.rs` (with
    `frame_laws.rs`): tables, reshaping, sorting, joins, concatenation
  - `join.rs`, `merge.rs`, `reshape.rs`, `window.rs`: row-level joins, merges,
    pivots and window functions
  - `grouped.rs`, `grouped_frame.rs`: group keys, aggregation specifications,
    tables grouped by columns and their aggregations
  - `predicate.rs` (with `predicate_laws.rs`), `expr.rs`: filters and
    expressions
  - `error.rs`, `parallel.rs`: data errors and parallel-execution settings
- `src/text.rs`, `src/fmt.rs`, `src/sort.rs` — string, number-formatting and
  sorting helpers shared by the modules above
- `app/lib.rs` — process-wide state kept in statics: the global profiler,
  the parallel threshold and Rayon's global pool, and plan explanations
- `tests/` — tests of the library, run against the compiled crate
