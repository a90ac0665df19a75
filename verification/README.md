# sea

A static memory-safety analyzer for C, and for Sea (a small class-based dialect of C),
whose analysis is verified with Verus.

`sea` parses a source file with tree-sitter, lowers it (a Sea file, each top-level declaration)
to a control flow graph (petgraph), and runs a fixed-point ownership analysis over it that
reports, once every block's state has settled, double
frees, uses after free, null and uninitialized dereferences, leaks, returned stack addresses,
pointers that outlive their targets and freed pointers passed to functions. Facts that hold
on only some paths give warnings. Sea files also get the language's rules: constructors,
`drop()`, interfaces, inheritance, method calls and their arities.

## Layout

- `src/syntax.rs` — the syntax tree the library works on; `src/ts.rs` builds it from tree-sitter.
- `src/lowering.rs` — statements of interest and the control flow graph (`build_cfg`).
- `src/cfg.rs`, `src/variable_info.rs`, `src/analyzer_state.rs` — block states and their join.
- `src/analysis.rs` — what each statement does to a state and reports.
- `src/worklist.rs`, `src/graph.rs` — the fixed-point iteration over the graph.
- `src/sea_info.rs`, `src/sea_checks.rs` — the rules of Sea.
- `src/sea.rs` — the analyzer of a file (`Sea`).
- `src/laws.rs` — properties of the analysis as a whole, proved.
- `app/main.rs` — the command line: reads the file and its imports, prints the findings.

The code in `src/` is verified by Verus against its contracts; calls into tree-sitter, petgraph
and std that Verus cannot read go through small trusted functions whose contracts say no more
than those libraries document.
