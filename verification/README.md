# lisplens

Token-efficient, polyglot Lisp editing: read a file's shape cheaply, name any
form by a short content anchor (`line:hash`), edit by anchor in all-or-nothing
batches, refactor (rename, inline, rewrite, extract), compare two files
definition by definition, and reindent Lisp source the way Emacs does (Emacs
Lisp, Common Lisp and the Scheme family) or the way cljfmt and `phel format`
do (Clojure and Phel, with the fixed "Tonsky" style as an option; ISLisp
in the opt-in EISL style rides the same engine).

The library under `src/` is written in Verus: each public function states what
it returns in its contract, and Verus proves the code meets it. The parse
itself is `lispexp`'s; the library names its result (`reader::datum_tree`),
turns byte offsets into character offsets by verified code, and states every
planner and formatter over the forms that source reads as
(`reader::reads_as`).

Layout:

- `src/reader.rs`: the tree the library works on, and the outside parser.
- `src/edit.rs`, `src/linehash.rs`, `src/patch.rs`, `src/apply.rs`,
  `src/resolve.rs`, `src/structural.rs`: anchors, patches and splicing.
- `src/format.rs`, `src/format/commonlisp.rs`, `src/format/clojure.rs`,
  `src/indent_table.rs`, `src/config.rs`, `src/nameless.rs`: the reindent
  engines and their settings.
- `src/refactor.rs`, `src/rewrite.rs`, `src/extract.rs`: refactorings.
- `src/parinfer.rs`, `src/diff.rs`, `src/units.rs`, `src/html.rs`,
  `src/outline.rs`: parinfer modes, the form diff, the file diff by
  definition (and in depth), their HTML pages, and the outline.
- `app/`: the command line and the MCP server (file I/O, JSON), calling the
  library.
- `tests/`: tests against the compiled library.

What this crate does not carry:

- Fennel, Janet, Hy and LFE are reindented by the generic (Emacs Lisp)
  engine and are not formatted automatically after edits.
- There is no `refs`, `docstring` or macro-expansion tool, and `extract`
  moves one form at a time (no `--also`).
- The HTML pages take their per-depth padding styles from the caller (the
  command line computes them as 1.4em per level in floating point, which
  the library does not hold).
