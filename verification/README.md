# libpgfmt

A formatter for PostgreSQL SQL and PL/pgSQL, written in Verus. The parser is
tree-sitter with the `tree-sitter-postgres` grammar, called through trusted
wrappers; the formatter's code is verified to terminate, not to panic and to
meet its contracts.

What the contracts state: the text passes (whitespace collapsing, literal
masking and restoring, dollar quotes, re-indenting, river lines, the
line-joining helpers) are stated exactly over spec functions. For the parse
tree, `format` and `format_plpgsql` state what is handed to the parser and
what comes back for a parse of it (`tree_formatting`,
`plpgsql_tree_formatting`): blank input, syntax errors and their report,
statements separated by blank lines, statements without a layout of their
own, and how a PL/pgSQL block opens and ends. Which tree the parser gives is
not stated.

Of the layouts, some are stated as folds over a node's children, with the
formatted text of each sub-expression left as a free piece: an expression's
pieces and parenthesised groups (`c_expr_fold`), a type name's base name,
keywords, modifiers and time zone (`type_fold`), and the split of a condition
at its top-level AND/OR (`splits_text`). Others are stated in part: the
clause lines of a river SELECT, the line shape of CREATE TABLE (one line at
least per element, then the closing `)`), of INSERT (the column list on the
first line, the source after it) and of UPDATE (the SET and WHERE lines), and the
leading keywords of the rest. The full formatted text of a statement is not
stated.

Seven styles are offered (`river`, `mozilla`, `aweber`, `dbt`, `gitlab`,
`kickstarter`, `mattmc3`), plus the `pg_dump` deparser layout, which is
selected by value only.

## Layout

- `src/lib.rs`: `format` and `format_plpgsql`, the syntax-error report.
- `src/parse.rs`: the calls into tree-sitter, behind trusted wrappers, and the
  copy of its tree into `tree::SyntaxNode`, a plain-value tree.
- `src/style.rs`, `src/config.rs`: styles, their names and their settings.
- `src/lexical.rs`, `src/expr.rs`, `src/stmt.rs`, `src/select.rs`,
  `src/text.rs`, `src/strs.rs`, `src/pgdump.rs`: text passes (whitespace,
  literals, dollar quotes, river lines), each with a spec function that says
  what it computes.
- `src/expr_nodes.rs`, `src/select_nodes.rs`, `src/stmt_nodes.rs`,
  `src/plpgsql.rs`, `src/pgdump_nodes.rs`, `src/root.rs`: the layout of each
  kind of node. Recursion is bounded by a call budget derived from the size of
  the tree.
- `app/lib.rs`: `Display` and `std::error::Error` for the error type, and
  entry points that check the input limit and read files.
