# hurl (verified core)

Parsing and output rules of the Hurl HTTP runner, written in Verus with
their contracts proved.

- `src/reader.rs`, `src/chars.rs`: a character reader that tracks line and
  column, and the character classes the parsers read.
- `src/config_file.rs`: skipping whitespace and comment lines in a
  configuration file.
- `src/primitives.rs`, `src/template.rs`, `src/cookiepath.rs`,
  `src/regex.rs`, `src/filter.rs`, `src/query.rs`: the query grammar. Each
  parser's result and final reader state equal those of a spec function of
  the grammar.
- `src/path.rs`: where a file name resolves and whether it stays under the
  file root.
- `src/runner.rs`, `src/output.rs`, `src/http.rs`, `src/term.rs`: outputs,
  runner errors, and what writing the last response produces.
- `src/pretty.rs`: prettifying a JSON body, one member or element per line.
- `app/`: the file and terminal writes that the library hands back.

Regular-expression literals are compiled with the `regex` crate.
