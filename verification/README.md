# conventional (verified)

A parser for [Conventional Commits](https://www.conventionalcommits.org)
messages, written in Verus. `parse` turns a raw message into a `Commit`
(type, scope, breaking flag, description, body, footers) or an `Error`, and is
proved to return exactly what the model `spec_parse` says for every input.

Layout:

- `src/text.rs` — the character-level model (Unicode whitespace, trimming,
  CRLF normalisation, lines, blank-line paragraphs) and the executable scans
  that compute it on ranges of a character slice, with the trimming and
  line-ending lemmas.
- `src/commit.rs` — the commit types, their models, the spec of each parsing
  step and the verified parser.
- `src/error.rs` — the error type, its model and its message text.
- `src/laws.rs` — properties of the parser as a whole (surrounding
  whitespace, CRLF line endings, empty messages, error headers, the breaking
  flag, the shape of a parsed commit, trimmed footer values, the header line
  deciding the header, header and footer round trips, error messages,
  `from_raw`/`as_str` round trips).
- `src/report.rs` — what the command line computes: splitting input into
  messages and the report lines for a commit.
- `app/main.rs` — the command-line program (arguments, stdin, printing, exit
  status).
