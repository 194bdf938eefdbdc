# gage

Core logic of gage, a tool that scans coding-agent session logs and
project configuration for issues, written in Verus: each function in
`src/` carries a `requires`/`ensures` contract that Verus proves.

Layout:

- `src/` — the verified library.
  - `datetime`: civil dates from epoch days and back, ISO 8601 timestamps.
  - `human`: human-readable elapsed times and durations.
  - `text_resolve`, `resolve`: URI-scheme dispatch of text values, first
    content line of a document.
  - `config`, `home`, `author`, `uuid`: settings, the agent's state root,
    note authorship, identifiers.
  - `json`: the JSON model that session lines are read into.
  - `tables`: what the session, entry and message tables derive from the
    lines of a session file.
  - `outline`, `doc`: the session viewer's outline and document model.
  - `print_format`, `query_tool`, `target_content`: output formats, the
    agent-facing SQL tool's replies, and note-target rendering.
- `app/` — ordinary Rust around the library: environment, files,
  terminal styling, and serialization with serde.
- `tests/` — tests run against the compiled library.

Calls into other crates (chrono, textwrap, uuid, std's clock and paths)
sit behind small trusted wrappers whose doc comments say what their
contracts assume.

Not part of this crate: the SQL engine and its table providers
(datafusion, arrow), the agent tool server (rmcp), the scanner runtime
(rune) and the terminal viewer (ratatui). The library holds the row-level
logic those parts run: which lines become rows, what each row holds, row
limits, output formatting and the tool's replies. The entry classifier
(IDE-tag splitting, subtypes, attachment blocks), the session directory
walk and the id filter are supplied by the caller: the library takes the
tag split as a function and the classifier's results as facts.
