# codexresume

A picker for earlier Codex sessions that then runs `codex resume <SESSION_ID> <forwarded args>`.
It lists sessions of every provider by reading `config.toml`, `session_index.jsonl` and
`state_*.sqlite` directly.

## Layout

- `src/` is the library, verified with Verus:
  - `text.rs`: character-level helpers (trimming, prefixes, decimal digits, padding).
  - `data.rs`: session rows, sort keys, ordering, search filtering, rows from database columns.
  - `query.rs`: the SQL for a page of sessions and for the latest session.
  - `cli.rs`: reading the command line into a plan, with the flags this tool consumes.
  - `config.rs`: resolving the Codex home, the SQLite home and the state database.
  - `session_index.rs`: reading session names from the end of `session_index.jsonl`.
  - `picker.rs`: the picker state machine (keys, paging, loaded pages).
  - `ui.rs`: the text of every line the picker draws.
- `app/` is the program around it: arguments and environment, files, the database, the
  terminal and the `exec` of `codex resume`.
- `tests/` runs the library on concrete values.
