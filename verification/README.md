# token_cost_analyzer

Token usage accounting for local AI coding assistants (Kimi Code, Codex),
written in Verus.

- `src/` is the verified library: the Codex event state machine
  (`codex.rs`), Kimi log placement, configuration and message rules
  (`kimi.rs`), file name rules over the standard library's path splitting
  (`paths.rs`), the token record (`record.rs`), display text for token
  counts with an exact model of the `f64` arithmetic it mirrors
  (`format.rs`), command checks and tray labels (`commands.rs`), CSV export
  (`export.rs`) and the character-level text operations they share
  (`text.rs`).
- `tests/` runs the library on concrete logs and values.
- `app/` is the desktop shell: walking and reading the session
  directories, decoding JSON lines, the SQLite store, the tray and the
  floating widget (Tauri).
