# BudgetTool API

A self-hosted personal finance service around hledger: users upload
journals and bank CSV files, describe CSV conversion rules, enter prices and
transactions by hand, keep per-journal settings in a managed header, and run
hledger reports.

## Layout

- `src/` — the verified library (Verus). Every function there carries a
  contract that Verus proves:
  - `filename`, `files`: cleaning uploaded names, extensions, journal names,
    and the checks and names behind uploads, CSV conversion and journal
    creation;
  - `journal_settings`, `settings_laws`: reading settings from a journal's
    preamble or managed header, rendering and replacing the header, checking
    includes (with a cycle-detecting walk), and the laws that tie writing
    and reading together, and the law that the include walk reports a cycle
    exactly when the root is reachable;
  - `rules_gen`, `rules`: validation and generation of hledger `.rules`
    files, and rules-config records;
  - `manual_entries_gen`, `manual_entries`: validation and generation of the
    manual-entries journal, and the records and changes behind it;
  - `reports`, `hledger`: report command lines, how a run is judged, and
    the JSON it prints;
  - `auth`, `error`: login decisions, token claims, and error answers;
  - `text`, `pattern`, `json`: text utilities, and the trusted boundary to
    the `regex` and `serde_json` crates.
- `tests/` — tests of the library, run with the real outside crates.
- `app/` — the server: routes, database, files on disk, hledger processes,
  JSON forms of the library's types, tokens.
