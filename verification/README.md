# revault_cli

The logic of the `lockbox` command-line tool of reVault, written in Verus and
verified: each public function states what it returns in its contract, and
laws of the tool (what a written record, key or setting reads back as, what a
table lookup gives after an insert, that day numbers count civil dates, that
a derived form alias is its own alias, and so on) are proved as lemmas.

Layout:

- `src/` — the verified library, one module per concern:
  `text` (string specifications and helpers), `args` (command-line
  pre-processing), `completion` (shell completion scripts and candidates),
  `glob` (path rules), `files` and `removal` (adding, listing and removing
  entries), `forms`, `variables`, `keys` (access labels, durations, UTC
  dates), `opening` (opening and closing a lockbox), `vault` (publishing,
  fingerprints, profile backups), `access` (key slots, revocation, refresh
  reports), `messages` (diagnostics and exit codes), `output` (tables, TSV
  and JSON lines), `records`, `index` and `table` (the binary record formats
  and the hash-indexed table of a mirror run), `digest` (incremental
  SHA-256), `mirror`, `mirror_run`, `source_check` and `projects` (mirror
  plans, the decisions of an update and of the source checks, progress,
  rules and projects), `migrate` and
  `migration_run` (migration stages and the decisions of a direct
  migration), `session`, `recovery`, `context`, `paths` (the path operations
  of the standard library, as trusted wrappers).
- `tests/` — tests of the library on concrete values.
- `app/` — the `lockbox` binary: argument pre-processing, shell completion,
  error rendering and host-side helpers (file fingerprints, progress,
  exporter checks). Of the commands it runs `completion`; the others need
  the reVault storage and vault crates, which this build does not link, and
  are answered as unknown.
