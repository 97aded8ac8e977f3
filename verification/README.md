# code_profile_sync

Keeps the profiles of a VS Code OSS–based editor (VSCodium, Code - OSS, Cursor)
in sync with a declarative TOML config: settings and extensions layered from
`[global]`, reusable `[groups.*]`, `[default]` and `[profiles.*]`, pushed into the
editor, pulled back from it, or reconciled both ways against a snapshot.

## Layout

- `src/` — the verified library (Verus). Every decision the tool makes is here,
  with its contract: config layering (`config`), the 3-way merge and what each
  command changes (`sync`), extension membership, the shared pool and vendoring
  (`extension`), the editor's paths, profile registry and discovery (`editor`),
  app-home paths and editor identifiers (`app_config`), session choices
  (`session`), tolerant JSONC reading (`jsonc`), reading and writing JSON text
  through `serde_json` (`json`), and the detection of a running editor
  (`safety`).
- `tests/` — tests of the library on concrete values.
- `app/` — the command-line program around the library: argument parsing,
  reading and writing files (the library turns their text into values and back),
  prompts, and running the editor's CLI.

Laws the library guarantees (for example, that capturing a profile and
resolving the config gives back what was captured, for extension ids in normal
form, which ids read from ASCII entries are; or that a one-sided change always
wins a sync) are stated and proved as `lemma_*` proof functions next to
the functions they are about.
