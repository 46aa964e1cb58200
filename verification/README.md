# vietnamese_input

A client-side Vietnamese input composer, verified with Verus. Keystrokes are
fed to an input-method engine (Telex, VNI or VNI Windows) that rewrites a
per-session composition buffer; completed syllables are Unicode-normalized
and handed back for delivery to a remote session.

## Layout

- `src/` — the verified library.
  - `text` — character and string helpers with their specifications.
  - `syllable`, `tone` — vowel glyph tables, syllable parsing, tone placement.
  - `buffer` — the composition buffer and its undo history.
  - `marks`, `telex`, `vni`, `vni_windows` — the input-method engines, each
    specified by a step function on the abstract buffer.
  - `unicode_norm` — NFC/NFD output normalization (`unicode-normalization`).
  - `key_event` — the keyboard event the host pipeline exchanges.
  - `composer` — per-session routing, commit, flush, backspace and resource
    guards, with the laws that tie them together.
  - `integration` — shortcut detection and the key-event pipeline over an
    explicit `InputState`.
  - `config` — persisted settings: field encodings, load/save through an
    `OptionStore`, activation.
  - `config_parser` — custom input-method files: size limit, failure
    classification, conflict and cycle detection in rule sets.
- `tests/` — unit and scenario tests run against the compiled library.
- `app/` — host glue: the process-wide state behind a mutex and the
  serde-based JSON/TOML readers and writers of configuration files.
