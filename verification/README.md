# specgen

A workflow template generator and validator, as a verified library with a
command line around it.

- `src/` is the library, written in Verus: template parsing (JSON, Markdown
  with XML tags, TOML), the `{{...}}` renderer, schema validation, the memory
  and label engines, the Craft block importer's logic, the crontab and sync
  decisions. Every function there carries a contract that Verus proves; the
  calls into outside crates (serde_json, toml, quick-xml, pulldown-cmark,
  serde_yaml, jsonschema, regex, base64, uuid) stand behind small trusted
  wrappers whose contracts are written next to them.
- `app/` is the `specgen` program: argument handling, files, SQLite, HTTP,
  processes and the other I/O, calling the library for every decision.
- `tests/` exercises the library on concrete values.
