# floaty

The core of floaty, a Windows desktop of "floaties" (app and file icons, folders, notes
and plugin widgets that float over the wallpaper), written in Verus: every function in
`src/` carries a contract, and all but a few are proved against it. The exceptions are
small wrappers marked `#[verifier::external_body]` around calls into std (Unicode case
and class tables, UTF-8 decoding, `char::from_u32`, `String::push`, `{:?}`) and into
`serde_json` (reading a field out of JSON text); their contracts are believed, not
proved, and each says in its doc comment which call it makes.

- `src/` — the library. Text and path handling, icon storage (base64, asset urls,
  fingerprints, PNG and ICO headers, the JSON walk that finds and moves icons), the
  desktop mirror (reconciling the records with a folder on disk), drops, merges,
  renames and ungrouping, the launcher palette's search and ranking, the plugin
  manifest checks and trust, the file-watch batch parser and debounce, presence rules,
  window-region bookkeeping, settings and diagnostics. The laws the library keeps are
  public proof functions beside the code they speak of.
- `tests/` — concrete scenarios, one file per module.
- `app/` — the program around the library: the startup pass over the widget store and
  the icons folder, and what the library cannot hold (screen geometry and audio
  samples, which are floating point).
