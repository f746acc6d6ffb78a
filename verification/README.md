# wiktionary_en

A dictionary built on the extracts of Wiktionary that kaikki.org publishes:
look words up in a database or directly in the dictionary files, get a
suggestion when a word is not found, keep a search history, and let Lua
extensions format and intercept the results.

## Layout

- `src/` is the library, written in Verus: every function carries a
  contract. Verus proves the contracts of the library's own functions; the
  small wrappers that call `colored`, `textwrap`, `base64`, `edit-distance`,
  `rand`, `chrono` and the standard library are marked `external_body`, and
  their contracts are taken as stated from those crates' sources and
  documentation.
  - `language` — the supported languages and their codes.
  - `text`, `style`, `render` — joining, wrapping and indenting text,
    terminal styling, and the templates that formatted text is proved
    against.
  - `entities` — dictionary entries and their formatting, results,
    history entries and the configuration.
  - `exhaustive_search` — the search through the entries of a dictionary
    file: exact matches and the closest entry, and how the results of
    partitions are put together.
  - `identifier_index` — the objects of the word index, the term sent for
    suggestions, and the choice of a suggestion.
  - `distance` — edit distances.
  - `file_utils`, `db`, `download`, `extension`, `cli`, `stats` — the
    decisions of the tools: paths, imports, downloads, what the extensions
    answer, which result a lookup shows and how it is displayed.
- `tests/` runs the library on concrete values.
- `app/` holds the command line programs: argument parsing, the PoloDB
  database, the Sonic index, the Lua runtime, downloads, the pager and the
  files, all calling the library for their decisions.
