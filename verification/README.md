# turbo_search

File-name and file-content search over an in-memory index, written in Verus: the
library's behaviour is stated in `requires`/`ensures` contracts and proved.

## Layout

- `src/` — the verified library.
  - `text.rs` — character and byte helpers (digits, trimming, UTF-8 slicing, number
    formatting) and the few std string functions the library relies on.
  - `matchers.rs` — glob patterns, regular expressions and the skim fuzzy scorer, each
    tied to the text it was built from.
  - `index.rs` — file entries and the index with its lowercase-name lookup table. Each
    constructor and update leaves the table either in agreement with the entries or
    marked for a rebuild, so a name lookup answers exactly the entries of that name.
  - `stored_index.rs` — the gzip framing of a stored index (through `flate2`) and the
    order in which the stored forms are tried on loading.
  - `search.rs` — size filters, file-name search (glob, regex, fuzzy with ranking) and
    line-by-line content search; laws on what each search returns.
  - `history.rs` — the search history (most recent first, one entry per pattern, bounded).
  - `utils.rs` — size and path display, media-file kinds, hashed file names.
  - `gui.rs`, `gui/state.rs`, `gui/ui_components.rs` — front-end state that needs no widget
    toolkit: themes, favorites, pagination (with its laws), file categories, the
    size-filter text of the search bar, and the decisions the result view makes.
  - `cli.rs`, `cli_search.rs`, `error.rs`, `config.rs`, `file_watcher.rs`,
    `incremental_index.rs`, `mft_reader.rs`, `timeval.rs` — command-line decisions, error
    messages, reported file changes and how they update the index, volume names and the
    entries a volume listing gives.
- `tests/` — tests run against the compiled library.
- `app/` — the `turbo-search` program: argument parsing, logging, directory walks,
  persistence of the index (its serde forms), history, settings and favorites, and file watching.
