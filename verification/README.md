# tzlint

A Japanese-first natural-language linter whose rules are verified with Verus.

- `src/` is the verified library:
  - `ast`, `morph`, `json`, `text`, `util`: the document model the rules read (nodes with their
    text, spans and morphological tokens), JSON values, and character/byte text helpers.
  - `rules/`: the built-in rules (`max-ten`, `no-doubled-joshi`, `ja-prh`, ...), each with a
    spec function that says exactly which reports it makes for a node, and `registry` to build
    them by id with their options.
  - `pdk/` and `plugins/`: the plugin development kit (request/response types, text helpers
    such as sentence splitting and pattern matching) and the four lint plugins built on it.
  - `wasm`: resolving the configured rule set, severity spelling and dictionary pins for the
    WebAssembly build; `net`: the address rules that guard outgoing requests.
  - `files`: the inclusion and exclusion globs and the sorted, repeat-free selection of paths.
  - The trusted boundaries, each a small wrapper whose contract Verus takes on trust:
    `regex` (to `regex-lite`), `files` (to `globset`: `Glob::new`, `GlobSet::new`,
    `GlobSet::is_match_candidate`), and in `text` `push_char` (`String::push`) and
    `to_lowercase_chars` / `to_uppercase_chars` (`char::to_lowercase` / `to_uppercase`).
- `app/` is the unverified shell: serde wire forms of the plugin protocol, the plugin entry
  points, reading the host configuration, walking the disk for files and `std::net` conversions.
- `tests/` runs the rules and plugins on concrete inputs.
