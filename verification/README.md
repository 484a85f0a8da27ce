# textcase-cli

Tooling for building lexicon plugins for the textcase recaser: a catalogue of
public data sources, parsers for their payloads, and the builders that turn
parsed records into prepared lexicons (canonical maps, multiword maps, ranked
candidate lists, word sets).

The library under `src/` is written in Verus. Each parser and builder is
stated against a mathematical model (sequences, sets and maps of plain
values) and proved to meet it; the calls into `serde_json`, `quick-xml`,
`flate2`, `zip` and `std::path` sit behind small trusted wrappers whose
contracts name what those crates compute.

Layout:

- `src/sources/`: the source catalogue (`mod.rs`) and one parser per source.
- `src/prepare/`: alias normalization and the lexicon builders.
- `src/cmd/`: the decisions of the `fetch`, `list-sources` and
  `show-license` commands.
- `src/text.rs`, `src/collections.rs`, `src/json.rs`, `src/xml.rs`,
  `src/lines.rs`, `src/archive.rs`, `src/paths.rs`: text operations, ordered
  string collections, and the wrappers around the crates the library calls.
- `app/`: the `textcase` binary: argument parsing, downloads, files, and JSON
  (de)serialization of the library's types.
- `tests/`: tests of the library on concrete payloads.
