# wikidump

Tools over Wikidata dumps, with their logic verified in Verus.

- `src/` is the verified library:
  - `number`: decimal `u64` and `i32` parsing with the semantics of `str::parse`.
  - `text`: comma-separated fields, as `split(',')` yields them.
  - `entity`, `align::entity_to_int`, `revisions::entity_to_int`: entity ids
    (`Q42`, `P31`, `L7`, `Property:P31`) packed into integers.
  - `date_index`: the revisions known for each date.
  - `align`: reading id and revision files, reading the update stream
    (`json`, through `serde_json`), and the alignment step of a JSON dump's
    entity stream with an N-Triples dump's entity stream.
  - `revisions`: the date order table, the selection of revision texts from
    the events of an XML page dump, and the store that keeps the wanted
    revisions compressed.
  - `compress`: zstd dictionaries and frames, and gzip members, through
    `zstd` and `flate2`.
- `app/` is the command-line program: argument parsing, files, progress bars,
  the XML reader, and the loops that feed the library and write its output.
  Its first argument names the tool: `gen-align-commands`, `sort-revisions`,
  `zstd-cat`, `zstd-dict-object-compression` or `zstd-process-items`.
- `tests/` exercise the library with the real `serde_json`, `zstd` and `flate2`.
