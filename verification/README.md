# turbovec-rs

A command-line vector index with semantic search: vectors are stored in a
quantized `turbovec` index, document text and metadata in a SQLite sidecar
beside it (`<stem>.tvim`, `<stem>.tvim.sqlite`, `<stem>.tvim.meta.json`).

The logic is a Verus-verified library under `src/`:

- `config` — where the configuration and JSON arguments come from, and the
  precedence of command-line values, embedding settings, schema defaults
  and configuration;
- `import` — JSONL records: identity, fields, the one vector field, the
  precomputed vector, the metadata;
- `filter` — metadata filters compiled into parameterized SQLite
  conditions;
- `sql_query` — zvec-style `SELECT … FROM … [WHERE …] [LIMIT n]` queries and
  the records they print;
- `sidecar` — file locations, the sidecar's queries and integer checks;
- `commands` — index parameters, the import session that hands out document
  ids batch by batch, search planning and the JSON the commands print;
- `json`, `text` — the JSON tree and the character-level helpers.

`app/` holds the command line, the file and database I/O, the embedding
client and the vector index calls.
