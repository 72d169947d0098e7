# code_rag

The core of a retrieval-augmented code assistant, written in Verus: every
function under `src/` carries a `requires`/`ensures` contract that Verus
proves.

## Layout

- `src/` — the verified library.
  - Chunk records and their hashes: `types`, `embedder` (the text each chunk
    is embedded as), `text` (tokenization, searchable text, document
    frequencies).
  - Source analysis on tree-sitter syntax trees: `syntax`, `handler` (the
    interface each language implements), `rust`, `python`, `language`
    (import records, rationale comments), `import_match`.
  - Ingestion: `folder`, `file`, `folder_ingest` (folder summaries from a
    walk of the repository), `edges` (contains, import and type edges, the
    tiered call-target resolver), `edge_laws` (where every resolved edge
    comes from).
  - The call graph: `graph` (adjacency, breadth-first walks, shortest
    paths), `graph_laws` (shortest depths, identifier registration),
    `stored_graph`, `augment` (direction and target read from a
    query, the chunks a walk adds), `mermaid` (path rendering).
  - Retrieval: `intent` (intent names, the comparison pre-classifier, the
    routing table), `config`, `retrieval` (graph slots, merging, the
    dominant project), `store_query` (SQL filters and what is read back).
  - Tools and setup: `tool_params`, `topology`, `source_window`, `setup`,
    `schema` (the schema-version sidecar), `viz`, `auth`, `api`, `errors`.
  - Helpers with their own specifications: `strings`, `sorted`, `unicode`.
- `tests/` — tests against the compiled library.
- `app/` — the command-line program around it: file-system walks, the
  schema sidecar on disk, JSON shaping, and the floating-point scoring
  (cosine similarity, BM25, reciprocal-rank fusion) that stays outside the
  verified part.

Outside crates are reached from `src/` only through small trusted wrappers,
each documented with what its contract claims: `sha2` for content hashes,
`uuid` for fresh chunk ids, and `tree-sitter` with its Rust and Python
grammars for parsing.
