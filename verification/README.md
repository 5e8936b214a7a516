# echo

A local, model-agnostic AI toolkit served over MCP (JSON-RPC on stdin/stdout). It wraps
Ollama for embeddings, semantic search, summarisation and analysis, and offers instant
regex heuristics and a response-scoring function.

Layout:

- `src/` — the verified library: the UTF-8 byte model of text and the text operations built
  on it (`text`), regular-expression calls to the `regex` crate (`pattern`), chunking for
  embedding (`chunking`), HTML cleanup, truncation and time-sensitivity checks (`page`),
  behavioural heuristics (`heuristics`), response scoring (`fitness`), decimal text of
  numbers (`decimal`), the semantic index's decisions (`store`) and the server's routing and
  lookups (`protocol`).
- `app/` — the server binary: HTTP to Ollama, the SQLite index, file walking, JSON, the
  stdin/stdout loop, and the floating-point similarity ranking.
- `tests/` — tests of the library on concrete inputs.
