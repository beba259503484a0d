# mneme_core

Mneme is a memory layer for AI agents: episodic, semantic and procedural
memories with an audit trail, scoped access between agents, recall within a
token budget, deduplication, consolidation of episodes into a summary, and
portable `.mneme` archives.

## Layout

- `src/` — the library, verified with Verus. Every function carries a
  contract; the laws of the library are public proof functions.
  - `store` — memory types and records.
  - `audit` — audit actions and events, filtering the trail by time.
  - `access_control`, `backend` — scopes, access grants, the in-memory
    embedding index.
  - `retrieval` — recall: access and filters, ranking, token budget.
  - `consolidation` — duplicate detection and episodic summaries.
  - `operations` — what each store operation deletes, adds and audits.
  - `text` — words, word sets and their overlap.
  - `ordering` — stable descending sorts by time and by value.
  - `embedder` — trigram hashing for the hash embedder.
  - `portability` — archives and comparing archives.
  - `rows` — the stored rows of memories, audit events and grants, written
    and read back: RFC 3339 time stamps, JSON tag lists, type and action names.
  - `time`, `ids`, `float_bits` — instants, identifiers, and
    single-precision numbers carried by their bit patterns.
- `tests/` — tests of the library.
- `app/` — the program around it: the SQLite and PostgreSQL backends, the
  asynchronous store, floating-point scoring and embedding, JSON archives,
  the command line, the HTTP server and the Python bindings.
  The command line and the HTTP server are one program; `serve` starts the
  server. Text is embedded with the trigram hash embedder.
