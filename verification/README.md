# Compass

Compass is an embedded vector and full-text search engine: one binary, with data
on the local disk or in object storage. Documents are ingested as chunks with
metadata and embeddings, and searched by text, by vector or by both, with filters,
time windows, parent documents and typed relations.

The logic is a Verus library. Every function in `src/` is proved against its
contract; the proof functions whose names begin with `law_` state what holds
across functions.

| Where | What |
| --- | --- |
| `src/` | the library |
| `tests/` | its tests |
| `app/` | the server: HTTP, files, object storage, embedding models, scoring |

## The library by subject

- **Data**: `models`, `number` (doubles by bit pattern), `string_map` and `id_map`
  (ordered maps), `errors`, `storage_error`, `names`.
- **The store**: `lsm` (log and segments, and what they add up to), `segment`,
  `segment_encode`, `segment_assemble` (segment files), `manifest` (compaction,
  pending fragments), `bucket` (a collection's configuration), `compaction_laws`,
  `id_laws` (chunk ids over the life of a collection).
- **A node's copy**: `loaded`, `ingest`, `flow` (what happens between an append and
  its local commit), `replay`, `refresh`, `seq_tracker`, `ids`, `vector_plan`,
  `vectors`, `node`, `create`.
- **Partitions**: `partitions`, `routing`.
- **Queries**: `search`, `filter`, `facets`, `temporal`, `parents`, `cold`, `sorting`.
- **Relations**: `relationships` (parents and groups), `relations`,
  `relation_store` and `relation_tables` (edges in a redb database).
- **Edges of the program**: `api`, `metrics`, `index`, `embed`, `clock`, `json`.

## What is taken on trust

A few functions call into other crates, and their contracts are believed, not
proved: JSON of plain lists and of the fields of a stored edge (`json`, serde_json
and chrono), the transactions of a redb database and the tables open in them
(`relation_tables`), the time and fresh ids (`clock`, chrono and uuid), a tensor out
of a file (`embed`, safetensors), and the repair of malformed UTF-8
(`relationships`, std). Each of them says in its documentation what it claims.
