# loop_engine

The core of a daemon that watches an agent at work and keeps what it learns: lessons, memories,
skills and teams. `src/` is the library. Verus proves the contract of every function in it, except
for the few trusted ones named below.
`app/` is the daemon around it: files, sockets, threads and the command line.

| Module | What it is about |
| --- | --- |
| `engine::yaml` | frontmatter, scalars and the writer of lesson files |
| `engine::storage` | keys, versions, the in-memory store, paths of files and locks |
| `engine::sentiment` | who an utterance speaks of, which signals it sends, which lessons went stale |
| `engine::skills`, `engine::teams` | records, immunity and compare-and-set updates |
| `engine::vector` | the index of memories over a graph of nearest neighbours |
| `host::jsonl_watcher` | cursors over transcripts, and the events in their lines |
| `serve` | the JSON-RPC methods: what is asked for and what is answered |
| `lessons`, `pid` | where lessons lie, and whether the daemon runs |

Public proof functions named `law_*` state what holds across several functions.

Floating-point numbers never enter the library. A similarity or a confidence is the bit pattern of
an `f32`, and `engine::single` says how bit patterns compare.

What the library takes from other crates stands behind a few trusted functions: the regular
expressions of `regex`, the calendar of `chrono`, the parser of `serde_json` and the map of
`dashmap`. Each says in its comment what is claimed and not proved.
