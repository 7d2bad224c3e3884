# racfs

RACFS (Remote Agent Call File System) as a verified library: the filesystem model,
its plugins, the FUSE client's bookkeeping and the API client's policies, with their
behaviour stated in `requires`/`ensures` contracts and proved by Verus.

## Layout

- `src/` — the verified library.
  - `text`, `path`, `strmap`: strings, Unix paths (components, normalization, joining,
    comparison keys) and a small ordered string map.
  - `error`, `flags`, `metadata`, `file_handle`, `cache`, `compression`, `filesystem`:
    the core types and traits (errors, open/write flags, file metadata, handles, caches
    including foyer's, zstd compression, the filesystem traits and their defaults).
  - `http_error`: HTTP error codes and error bodies.
  - `plugins`: the in-memory backends — `kvfs`, `hellofs`, `heartbeatfs`, `devfs` and
    `httpfs` (requests and responses as files, with a response cache).
  - `fuse`: the FUSE client — its concurrent tables (dashmap's `DashMap`, `dash`),
    write-back merging (`segments`), inode numbering (`inodes`), TTL caches and the write-back buffer (`cache`), advisory locks
    (`locks`), attributes and listings (`attrs`), and the filesystem operations as steps
    between server calls (`ops`).
  - `client`: the REST client's decisions — URLs, authorization, the circuit breaker,
    retries with backoff, and errors from failed responses; `client::types` holds the
    API bodies.
  - `cli`: what the command-line tool prints and how it walks a tree.
- `tests/` — tests of the library.
- `app/` — the program around it: the command line, HTTP with reqwest, FUSE with
  fuser, SQLite persistence for KvFS, and the JSON forms of the API bodies.

Outside crates are reached through small trusted wrappers whose contracts say what
their documentation promises (clock readings, UTF-8 decoding, zstd, base64, JSON,
UUIDs, foyer's cache, dashmap's maps).
