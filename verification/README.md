# claude_session_store

Session storage for an agent SDK: transcripts of JSON entries kept per
session, listings of a project's sessions, a batcher that mirrors
transcript entries into a store in bulk, and the logic that reads and
rewrites JSONL session files.

## Layout

- `src/` is the verified library (Verus).
  - `store.rs`: the `SessionStore` trait, specified over a model of a
    backend (transcripts, listings, subkeys).
  - `memory.rs`: `InMemorySessionStore`, on concurrent maps (`maps.rs`
    declares `dashmap::DashMap` and the map operations it uses).
  - `batcher.rs`: `TranscriptMirrorBatcher`; every operation keeps the
    store's transcript followed by the pending batch unchanged, and a
    successful flush leaves nothing pending.
  - `api.rs`, `resume.rs`: queries over a store (session information,
    messages, subagents, existence, resume entries).
  - `sessions.rs`, `mutations.rs`, `paths.rs`, `listing.rs`: session files
    (metadata, listings by recency, messages, subagents, rename, tag, fork,
    paths and project keys).
  - `encoding.rs`: the JSON text of a transcript entry and its size in
    bytes (what the batcher's size threshold and a session's size count).
  - `json.rs`: the JSON value model, parsed from and rendered to text by
    `serde_json`.
  - `text.rs`, `seqs.rs`, `types.rs`: the data types and utilities.
  - `laws.rs`: properties that span several operations.
- `app/` is the unverified side: file system access, serde parsing into
  the library's types, temporary resume directories, random bytes for new
  session ids, and the background flush task.
- `tests/` runs the library on concrete values.
