# NoteDock core

The verified core of NoteDock, a floating Windows notepad with a NAS server.
Notes are Yjs documents edited over a WebSocket; the HTTP API carries only
their metadata (title, preview, revision, tombstone) and an incremental change
feed.

## Layout

- `src/` — the library, written in Verus and proved:
  - `text`: plain text, titles and previews from TipTap JSON and from the Yjs
    XML tree, and the proof that both walks agree;
  - `api`, `json`: the wire types;
  - `auth`, `notes`, `config`, `error`, `ws`, `rooms`: the server's rules —
    passwords and bearer tokens, note ids and what each endpoint answers,
    configuration values, WebSocket tickets and frames, which rooms are open;
  - `ydoc`: a note's Yjs document — whether an applied update changed it (by
    state vector and delete set), answering a peer's state vector, replaying
    the stored log, rebuilding a legacy note, reading its XML tree out;
  - `sync`, `remote`, `store`, `settings`, `export`, `window`: the desktop
    client's rules — what the sync loop pushes and pulls and what it shows,
    how replies read, the local cursor, export file names and line endings;
  - `chars`, `num`: characters, trimming, splitting and decimal numbers.
- `tests/` — tests of the library on concrete values.
- `app/` — the programs around it: the axum server (SQLite, Yjs documents,
  sockets) and the desktop client's sync loop, store and HTTP client. They
  read and write; the library decides.
