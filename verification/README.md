# egs_client

A backend for browsing and downloading Epic Games Fab assets and for managing
Unreal Engine projects and engines, with a desktop UI that talks to it over
HTTP and a WebSocket.

## Layout

- `src/` — the library, verified with Verus. It holds the rules of the
  program: folder naming, engine version handling, the Fab library cache
  annotations, job cancellation and event buffering, chunk decoding and file
  checks for downloads, the project-creation and import decisions, the
  breadth-first searches for project files and `Content` folders, listing
  orders, and settings.
  - `text`, `search`, `json`, `paths`: character sequences, first-match
    search, the JSON tree, and path joining with the default directories.
  - `naming`, `versions`: folder names and engine versions.
  - `fab_cache`: annotating and updating the cached Fab library.
  - `jobs`: cancellation requests and the per-job event buffer.
  - `download`: chunk payloads, assembling a file from its parts, SHA-1
    checks, download totals.
  - `create`, `assets`, `launch`, `discovery`, `listing`, `settings`: the
    decisions behind each HTTP endpoint.
- `app/` — the program around the library: the Actix Web server, WebSocket
  sessions, Epic Games Services calls, filesystem access and process
  launching. It reads the disk and the network, hands plain values to the
  library, and acts on what comes back.
- `tests/` — tests of the library on concrete values.
