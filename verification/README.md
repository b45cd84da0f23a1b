# skillsupport

The SkillSupport developer runtime (`caps dev`): a WebSocket JSON-RPC 2.0
endpoint where capabilities register the methods they serve, store their
method contracts by content SHA, and receive the requests other sessions
make of them.

## Layout

- `src/` is the library, written in Verus and verified:
  - `json.rs`, `text.rs`: JSON documents, reading JSON text into one, and the
    string helpers the rest uses.
  - `contract/`: contract SHAs, the canonical form of a document and its
    compact encoding, the SHA of that encoding, contract models, and the
    store's decisions (file layout, mismatch and dangling-reference checks,
    sorted listings).
  - `runtime/services/registry.rs`: the capability registry, with its
    invariant that a method name belongs to at most one capability.
  - `runtime/transport/`: JSON-RPC messages and the router, sessions, waiting
    forwards, the dispatcher (a state machine from message to action), the
    runtime's own `runtime.*` methods, and the steps of a connection.
  - `runtime/lifecycle.rs`, `runtime/config.rs`, `runtime/reaper.rs`: events and
    their notifications, settings, and the reaper's sleep.
- `app/` is the program around it: argument handling, TOML decoding and the
  serde types of the wire format, the contract files on disk, the WebSocket transport, threads,
  locks and channels.
- `tests/` exercises the library from outside.
