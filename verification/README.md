# hermes

End-to-end encrypted peer-to-peer messaging, with its logic verified by Verus.

## Layout

- `src/` — the verified library.
  - `crypto`, `protocol`, `discovery`, `network`, `utils`: the node — its
    crypto service, message format, table of relay nodes, connection
    decisions and stream framing.
  - `backend/crypto`: the back end's crypto service (Ed25519, X25519,
    HKDF-SHA256, ChaCha20-Poly1305).
  - `backend/network`: node discovery, onion circuits, and the messaging
    protocol (`protocol` for the state and its parts, `handler` for the
    operations on messages, groups and file transfers, `dispatch` for the
    handling of each incoming message, `laws` for properties that span
    operations).
  - `collections`: string-keyed maps and duplicate-free sets with views.
  - `hex`: lower-case hexadecimal numerals.
  - `primitives`, `clock`: the trusted calls into outside crates and the
    system clock; their contracts are believed, not proved.
- `tests/` — tests of the library through its public interface.
- `app/` — the `hermes` command: sockets, timers, JSON encoding, and the
  floating-point speed computations, around the library.
