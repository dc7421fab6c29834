# nex_core

The verified core of a NEX sovereign data node, written in Verus. The functions
in `src/` are proved against their `requires`/`ensures` contracts; the calls into
outside crates (SHA-256, Ed25519, hex, random bytes, a few std text functions)
sit behind small trusted wrappers whose contracts say what those crates document.

## Layout

- `src/` — the library.
  - `bytes`, `text`, `encoding`, `keyed_map`: byte and text helpers, and a
    sorted map keyed by byte strings with a `Map` view.
  - `gf256`: GF(2^8) multiplication and its ring laws for any reduction byte.
  - `cbor_strict`, `accumulator`, `model`, `object`, `crdt`: canonical CBOR
    validation, the sparse-Merkle accumulator, objects and the CRDT evaluator
    (replay is idempotent and independent of arrival order).
  - `identity`: capabilities and delegation chains, device certificates, pairing
    (the QR URI reads back what it was written from), and social recovery
    (Shamir shares over GF(2^8): any threshold of them reconstructs the seed).
  - `apps`: drive (content-addressed chunks), chat, community, vault, backup,
    photos, groups, maps, web gateway, extensions, discovery and search, and the
    Reed-Solomon and XOR erasure codes (decoding what was encoded gives the
    payload back).
  - `resilience`, `discovery`, `ffi`, `product`, `cli`, `ipc`: rate limits and
    buffers, the routing table, the CAS stream frame format, product state
    machines (the object inspector, file ingestion, the desktop screen as text),
    command-line parsing, and the RPC dispatcher (routing, parameters and error
    codes).
- `tests/`: tests over concrete values.
- `app/`: the `nex` command line and what needs I/O, serde or floating point:
  the JSON-RPC client and the request/response conversion for a server, reading
  files for ingestion, LAN beacons, JSON record codecs, map geometry.

The laws of the library are public proof functions named `lemma_*`; each one's
doc comment states it in words.
