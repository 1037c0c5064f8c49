# cabas

A family shopping list and recipe book, shared between devices through an
end-to-end encrypted relay. This crate is its logic, verified with Verus:
every function in `src/` carries a contract, and the properties the
product depends on are stated and proved as laws.

## Layout

- `src/` — the verified library.
  - `rational`, `units`, `quantity`, `ingredient`, `ingredient_index`,
    `recipe`, `expand`, `list`, `overlay`, `people`, `event`, `cart`,
    `text`, `ids`: the domain. Exact arithmetic, unit conversion, recipe
    expansion, and the cart derived from the list (aggregation, scaling,
    check states).
  - `store`: the persisted form of the document — the value tree a replica
    holds, the exact encodings of numbers and tags, one reader and one
    writer per entity, and the readers of the document's roots.
  - `sync`: family keys and recovery phrases, sealing of frames, the sync
    protocol's messages and the client session's state machine.
  - `relay`: the relay's per-family log, the operator's survey, the static
    asset server, and the decisions a connection makes.
  - `client`: the application core — commands, the projection of the
    library into what the screen shows, number parsing and rendering, and
    the view types.
- `tests/` — the test suite, run against the compiled library.
- `app/` — the relay process: sockets, files, the clock and the async
  runtime, handing plain values to the library and acting on what it
  decides; and the host's platform (clock and entropy) for the core.

The outside crates the logic depends on (`bip39` for recovery phrases,
`chacha20poly1305` for sealing, `getrandom` for fresh keys) are called from
`src/` through small trusted wrappers whose contracts say what those
crates document; everything around those calls is verified.

## What is not here

The shared document itself — the CRDT that every device holds a replica of,
merges, and exports deltas and snapshots of — is built on the `loro` crate,
whose source is not available to this build. So the document store and
everything that rides on it (merging a replica, exporting changes since a
version, persisting the replica, and the parts of the sync session and the
browser host that call those) are absent from both `src/` and `app/`, and
no property here speaks of convergence. What the document is made of — the
value tree, its encodings, and one reader and one writer per entity — is in
`src/store`, verified; the sync session's sealing, cursor and framing are in
`src/sync`, and a host hands the session's events to the screen through
`client::sync::sync_event`.
