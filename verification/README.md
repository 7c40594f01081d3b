# whatspace

A delay-tolerant networking node in the store-carry-forward style: bundles
are stored locally, carried, and forwarded to peers that lack them, with
acknowledgements travelling back to the sender.

`src/` is the library, verified with Verus:

- `model` — bundles, nodes, expiry, acknowledgements, peer lists.
- `storage` — the bundle store: duplicate detection, capacity, expiry
  cleanup, deletion, updates; its operations are stated over sequences of
  bundle models.
- `bundle_manager` — upserts and the handling of incoming acknowledgements.
- `forward` — anti-entropy forwarding as a state machine: the caller
  performs each action (ask the registry, ask a peer for its summary vector,
  send a bundle) and feeds the outcome back.
- `engine` — what routing a bundle decides, the completion of a forwarding
  round, retries and expiry.
- `wire` — the form bundles travel in, and the length-prefixed framing.
- `epidemic` — the network graph.
- `ids`, `clock` — UUIDs and time, through the `uuid` and `chrono` crates.
- `laws` — properties that relate several operations.

`app/` is the program around it: the command line, TCP exchanges with the
registry and with peers, and the store's JSON file.
