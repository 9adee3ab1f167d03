# ringchain

A small replicated block chain, verified with Verus.

Each block carries data and a seed; the seed of a block is the SHA-256 digest
of the seed of the block before it, and a block's identifier is the SHA-256
digest of its data followed by its seed. Peers form a ring. A peer that
receives a request proposes a block for the next round and passes the
proposal on to the next peer of the ring; every peer keeps the proposal and
acknowledges it to its proposer. Once every peer has acknowledged a block,
its proposer passes its validation on, and each peer appends the block of
the round's leader (picked with a generator seeded by the last block's seed)
to its chain and announces it.

- `src/` is the verified library: the blocks (`block.rs`), the ring protocol
  as a state machine (`context.rs`, `block_service.rs`), a gossip variant
  that passes events on to peers picked at random (`gossip.rs`), and the
  properties of the protocol (`laws.rs`, `ring.rs`). Handlers do not touch
  the network: they queue the events to send and the blocks to announce.
- `app/` runs peers over UDP: it polls the sockets, encodes messages as JSON
  and hands what it receives to the library.
- `tests/` exercises the library, including a run of the ring protocol among
  three peers.
