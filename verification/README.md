# shared_protocol

The shared protocol surface of a predictive-memory transport, written in Verus:
record framing, datagram reliability, the block catalog, compression codecs,
record protection and the cue/object predictive memory. Every function in
`src/` carries a contract that Verus proves; calls into outside crates (zstd,
SHA-256, HKDF, ChaCha20-Poly1305, X25519, ML-KEM-768, ML-DSA-65) sit behind small trusted wrappers
whose contracts are stated next to them.

## Layout

- `src/wire.rs`, `src/keyed.rs`, `src/num.rs`: little-endian framing, the
  ordered `u64` map, saturating arithmetic.
- `src/protocol.rs`, `src/datagram.rs`, `src/carrier.rs`: records, datagram
  packets, fragmentation, reassembly, repair and the datagram session.
- `src/compress.rs`, `src/record_zstd.rs`, `src/tuning.rs`, `src/batch.rs`:
  binary and XOR deltas, structural templates, columnar batches, dictionaries
  and the compressed payload envelope.
- `src/codec.rs`, `src/source.rs`: the direct-exact data-plane codec.
- `src/catalog.rs`, `src/protection.rs`, `src/bootstrap.rs`: the block
  catalog, per-record protection, identities and credentials, and the
  mutual and simple post-quantum bootstrap handshakes (frames are passed in
  as bytes; their bincode encoding lives in `app/`).
- `src/pst.rs`: the context counts of the prediction suffix tree.
- `src/chpmt.rs`, `src/index.rs`, `src/episode*.rs`, `src/schema.rs`,
  `src/consolidation.rs`, `src/extraction.rs`, `src/assembly.rs`,
  `src/transform.rs`, `src/kernels.rs`, `src/bandit.rs`: the predictive memory.
- `tests/`: executable tests against the compiled library.
- `app/`: the unverified rest: serde and bincode encodings, floating-point
  scoring, the suffix tree's pruning and prediction, and I/O carriers.

Round trips that the library proves include the delta, XOR delta, slot-value
and direct-exact payload encodings, columnar batches, delta chains, the
application of XOR and binary deltas, and that issued identities and
credentials validate.
