# stoolap

Blockchain-state pieces of a SQL database, written in Verus: every public
function in `src/` carries a `requires`/`ensures` contract that Verus
proves.

## Layout

- `src/` — the verified library.
  - `consensus/` — operations (binary encoding, decoding, content hash) and
    blocks (header hash, SHA-256 Merkle root of operations, verification).
  - `execution/` — gas metering and the execution context over the state.
  - `trie/` — the schema trie with its root hash, and `row_trie.rs`, a
    stand-in for the row trie: a sorted map of rows with an XOR-fold root
    (no hexary proofs).
  - `zk/` — Cairo program hashing, version parsing, compiler-error
    classification, and the program registry with its allowlist.
  - `pubsub/` — database events, their routing, the pub/sub write-ahead-log
    framing, and the idempotency tracker.
  - `storage/vector/` — vector segments, segment-level multi-version
    storage, BLAKE3 Merkle commitments, binary quantization, write-ahead-log
    records, snapshot bookkeeping and on-disk segment files.
  - `sync_adapter.rs` — table identities shared with the sync engine.
  - `vector_text.rs` — the `[a, b, c]` text form of vectors.
  - `codec.rs`, `text.rs`, `keyorder.rs`, `xorfold.rs`, `mix.rs` — byte
    encodings, text handling, ordered maps and hashing helpers.
  - `digest.rs` — the SHA-256 and BLAKE3 calls, the only trusted items
    besides `String::push`, `String::from_utf8` and `str::to_lowercase`.
- `tests/` — tests of the library on concrete values.
- `app/` — runtime glue that Verus does not check: files, memory maps,
  processes, clocks, locks and channels, serde forms of library types, and
  floating-point helpers.

Not carried: SQL values (`Value`) and the SUM aggregate (floating point
and decimal libraries), the product and scalar quantizers and vector
search (floating point, HNSW indexes), the expression executor, and the
zero-knowledge prover and its bundled programs.

Floating-point components are held as their `u32` bit patterns in `src/`;
`app/` converts to and from `f32`.
