# naivecoin

A small proof-of-stake blockchain as a Verus library: blocks chained by
SHA-256 hashes, a UTXO transaction model with secp256k1 ECDSA signatures,
and the consensus rules (staking condition, difficulty adjustment,
longest-valid-chain rule), each with a contract that Verus proves.

- `src/codec.rs` — big-endian integers, decimal numerals, UTF-8, hex and JSON
  string encodings (hex via `hex`, JSON strings via `serde_json`).
- `src/crypto.rs` — SHA-256 (`sha2`), ECDSA (`secp256k1`) and big unsigned
  integers (`num-bigint`), each behind a small trusted item.
- `src/transaction.rs` — transactions, ids, signatures, validation and the
  unspent-output set.
- `src/block.rs` — blocks, block hashes and Merkle roots.
- `src/chain.rs` — the chain and its validity rules.
- `src/consensus.rs` — staking, one turn of the minting loop, chain
  replacement and difficulty.
- `app/main.rs` — the demo program, the clock readings and the clock-driven
  minting loop.
