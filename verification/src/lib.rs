//! A small proof-of-stake blockchain: blocks chained by SHA-256 hashes, a UTXO
//! transaction model with ECDSA signatures, and the consensus rules that pick
//! the next block, the difficulty and the chain to follow.
pub mod codec;
pub mod crypto;
pub mod transaction;
pub mod block;
pub mod chain;
pub mod consensus;
