//! Core of a small UTXO blockchain node: hash-linked blocks with proof of
//! work, signed transactions over an index of unspent outputs, and the
//! decisions of a gossip node. Every function carries a contract that Verus
//! checks; the calls into other crates (hashing, signatures, address and
//! record encoding, the Merkle tree, randomness and the clock) stand behind
//! small functions whose contracts are taken on trust.

pub mod address;
pub mod block;
pub mod blockchain;
pub mod clock;
pub mod codec;
pub mod consistency;
pub mod digest;
pub mod ed25519;
pub mod error;
pub mod merkle;
pub mod random;
pub mod restore;
pub mod server;
pub mod transaction;
pub mod utxo_set;
pub mod wallets;
pub mod wire;
