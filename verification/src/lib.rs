//! A single-node ledger: an append-only chain of blocks that are linked by
//! hash and sealed by proof of work, transactions whose inputs are signed one
//! by one, and an index of the outputs that are still unspent.
//!
//! The ledger's own logic is verified. What it has from other crates stands
//! behind trusted wrappers, each in the module of its crate:
//!
//! - `hashing`: the SHA-256 and RIPEMD-160 digests;
//! - `signing`: the Ed25519 signatures;
//! - `codec`: the binary encoding of records;
//! - `store`: the key-value store;
//! - `address`: the text form of a recipient hash.
//!
//! On these rest `tx` and `transaction` (the transaction model and the
//! signing protocol), `block` (blocks and proof of work), `blockchain` (the
//! chain store), `soundness` (why a traversal of a chain that was created
//! and mined runs from the tip to the genesis block), `unspent` and `utxoset`
//! (the unspent outputs and their index), `consistency` (why an index kept up
//! by updates is the one that a rebuild gives) and `wallets` (key pairs by
//! address).

pub mod address;
pub mod block;
pub mod blockchain;
pub mod codec;
pub mod consistency;
pub mod errors;
pub mod hashing;
pub mod signing;
pub mod soundness;
pub mod store;
pub mod transaction;
pub mod tx;
pub mod unspent;
pub mod utxoset;
pub mod wallets;
