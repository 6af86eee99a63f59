//! Shielded transfers of Runes on Bitcoin.
//!
//! A note is a private amount of a Rune. Its commitment is a leaf of a Merkle tree that everyone
//! sees; spending it publishes a nullifier, so that it cannot be spent twice, and a proof that it is
//! in the tree and that amounts add up.
//!
//! - `field`, `poseidon`, `sha`, `ecdh`: the arithmetic and the primitives
//! - `keys`, `note`, `nullifier`, `encryption`, `sealed`: what an owner holds and publishes
//! - `tree`: the Merkle tree of commitments
//! - `circuit`: what a spend proves
//! - `script`, `transaction`, `sighash`, `broadcast`: operations in Bitcoin transactions
//! - `indexer`, `event`, `updater`: operations found on the chain
//! - `wallet`, `cli`, `bindings`: what a user works with
pub use crate::field::Fr;

pub mod bindings;
pub mod broadcast;
pub mod bytes;
pub mod chain;
pub mod circuit;
pub mod cli;
pub mod ecdh;
pub mod encryption;
pub mod event;
pub mod field;
pub mod indexer;
pub mod keys;
pub mod note;
pub mod nullifier;
pub mod poseidon;
pub mod script;
pub mod sealed;
pub mod sha;
pub mod sighash;
pub mod text;
pub mod transaction;
pub mod tree;
pub mod updater;
pub mod wallet;
