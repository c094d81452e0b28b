//! A small UTXO blockchain: blocks, transactions, Merkle trees, proof of work
//! and the message-handling rules of its nodes.

pub mod blockchain;
pub mod mining;
pub mod network;
pub mod utils;
pub mod wallet;
