//! Blocks, transactions, Merkle trees and the chain itself.

pub mod block;
pub mod blockchain;
pub mod encoding;
pub mod merkle_tree;
pub mod signing;
pub mod transaction;
pub mod utxo;
