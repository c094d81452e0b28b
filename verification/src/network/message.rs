//! The messages that nodes exchange.

use vstd::prelude::*;

use crate::blockchain::block::Block;
use crate::blockchain::blockchain::Blockchain;
use crate::blockchain::transaction::Transaction;

verus! {

/// A message between nodes.
pub enum Message {
    NewBlock(Block),
    Block(Block),
    Transaction(Transaction),
    GetBlockchain,
    BlockchainData(Blockchain),
    RequestPeers,
    Peers(Vec<String>),
    Ping,
    Pong,
    BroadcastTransaction(Transaction),
}

/// An item announced by its hash.
pub enum InventoryItem {
    /// Block hash.
    Block(Vec<u8>),
    /// Transaction ID.
    Transaction(Vec<u8>),
}

} // verus!
