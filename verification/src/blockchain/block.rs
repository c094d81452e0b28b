//! Blocks and block headers.

use vstd::prelude::*;

use crate::blockchain::encoding::{enc_bytes, le_u32, le_u64, push_bytes, push_u32, push_u64};
use crate::blockchain::merkle_tree::{hashes_model, lemma_merkle_root_two, merkle_root_of, MerkleTree};
use crate::blockchain::transaction::{Transaction, TxModel, tx_hash};
use crate::utils::hashing::{double_sha256, spec_double_sha256};

verus! {

/// A block header.
pub struct BlockHeader {
    pub version: u32,
    pub previous_hash: Vec<u8>,
    pub merkle_root: Vec<u8>,
    pub timestamp: u64,
    pub nonce: u64,
    pub difficulty_target: u32,
}

/// A block: a header and its transactions.
pub struct Block {
    pub header: BlockHeader,
    pub transactions: Vec<Transaction>,
}

/// Mathematical model of a block header.
pub struct HeaderModel {
    pub version: u32,
    pub previous_hash: Seq<u8>,
    pub merkle_root: Seq<u8>,
    pub timestamp: u64,
    pub nonce: u64,
    pub difficulty_target: u32,
}

/// Mathematical model of a block.
pub struct BlockModel {
    pub header: HeaderModel,
    pub transactions: Seq<TxModel>,
}

impl View for BlockHeader {
    type V = HeaderModel;

    open spec fn view(&self) -> HeaderModel {
        HeaderModel {
            version: self.version,
            previous_hash: self.previous_hash@,
            merkle_root: self.merkle_root@,
            timestamp: self.timestamp,
            nonce: self.nonce,
            difficulty_target: self.difficulty_target,
        }
    }
}

pub open spec fn transactions_model(s: Seq<Transaction>) -> Seq<TxModel> {
    s.map_values(|t: Transaction| t@)
}

impl View for Block {
    type V = BlockModel;

    open spec fn view(&self) -> BlockModel {
        BlockModel { header: self.header@, transactions: transactions_model(self.transactions@) }
    }
}

/// The bytes of a header that its hash is computed over.
pub open spec fn encode_header(h: HeaderModel) -> Seq<u8> {
    le_u32(h.version) + enc_bytes(h.previous_hash) + enc_bytes(h.merkle_root) + le_u64(h.timestamp)
        + le_u64(h.nonce) + le_u32(h.difficulty_target)
}

/// The hash of a block: the double SHA-256 of its header's encoding.
pub open spec fn header_hash(h: HeaderModel) -> Seq<u8> {
    spec_double_sha256(encode_header(h))
}

/// The hashes of a list of transactions.
pub open spec fn tx_hashes(txs: Seq<TxModel>) -> Seq<Seq<u8>> {
    txs.map_values(|t: TxModel| tx_hash(t))
}

/// The Merkle root over the hashes of a non-empty list of transactions.
pub open spec fn transactions_merkle_root(txs: Seq<TxModel>) -> Seq<u8> {
    merkle_root_of(tx_hashes(txs))
}

/// Law: the Merkle root of a block's transactions, which `Block::new`
/// writes into the header, is the Merkle root of the hashes of all of them,
/// one per transaction and in their order.
pub proof fn lemma_block_root_covers_all_transactions(
    txs: Seq<TxModel>,
    previous_hash: Seq<u8>,
    difficulty_target: u32,
)
    ensures
        transactions_merkle_root(txs) == merkle_root_of(
            Seq::new(txs.len(), |i: int| tx_hash(txs[i])),
        ),
        new_block(txs, previous_hash, difficulty_target).header.merkle_root == merkle_root_of(
            Seq::new(txs.len(), |i: int| tx_hash(txs[i])),
        ),
{
    assert(tx_hashes(txs) =~= Seq::new(txs.len(), |i: int| tx_hash(txs[i])));
}

/// Law: the Merkle root of two transactions is the double SHA-256 of the
/// first one's hash followed by the second one's.
pub proof fn lemma_block_root_two(a: TxModel, b: TxModel)
    ensures
        transactions_merkle_root(seq![a, b]) == spec_double_sha256(tx_hash(a) + tx_hash(b)),
{
    lemma_block_root_covers_all_transactions(seq![a, b], Seq::empty(), 0);
    assert(Seq::new(2, |i: int| tx_hash(seq![a, b][i])) =~= seq![tx_hash(a), tx_hash(b)]);
    lemma_merkle_root_two(tx_hash(a), tx_hash(b));
}

/// The timestamp that `Block::new` gives a block.
pub const BLOCK_TIMESTAMP: u64 = 1727127200;

/// The block that `Block::new` builds.
pub open spec fn new_block(txs: Seq<TxModel>, previous_hash: Seq<u8>, difficulty_target: u32) -> BlockModel {
    BlockModel {
        header: HeaderModel {
            version: 1,
            previous_hash,
            merkle_root: transactions_merkle_root(txs),
            timestamp: BLOCK_TIMESTAMP,
            nonce: 0,
            difficulty_target,
        },
        transactions: txs,
    }
}

impl Clone for BlockHeader {
    fn clone(&self) -> (res: Self)
        ensures
            res@ == self@,
    {
        BlockHeader {
            version: self.version,
            previous_hash: self.previous_hash.clone(),
            merkle_root: self.merkle_root.clone(),
            timestamp: self.timestamp,
            nonce: self.nonce,
            difficulty_target: self.difficulty_target,
        }
    }
}

impl Clone for Block {
    fn clone(&self) -> (res: Self)
        ensures
            res@ == self@,
    {
        let mut txs: Vec<Transaction> = Vec::new();
        let n = self.transactions.len();
        let mut i: usize = 0;
        while i < n
            invariant
                n == self.transactions.len(),
                i <= n,
                txs@.len() == i,
                forall|j: int| 0 <= j < i ==> #[trigger] txs@[j]@ == self.transactions@[j]@,
            decreases n - i,
        {
            txs.push(self.transactions[i].clone());
            i = i + 1;
        }
        let res = Block { header: self.header.clone(), transactions: txs };
        assert(transactions_model(res.transactions@) =~= transactions_model(self.transactions@));
        res
    }
}

impl BlockHeader {
    /// The bytes of this header that its hash is computed over.
    pub fn serialize(&self) -> (res: Vec<u8>)
        ensures
            res@ == encode_header(self@),
    {
        let mut out: Vec<u8> = Vec::new();
        push_u32(&mut out, self.version);
        push_bytes(&mut out, self.previous_hash.as_slice());
        push_bytes(&mut out, self.merkle_root.as_slice());
        push_u64(&mut out, self.timestamp);
        push_u64(&mut out, self.nonce);
        push_u32(&mut out, self.difficulty_target);
        assert(out@ =~= encode_header(self@));
        out
    }

    /// The hash of this header.
    pub fn hash(&self) -> (res: Vec<u8>)
        ensures
            res@ == header_hash(self@),
            res@.len() == 32,
    {
        let bytes = self.serialize();
        double_sha256(bytes.as_slice())
    }
}

/// The hashes of the given transactions, in order.
pub fn hash_transactions(transactions: &Vec<Transaction>) -> (res: Vec<Vec<u8>>)
    ensures
        hashes_model(res@) == tx_hashes(transactions_model(transactions@)),
        res@.len() == transactions@.len(),
{
    let mut out: Vec<Vec<u8>> = Vec::new();
    let n = transactions.len();
    let mut i: usize = 0;
    while i < n
        invariant
            n == transactions@.len(),
            i <= n,
            out@.len() == i,
            forall|j: int| 0 <= j < i ==> #[trigger] out@[j]@ == tx_hash(transactions@[j]@),
        decreases n - i,
    {
        out.push(transactions[i].hash());
        i = i + 1;
    }
    assert(hashes_model(out@) =~= tx_hashes(transactions_model(transactions@)));
    out
}

impl Block {
    /// Computes the hash of the block header.
    pub fn hash(&self) -> (res: Vec<u8>)
        ensures
            res@ == header_hash(self@.header),
            res@.len() == 32,
    {
        self.header.hash()
    }

    /// Creates a new block with version 1, nonce 0, a fixed timestamp and the
    /// Merkle root of its (non-empty) transactions.
    pub fn new(transactions: Vec<Transaction>, previous_hash: Vec<u8>, difficulty_target: u32) -> (res: Self)
        requires
            transactions@.len() > 0,
        ensures
            res@ == new_block(transactions_model(transactions@), previous_hash@, difficulty_target),
    {
        let mut block = Block {
            header: BlockHeader {
                version: 1,
                previous_hash,
                merkle_root: Vec::new(),
                timestamp: BLOCK_TIMESTAMP,
                difficulty_target,
                nonce: 0,
            },
            transactions,
        };
        let root = block.compute_merkle_root();
        block.header.merkle_root = root;
        block
    }

    /// Computes the Merkle root of the (non-empty) transactions.
    pub fn compute_merkle_root(&self) -> (res: Vec<u8>)
        requires
            self.transactions@.len() > 0,
        ensures
            res@ == transactions_merkle_root(self@.transactions),
    {
        let hashes = hash_transactions(&self.transactions);
        match MerkleTree::new(hashes.as_slice()) {
            Ok(tree) => tree.root(),
            Err(_) => {
                assert(false);
                Vec::new()
            },
        }
    }
}

} // verus!
