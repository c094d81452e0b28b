//! The miner: building a block on top of the chain and searching for a
//! nonce that meets its target.

use vstd::prelude::*;

use crate::blockchain::block::{
    header_hash, new_block, transactions_model, transactions_merkle_root, Block, BlockModel,
    HeaderModel,
};
use crate::blockchain::transaction::{
    new_transaction, outputs_model, InputModel, OutputModel, Transaction, TransactionInput,
    TransactionOutput, TxModel,
};
use crate::blockchain::blockchain::{
    block_validation, genesis_coinbase, spend_inputs, transaction_validation, txs_state, ChainModel, TxsState,
    Validation,
};
use crate::mining::target::{hash_meets_target, meets_target};

verus! {

/// The reward that a miner pays itself in each block.
pub const BLOCK_REWARD: u64 = 50_000_000;

/// Miner struct that contains mining-related configurations.
pub struct Miner {
    /// The difficulty target (compact representation).
    pub bits: u32,
    /// The public key hash of the miner, used for the coinbase transaction.
    pub miner_pubkey_hash: Vec<u8>,
}

/// The coinbase transaction paying `amount` to `recipient`.
pub open spec fn coinbase_transaction(recipient: Seq<u8>, amount: u64) -> TxModel {
    new_transaction(Seq::empty(), seq![OutputModel { amount, script_pub_key: recipient }])
}

/// `h` with its nonce replaced.
pub open spec fn with_nonce(h: HeaderModel, nonce: u64) -> HeaderModel {
    HeaderModel { nonce, ..h }
}

#[verifier::external_type_specification]
#[verifier::external_body]
pub struct ExSystemTime(std::time::SystemTime);

/// Calls `std::time::SystemTime::now`. Trusted only for its type: nothing
/// is stated of the clock's reading.
#[verifier::external_body]
fn system_now() -> (res: std::time::SystemTime) {
    std::time::SystemTime::now()
}

/// Calls `SystemTime::duration_since` with `UNIX_EPOCH` and reads the whole
/// seconds of the duration. Trusted only for its type: nothing is stated of
/// the number, or of when the time lies before the epoch (`None`).
#[verifier::external_body]
fn seconds_since_epoch(t: &std::time::SystemTime) -> (res: Option<u64>) {
    match t.duration_since(std::time::UNIX_EPOCH) {
        Ok(d) => Some(d.as_secs()),
        Err(_) => None,
    }
}

/// Gets the current Unix timestamp in seconds; 0 where the clock reads a
/// time before the epoch.
fn current_timestamp() -> u64 {
    match seconds_since_epoch(&system_now()) {
        Some(secs) => secs,
        None => 0,
    }
}

/// Helper function to create a coinbase transaction.
fn create_coinbase_transaction(recipient_pubkey_hash: Vec<u8>, amount: u64) -> (res: Transaction)
    ensures
        res@ == coinbase_transaction(recipient_pubkey_hash@, amount),
{
    let inputs: Vec<TransactionInput> = Vec::new();
    let mut outputs: Vec<TransactionOutput> = Vec::new();
    outputs.push(TransactionOutput { amount, script_pub_key: recipient_pubkey_hash });
    let tx = Transaction::new(inputs, outputs);
    proof {
        assert(crate::blockchain::transaction::inputs_model(inputs@) =~= Seq::<InputModel>::empty());
        assert(outputs_model(outputs@) =~= seq![
            OutputModel { amount, script_pub_key: recipient_pubkey_hash@ },
        ]);
    }
    tx
}

impl Miner {
    /// Creates a new miner with the specified difficulty bits.
    pub fn new(bits: u32, miner_pubkey_hash: Vec<u8>) -> (res: Self)
        ensures
            res.bits == bits,
            res.miner_pubkey_hash@ == miner_pubkey_hash@,
    {
        Miner { bits, miner_pubkey_hash }
    }

    /// The block to be mined on top of `previous_block`: the miner's
    /// coinbase transaction followed by `transactions`, with this miner's
    /// difficulty bits and nonce 0.
    pub fn prepare_block(&self, previous_block: &Block, transactions: Vec<Transaction>) -> (res: Block)
        ensures
            res@ == new_block(
                seq![coinbase_transaction(self.miner_pubkey_hash@, BLOCK_REWARD)]
                    + transactions_model(transactions@),
                header_hash(previous_block@.header),
                self.bits,
            ),
    {
        let coinbase_tx = create_coinbase_transaction(self.miner_pubkey_hash.clone(), BLOCK_REWARD);
        let mut block_transactions: Vec<Transaction> = Vec::new();
        block_transactions.push(coinbase_tx);
        let mut transactions = transactions;
        let ghost rest = transactions_model(transactions@);
        block_transactions.append(&mut transactions);
        assert(transactions_model(block_transactions@) =~= seq![
            coinbase_transaction(self.miner_pubkey_hash@, BLOCK_REWARD),
        ] + rest);
        Block::new(block_transactions, previous_block.hash(), self.bits)
    }

    /// Tries the nonces from the block's current one upwards until its hash
    /// meets its target. Returns `true` with the first such nonce set; or,
    /// when every nonce up to `u64::MAX` fails, returns `false` with the
    /// nonce wrapped to 0, a fresh timestamp and the Merkle root recomputed.
    pub fn search_nonce(&self, block: &mut Block) -> (res: bool)
        requires
            old(block).transactions@.len() > 0,
        ensures
            final(block)@.transactions == old(block)@.transactions,
            final(block).transactions@.len() > 0,
            res ==> {
                &&& final(block)@.header == with_nonce(old(block)@.header, final(block)@.header.nonce)
                &&& final(block)@.header.nonce >= old(block)@.header.nonce
                &&& meets_target(header_hash(final(block)@.header), final(block)@.header.difficulty_target)
                &&& forall|n: u64|
                    old(block)@.header.nonce <= n < final(block)@.header.nonce ==> !meets_target(
                        header_hash(#[trigger] with_nonce(old(block)@.header, n)),
                        old(block)@.header.difficulty_target,
                    )
            },
            !res ==> {
                &&& forall|n: u64|
                    old(block)@.header.nonce <= n ==> !meets_target(
                        header_hash(#[trigger] with_nonce(old(block)@.header, n)),
                        old(block)@.header.difficulty_target,
                    )
                &&& final(block)@.header.nonce == 0
                &&& final(block)@.header.version == old(block)@.header.version
                &&& final(block)@.header.previous_hash == old(block)@.header.previous_hash
                &&& final(block)@.header.difficulty_target == old(block)@.header.difficulty_target
                &&& final(block)@.header.merkle_root == transactions_merkle_root(old(block)@.transactions)
            },
    {
        let ghost h0 = block@.header;
        loop
            invariant
                block@.transactions == old(block)@.transactions,
                block.transactions@.len() > 0,
                h0 == old(block)@.header,
                block@.header == with_nonce(h0, block@.header.nonce),
                block@.header.nonce >= h0.nonce,
                forall|n: u64|
                    h0.nonce <= n < block@.header.nonce ==> !meets_target(
                        header_hash(#[trigger] with_nonce(h0, n)),
                        h0.difficulty_target,
                    ),
            decreases u64::MAX - block@.header.nonce,
        {
            let hash = block.hash();
            if hash_meets_target(hash.as_slice(), block.header.difficulty_target) {
                return true;
            }
            if block.header.nonce == u64::MAX {
                proof {
                    assert forall|n: u64| h0.nonce <= n implies !meets_target(
                        header_hash(#[trigger] with_nonce(h0, n)),
                        h0.difficulty_target,
                    ) by {
                        if n == u64::MAX {
                            assert(with_nonce(h0, n) == block@.header);
                        }
                    }
                }
                block.header.nonce = 0;
                block.header.timestamp = current_timestamp();
                let root = block.compute_merkle_root();
                block.header.merkle_root = root;
                return false;
            }
            let ghost cur = block@.header.nonce;
            block.header.nonce = block.header.nonce + 1;
            proof {
                assert forall|n: u64| h0.nonce <= n < block@.header.nonce implies !meets_target(
                    header_hash(#[trigger] with_nonce(h0, n)),
                    h0.difficulty_target,
                ) by {
                    if n == cur {
                        assert(with_nonce(h0, n) == with_nonce(h0, cur));
                    }
                }
            }
        }
    }
}

/// Law: the genesis block's coinbase transaction is the coinbase a miner
/// builds for 32 zero bytes with the block reward.
pub proof fn lemma_genesis_coinbase_is_coinbase()
    ensures
        genesis_coinbase() == coinbase_transaction(Seq::new(32, |i: int| 0u8), BLOCK_REWARD),
{
    let zeros = Seq::new(32, |i: int| 0u8);
    assert(genesis_coinbase().outputs =~= seq![OutputModel { amount: BLOCK_REWARD, script_pub_key: zeros }]);
}

/// Law: a block that holds only the miner's coinbase transaction, names the
/// hash of the chain's last block, carries the Merkle root of its
/// transactions and meets its target (as `prepare_block` followed by a
/// successful `search_nonce` leaves it) is accepted by the chain.
pub proof fn lemma_mined_block_valid(c: ChainModel, miner_pubkey_hash: Seq<u8>, b: BlockModel)
    requires
        c.blocks.len() > 0,
        b.transactions == seq![coinbase_transaction(miner_pubkey_hash, BLOCK_REWARD)],
        b.header.previous_hash == header_hash(c.blocks.last().header),
        b.header.merkle_root == transactions_merkle_root(b.transactions),
        meets_target(header_hash(b.header), b.header.difficulty_target),
    ensures
        block_validation(c, b) == Validation::Valid,
{
    let t = b.transactions[0];
    assert(t.inputs.len() == 0);
    assert(transaction_validation(t, c.utxo) == Validation::Valid) by {
        reveal(transaction_validation);
    }
    assert(spend_inputs(c.utxo, Seq::empty(), t.inputs, 0) == TxsState::Running(c.utxo, Seq::empty()));
    assert(txs_state(c.utxo, b.transactions, 0) == TxsState::Running(c.utxo, Seq::empty()));
    assert(txs_state(c.utxo, b.transactions, 1) is Running);
}

} // verus!
