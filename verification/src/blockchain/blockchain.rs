//! The chain of blocks and its UTXO set, and the rules a block must meet to
//! be appended.

use vstd::prelude::*;
use vstd::string::StringExecFns;

pub use crate::blockchain::utxo::{OutPoint, UtxoSet};

use crate::blockchain::block::{
    header_hash, transactions_merkle_root, transactions_model, Block, BlockHeader, BlockModel,
    HeaderModel,
};
use crate::blockchain::signing::{
    inputs_check, lookup_agrees, lookup_callable, output_opt_model, InputsCheck,
};
use crate::blockchain::transaction::{
    new_transaction, outputs_model, InputModel, OutputModel, Transaction, TransactionOutput,
    TxModel, tx_hash,
};
use crate::blockchain::utxo::{OutKey, UtxoMap};
use crate::mining::target::{hash_meets_target, meets_target};
use crate::utils::bytes::bytes_eq;

verus! {

/// Why a block or a transaction is rejected.
pub enum ChainError {
    InvalidPreviousHash,
    InvalidProofOfWork,
    InvalidMerkleRoot,
    NonExistentOutput,
    DoubleSpend,
    InvalidSignature,
    InputOverflow,
    OutputOverflow,
    OutputsExceedInputs,
}

impl ChainError {
    pub open spec fn spec_message(self) -> Seq<char> {
        match self {
            ChainError::InvalidPreviousHash => "Invalid previous block hash"@,
            ChainError::InvalidProofOfWork => "Invalid proof-of-work"@,
            ChainError::InvalidMerkleRoot => "Invalid Merkle root"@,
            ChainError::NonExistentOutput => "Attempted to spend a non-existent output"@,
            ChainError::DoubleSpend => "Double spending detected in block"@,
            ChainError::InvalidSignature => "Invalid transaction signature"@,
            ChainError::InputOverflow => "Input value overflow"@,
            ChainError::OutputOverflow => "Output value overflow"@,
            ChainError::OutputsExceedInputs => "Transaction outputs exceed inputs"@,
        }
    }

    /// The error message.
    pub fn message(&self) -> (res: String)
        ensures
            res@ == self.spec_message(),
    {
        match self {
            ChainError::InvalidPreviousHash => String::from_str("Invalid previous block hash"),
            ChainError::InvalidProofOfWork => String::from_str("Invalid proof-of-work"),
            ChainError::InvalidMerkleRoot => String::from_str("Invalid Merkle root"),
            ChainError::NonExistentOutput => String::from_str(
                "Attempted to spend a non-existent output",
            ),
            ChainError::DoubleSpend => String::from_str("Double spending detected in block"),
            ChainError::InvalidSignature => String::from_str("Invalid transaction signature"),
            ChainError::InputOverflow => String::from_str("Input value overflow"),
            ChainError::OutputOverflow => String::from_str("Output value overflow"),
            ChainError::OutputsExceedInputs => String::from_str("Transaction outputs exceed inputs"),
        }
    }
}

/// The outcome of validating a block or a transaction.
pub enum Validation {
    Valid,
    Invalid(ChainError),
    /// The input is one on which validation is not defined (an input with
    /// an empty signature, or a block without transactions, reaching the
    /// point where it is read).
    Aborts,
}

/// Represents the blockchain, containing a list of blocks.
pub struct Blockchain {
    /// Vector of blocks in the chain.
    pub blocks: Vec<Block>,
    /// UTXO set: maps outpoints to transaction outputs.
    pub utxo_set: UtxoSet,
}

/// Mathematical model of a chain.
pub struct ChainModel {
    pub blocks: Seq<BlockModel>,
    pub utxo: UtxoMap,
}

pub open spec fn blocks_model(s: Seq<Block>) -> Seq<BlockModel> {
    s.map_values(|b: Block| b@)
}

impl View for Blockchain {
    type V = ChainModel;

    open spec fn view(&self) -> ChainModel {
        ChainModel { blocks: blocks_model(self.blocks@), utxo: self.utxo_set@ }
    }
}

/// The outpoint an input spends.
pub open spec fn input_key(i: InputModel) -> OutKey {
    (i.previous_output_hash, i.previous_output_index)
}

/// The previous output of each input, as found in `m`.
pub open spec fn utxo_prevs(t: TxModel, m: UtxoMap) -> Seq<Option<OutputModel>> {
    Seq::new(
        t.inputs.len(),
        |j: int|
            if m.contains_key(input_key(t.inputs[j])) {
                Some(m[input_key(t.inputs[j])])
            } else {
                None
            },
    )
}

/// The sum of the amounts that the first `k` inputs spend.
pub open spec fn inputs_total(t: TxModel, m: UtxoMap, k: nat) -> int
    decreases k,
{
    if k == 0 {
        0
    } else {
        inputs_total(t, m, (k - 1) as nat) + m[input_key(t.inputs[k - 1])].amount
    }
}

/// The sum of the amounts of the first `k` outputs.
pub open spec fn outputs_total(outs: Seq<OutputModel>, k: nat) -> int
    decreases k,
{
    if k == 0 {
        0
    } else {
        outputs_total(outs, (k - 1) as nat) + outs[k - 1].amount
    }
}

/// Whether a transaction is valid against the UTXO set `m`: a transaction
/// without inputs always is; otherwise its signatures must verify, the sums
/// of its input and output amounts must fit in a `u64`, and it may not
/// spend more than its inputs hold.
#[verifier::opaque]
pub open spec fn transaction_validation(t: TxModel, m: UtxoMap) -> Validation {
    if t.inputs.len() == 0 {
        Validation::Valid
    } else {
        match inputs_check(t, utxo_prevs(t, m), t.inputs.len()) {
            InputsCheck::Malformed => Validation::Aborts,
            InputsCheck::Invalid => Validation::Invalid(ChainError::InvalidSignature),
            InputsCheck::Valid => if inputs_total(t, m, t.inputs.len()) > u64::MAX {
                Validation::Invalid(ChainError::InputOverflow)
            } else if outputs_total(t.outputs, t.outputs.len()) > u64::MAX {
                Validation::Invalid(ChainError::OutputOverflow)
            } else if inputs_total(t, m, t.inputs.len()) < outputs_total(t.outputs, t.outputs.len()) {
                Validation::Invalid(ChainError::OutputsExceedInputs)
            } else {
                Validation::Valid
            },
        }
    }
}

/// The state of validating the transactions of a block: the temporary UTXO
/// set and the outpoints spent so far, or the outcome it stopped with.
pub enum TxsState {
    Running(UtxoMap, Seq<OutKey>),
    Stopped(Validation),
}

/// Spends the first `k` inputs from the temporary set.
pub open spec fn spend_inputs(m: UtxoMap, spent: Seq<OutKey>, inputs: Seq<InputModel>, k: nat) -> TxsState
    decreases k,
{
    if k == 0 {
        TxsState::Running(m, spent)
    } else {
        match spend_inputs(m, spent, inputs, (k - 1) as nat) {
            TxsState::Running(m2, s2) => {
                let key = input_key(inputs[k - 1]);
                if !m2.contains_key(key) {
                    TxsState::Stopped(Validation::Invalid(ChainError::NonExistentOutput))
                } else if s2.contains(key) {
                    TxsState::Stopped(Validation::Invalid(ChainError::DoubleSpend))
                } else {
                    TxsState::Running(m2.remove(key), s2.push(key))
                }
            },
            stopped => stopped,
        }
    }
}

/// Adds the first `k` outputs of transaction `txid`, at indices `0..k`.
pub open spec fn add_outputs(m: UtxoMap, txid: Seq<u8>, outs: Seq<OutputModel>, k: nat) -> UtxoMap
    decreases k,
{
    if k == 0 {
        m
    } else {
        add_outputs(m, txid, outs, (k - 1) as nat).insert((txid, (k - 1) as u32), outs[k - 1])
    }
}

/// The state after validating the first `k` transactions against `m0`.
pub open spec fn txs_state(m0: UtxoMap, txs: Seq<TxModel>, k: nat) -> TxsState
    decreases k,
{
    if k == 0 {
        TxsState::Running(m0, Seq::empty())
    } else {
        match txs_state(m0, txs, (k - 1) as nat) {
            TxsState::Running(m, s) => {
                let t = txs[k - 1];
                match transaction_validation(t, m) {
                    Validation::Valid => match spend_inputs(m, s, t.inputs, t.inputs.len()) {
                        TxsState::Running(m2, s2) => TxsState::Running(
                            add_outputs(m2, tx_hash(t), t.outputs, t.outputs.len()),
                            s2,
                        ),
                        stopped => stopped,
                    },
                    other => TxsState::Stopped(other),
                }
            },
            stopped => stopped,
        }
    }
}

/// Whether the transactions of a block are valid, in order, against `m0`,
/// each spending from the set that the ones before it left.
pub open spec fn transactions_validation(m0: UtxoMap, txs: Seq<TxModel>) -> Validation {
    match txs_state(m0, txs, txs.len()) {
        TxsState::Running(_, _) => Validation::Valid,
        TxsState::Stopped(v) => v,
    }
}

/// Whether a block may be appended to the chain `c`.
pub open spec fn block_validation(c: ChainModel, b: BlockModel) -> Validation {
    if b.header.previous_hash != header_hash(c.blocks.last().header) {
        Validation::Invalid(ChainError::InvalidPreviousHash)
    } else if !meets_target(header_hash(b.header), b.header.difficulty_target) {
        Validation::Invalid(ChainError::InvalidProofOfWork)
    } else if b.transactions.len() == 0 {
        Validation::Aborts
    } else if b.header.merkle_root != transactions_merkle_root(b.transactions) {
        Validation::Invalid(ChainError::InvalidMerkleRoot)
    } else {
        transactions_validation(c.utxo, b.transactions)
    }
}

/// Removes the outpoints that the first `k` inputs spend.
pub open spec fn remove_inputs(m: UtxoMap, inputs: Seq<InputModel>, k: nat) -> UtxoMap
    decreases k,
{
    if k == 0 {
        m
    } else {
        remove_inputs(m, inputs, (k - 1) as nat).remove(input_key(inputs[k - 1]))
    }
}

/// The UTXO set after a transaction: its spent outpoints removed, then its
/// outputs added.
pub open spec fn apply_transaction(m: UtxoMap, t: TxModel) -> UtxoMap {
    add_outputs(remove_inputs(m, t.inputs, t.inputs.len()), tx_hash(t), t.outputs, t.outputs.len())
}

/// The UTXO set after the first `k` transactions.
pub open spec fn apply_transactions(m: UtxoMap, txs: Seq<TxModel>, k: nat) -> UtxoMap
    decreases k,
{
    if k == 0 {
        m
    } else {
        apply_transaction(apply_transactions(m, txs, (k - 1) as nat), txs[k - 1])
    }
}

/// The coinbase transaction of the genesis block.
pub open spec fn genesis_coinbase() -> TxModel {
    new_transaction(
        Seq::empty(),
        seq![OutputModel { amount: 50_000_000, script_pub_key: Seq::new(32, |i: int| 0u8) }],
    )
}

/// The genesis block.
pub open spec fn genesis_block() -> BlockModel {
    BlockModel {
        header: HeaderModel {
            version: 1,
            previous_hash: Seq::new(32, |i: int| 0u8),
            merkle_root: transactions_merkle_root(seq![genesis_coinbase()]),
            timestamp: 1231006505,
            nonce: 2083236893,
            difficulty_target: 0x1d00ffff,
        },
        transactions: seq![genesis_coinbase()],
    }
}

proof fn lemma_inputs_check_valid_found(t: TxModel, prevs: Seq<Option<OutputModel>>, k: nat)
    requires
        inputs_check(t, prevs, k) == InputsCheck::Valid,
    ensures
        forall|j: int| 0 <= j < k ==> (#[trigger] prevs[j]) is Some,
    decreases k,
{
    if k > 0 {
        lemma_inputs_check_valid_found(t, prevs, (k - 1) as nat);
    }
}

proof fn lemma_inputs_total_mono(t: TxModel, m: UtxoMap, a: nat, b: nat)
    requires
        a <= b,
    ensures
        inputs_total(t, m, a) <= inputs_total(t, m, b),
    decreases b,
{
    if a < b {
        lemma_inputs_total_mono(t, m, a, (b - 1) as nat);
    }
}

proof fn lemma_outputs_total_mono(outs: Seq<OutputModel>, a: nat, b: nat)
    requires
        a <= b,
    ensures
        outputs_total(outs, a) <= outputs_total(outs, b),
    decreases b,
{
    if a < b {
        lemma_outputs_total_mono(outs, a, (b - 1) as nat);
    }
}

/// Copies a vector of bytes.
fn copy_bytes(v: &Vec<u8>) -> (res: Vec<u8>)
    ensures
        res@ == v@,
{
    v.clone()
}

/// The sum of the amounts that the inputs of `tx` spend, or `None` if it
/// exceeds `u64::MAX`.
fn sum_input_amounts(tx: &Transaction, utxo_set: &UtxoSet) -> (res: Option<u64>)
    requires
        utxo_set.wf(),
        forall|l: int| 0 <= l < tx@.inputs.len() ==> (#[trigger] utxo_prevs(tx@, utxo_set@)[l]) is Some,
    ensures
        match res {
            Some(v) => v == inputs_total(tx@, utxo_set@, tx@.inputs.len()),
            None => inputs_total(tx@, utxo_set@, tx@.inputs.len()) > u64::MAX,
        },
{
    let ghost m = utxo_set@;
    let ghost t = tx@;
    let mut total: u64 = 0;
    let ni = tx.inputs.len();
    let mut j: usize = 0;
    while j < ni
        invariant
            ni == tx.inputs@.len(),
            ni == t.inputs.len(),
            t == tx@,
            m == utxo_set@,
            utxo_set.wf(),
            j <= ni,
            total == inputs_total(t, m, j as nat),
            forall|l: int| 0 <= l < ni ==> (#[trigger] utxo_prevs(t, m)[l]) is Some,
        decreases ni - j,
    {
        let input = &tx.inputs[j];
        assert(input_key(t.inputs[j as int]) == (input.previous_output_hash@, input.previous_output_index));
        assert(utxo_prevs(t, m)[j as int] is Some);
        let prev_output = match utxo_set.get(input.previous_output_hash.as_slice(), input.previous_output_index) {
            Some(o) => o,
            None => {
                assert(false);
                return None;
            },
        };
        match total.checked_add(prev_output.amount) {
            Some(v) => {
                total = v;
            },
            None => {
                proof {
                    lemma_inputs_total_mono(t, m, (j + 1) as nat, ni as nat);
                }
                return None;
            },
        }
        j = j + 1;
    }
    Some(total)
}

/// The sum of the amounts of `outputs`, or `None` if it exceeds `u64::MAX`.
fn sum_output_amounts(outputs: &Vec<TransactionOutput>) -> (res: Option<u64>)
    ensures
        match res {
            Some(v) => v == outputs_total(outputs_model(outputs@), outputs@.len()),
            None => outputs_total(outputs_model(outputs@), outputs@.len()) > u64::MAX,
        },
{
    let ghost outs = outputs_model(outputs@);
    let mut total: u64 = 0;
    let no = outputs.len();
    let mut o: usize = 0;
    while o < no
        invariant
            no == outputs@.len(),
            outs == outputs_model(outputs@),
            o <= no,
            total == outputs_total(outs, o as nat),
        decreases no - o,
    {
        let output = &outputs[o];
        assert(outs[o as int] == output@);
        match total.checked_add(output.amount) {
            Some(v) => {
                total = v;
            },
            None => {
                proof {
                    lemma_outputs_total_mono(outs, (o + 1) as nat, no as nat);
                }
                return None;
            },
        }
        o = o + 1;
    }
    Some(total)
}

/// The keys of a list of outpoints.
pub open spec fn outpoint_keys(s: Seq<OutPoint>) -> Seq<OutKey> {
    s.map_values(|o: OutPoint| o@)
}

/// Whether `(txid, index)` is among `spent`.
fn spent_contains(spent: &Vec<OutPoint>, txid: &[u8], index: u32) -> (res: bool)
    ensures
        res == outpoint_keys(spent@).contains((txid@, index)),
{
    let n = spent.len();
    let mut i: usize = 0;
    while i < n
        invariant
            n == spent@.len(),
            i <= n,
            forall|j: int| 0 <= j < i ==> outpoint_keys(spent@)[j] != (txid@, index),
        decreases n - i,
    {
        if spent[i].index == index && bytes_eq(spent[i].txid.as_slice(), txid) {
            assert(outpoint_keys(spent@)[i as int] == (txid@, index));
            return true;
        }
        i = i + 1;
    }
    false
}

proof fn lemma_spend_inputs_stops(m: UtxoMap, spent: Seq<OutKey>, inputs: Seq<InputModel>, j: nat, n: nat)
    requires
        j <= n,
        spend_inputs(m, spent, inputs, j) is Stopped,
    ensures
        spend_inputs(m, spent, inputs, n) == spend_inputs(m, spent, inputs, j),
    decreases n - j,
{
    if j < n {
        lemma_spend_inputs_stops(m, spent, inputs, j, (n - 1) as nat);
    }
}

proof fn lemma_txs_state_stops(m0: UtxoMap, txs: Seq<TxModel>, k: nat, n: nat)
    requires
        k <= n,
        txs_state(m0, txs, k) is Stopped,
    ensures
        txs_state(m0, txs, n) == txs_state(m0, txs, k),
    decreases n - k,
{
    if k < n {
        lemma_txs_state_stops(m0, txs, k, (n - 1) as nat);
    }
}

/// Spends the inputs of `tx` from the temporary set, recording them in
/// `spent`.
fn spend_tx_inputs(tx: &Transaction, temp: &mut UtxoSet, spent: &mut Vec<OutPoint>) -> (res: Option<ChainError>)
    requires
        old(temp).wf(),
    ensures
        final(temp).wf(),
        match spend_inputs(old(temp)@, outpoint_keys(old(spent)@), tx@.inputs, tx@.inputs.len()) {
            TxsState::Running(m, s) => res is None && final(temp)@ == m && outpoint_keys(final(spent)@) == s,
            TxsState::Stopped(v) => res matches Some(e) && v == Validation::Invalid(e),
        },
{
    let ghost mk = temp@;
    let ghost sk = outpoint_keys(spent@);
    let ghost t = tx@;
    let ni = tx.inputs.len();
    let mut j: usize = 0;
    while j < ni
        invariant
            ni == tx.inputs@.len(),
            ni == t.inputs.len(),
            t == tx@,
            mk == old(temp)@,
            sk == outpoint_keys(old(spent)@),
            j <= ni,
            temp.wf(),
            spend_inputs(mk, sk, t.inputs, j as nat) == TxsState::Running(temp@, outpoint_keys(spent@)),
        decreases ni - j,
    {
        let input = &tx.inputs[j];
        assert(input_key(t.inputs[j as int]) == (input.previous_output_hash@, input.previous_output_index));
        if !temp.contains_key(input.previous_output_hash.as_slice(), input.previous_output_index) {
            proof {
                lemma_spend_inputs_stops(mk, sk, t.inputs, (j + 1) as nat, ni as nat);
            }
            return Some(ChainError::NonExistentOutput);
        }
        if spent_contains(spent, input.previous_output_hash.as_slice(), input.previous_output_index) {
            proof {
                lemma_spend_inputs_stops(mk, sk, t.inputs, (j + 1) as nat, ni as nat);
            }
            return Some(ChainError::DoubleSpend);
        }
        let outpoint = OutPoint {
            txid: copy_bytes(&input.previous_output_hash),
            index: input.previous_output_index,
        };
        let ghost before = spent@;
        spent.push(outpoint);
        assert(outpoint_keys(spent@) =~= outpoint_keys(before).push(input_key(t.inputs[j as int])));
        temp.remove(input.previous_output_hash.as_slice(), input.previous_output_index);
        j = j + 1;
    }
    None
}

/// Adds the outputs of transaction `txid` to `utxo`, at indices `0..`.
fn add_tx_outputs(txid: &Vec<u8>, outputs: &Vec<TransactionOutput>, utxo: &mut UtxoSet)
    requires
        old(utxo).wf(),
    ensures
        final(utxo).wf(),
        final(utxo)@ == add_outputs(old(utxo)@, txid@, outputs_model(outputs@), outputs@.len()),
{
    let ghost removed = utxo@;
    let ghost outs = outputs_model(outputs@);
    let no = outputs.len();
    let mut o: usize = 0;
    while o < no
        invariant
            no == outputs@.len(),
            outs == outputs_model(outputs@),
            o <= no,
            utxo.wf(),
            utxo@ == add_outputs(removed, txid@, outs, o as nat),
        decreases no - o,
    {
        let output = &outputs[o];
        let outpoint = OutPoint { txid: copy_bytes(txid), index: o as u32 };
        assert(outs[o as int] == output@);
        utxo.insert(outpoint, output.clone());
        o = o + 1;
    }
}

impl Blockchain {
    /// The chain is well formed: it holds a block and its UTXO set is well
    /// formed.
    pub open spec fn wf(&self) -> bool {
        &&& self.blocks@.len() > 0
        &&& self.utxo_set.wf()
    }

    /// Initializes a new blockchain with the genesis block.
    pub fn new() -> (res: Self)
        ensures
            res.wf(),
            res@.blocks == seq![genesis_block()],
            res@.utxo == apply_transactions(Map::empty(), seq![genesis_coinbase()], 1),
            chain_valid(res@),
    {
        let genesis_coinbase_tx = Self::create_genesis_coinbase_transaction();
        let mut transactions: Vec<Transaction> = Vec::new();
        transactions.push(genesis_coinbase_tx);
        let mut genesis_previous_hash: Vec<u8> = Vec::new();
        let mut i: usize = 0;
        while i < 32
            invariant
                i <= 32,
                genesis_previous_hash@ == Seq::new(i as nat, |j: int| 0u8),
            decreases 32 - i,
        {
            genesis_previous_hash.push(0u8);
            i = i + 1;
            assert(genesis_previous_hash@ =~= Seq::new(i as nat, |j: int| 0u8));
        }
        let mut genesis = Block {
            header: BlockHeader {
                version: 1,
                previous_hash: genesis_previous_hash,
                merkle_root: Vec::new(),
                timestamp: 1231006505,
                difficulty_target: 0x1d00ffff,
                nonce: 2083236893,
            },
            transactions,
        };
        assert(transactions_model(genesis.transactions@) =~= seq![genesis_coinbase()]);
        let merkle_root = genesis.compute_merkle_root();
        genesis.header.merkle_root = merkle_root;
        let mut blockchain = Blockchain { blocks: Vec::new(), utxo_set: UtxoSet::new() };
        blockchain.update_utxo_set(&genesis);
        blockchain.blocks.push(genesis);
        assert(blockchain@.blocks =~= seq![genesis_block()]);
        proof {
            lemma_genesis_chain_valid();
        }
        blockchain
    }

    /// The coinbase transaction of the genesis block.
    fn create_genesis_coinbase_transaction() -> (res: Transaction)
        ensures
            res@ == genesis_coinbase(),
    {
        let mut recipient_pubkey_hash: Vec<u8> = Vec::new();
        let mut i: usize = 0;
        while i < 32
            invariant
                i <= 32,
                recipient_pubkey_hash@ == Seq::new(i as nat, |j: int| 0u8),
            decreases 32 - i,
        {
            recipient_pubkey_hash.push(0u8);
            i = i + 1;
            assert(recipient_pubkey_hash@ =~= Seq::new(i as nat, |j: int| 0u8));
        }
        let inputs: Vec<crate::blockchain::transaction::TransactionInput> = Vec::new();
        let mut outputs: Vec<TransactionOutput> = Vec::new();
        outputs.push(TransactionOutput { amount: 50_000_000, script_pub_key: recipient_pubkey_hash });
        let tx = Transaction::new(inputs, outputs);
        proof {
            assert(crate::blockchain::transaction::inputs_model(inputs@) =~= Seq::<InputModel>::empty());
            assert(outputs_model(outputs@) =~= seq![
                OutputModel { amount: 50_000_000, script_pub_key: Seq::new(32, |i: int| 0u8) },
            ]);
        }
        tx
    }

    /// Updates the UTXO set with the transactions from a block.
    fn update_utxo_set(&mut self, block: &Block)
        requires
            old(self).utxo_set.wf(),
        ensures
            final(self).utxo_set.wf(),
            final(self)@.utxo == apply_transactions(
                old(self)@.utxo,
                block@.transactions,
                block@.transactions.len(),
            ),
            final(self).blocks == old(self).blocks,
    {
        let ghost m0 = self@.utxo;
        let ghost txs = block@.transactions;
        let n = block.transactions.len();
        let mut k: usize = 0;
        while k < n
            invariant
                n == block.transactions@.len(),
                n == txs.len(),
                txs == block@.transactions,
                k <= n,
                self.utxo_set.wf(),
                self@.utxo == apply_transactions(m0, txs, k as nat),
                self.blocks == old(self).blocks,
            decreases n - k,
        {
            let tx = &block.transactions[k];
            let ghost t = tx@;
            assert(t == txs[k as int]);
            let ghost mk = self@.utxo;
            let ni = tx.inputs.len();
            let mut j: usize = 0;
            while j < ni
                invariant
                    ni == tx.inputs@.len(),
                    ni == t.inputs.len(),
                    t == tx@,
                    j <= ni,
                    self.utxo_set.wf(),
                    self@.utxo == remove_inputs(mk, t.inputs, j as nat),
                    self.blocks == old(self).blocks,
                decreases ni - j,
            {
                let input = &tx.inputs[j];
                assert(input_key(t.inputs[j as int]) == (input.previous_output_hash@, input.previous_output_index));
                self.utxo_set.remove(input.previous_output_hash.as_slice(), input.previous_output_index);
                j = j + 1;
            }
            let txid = tx.hash();
            add_tx_outputs(&txid, &tx.outputs, &mut self.utxo_set);
            k = k + 1;
        }
    }

    /// Validates a single transaction against `utxo_set`.
    pub fn validate_transaction(&self, tx: &Transaction, utxo_set: &UtxoSet) -> (res: Validation)
        requires
            utxo_set.wf(),
        ensures
            res == transaction_validation(tx@, utxo_set@),
    {
        reveal(transaction_validation);
        if tx.inputs.len() == 0 {
            return Validation::Valid;
        }
        let ghost m = utxo_set@;
        let ghost t = tx@;
        let get_previous_output = |txid: &[u8], index: u32| -> (r: Option<TransactionOutput>)
            requires
                utxo_set.wf(),
            ensures
                output_opt_model(r) == if utxo_set@.contains_key((txid@, index)) {
                    Some(utxo_set@[(txid@, index)])
                } else {
                    None
                },
            { utxo_set.get(txid, index) };
        proof {
            assert forall|s: &[u8], i: u32| #[trigger] call_requires(get_previous_output, (s, i)) by {}
            assert(lookup_agrees(get_previous_output, t, utxo_prevs(t, m)));
        }
        match tx.check_inputs(get_previous_output) {
            InputsCheck::Malformed => {
                return Validation::Aborts;
            },
            InputsCheck::Invalid => {
                return Validation::Invalid(ChainError::InvalidSignature);
            },
            InputsCheck::Valid => {},
        }
        proof {
            lemma_inputs_check_valid_found(t, utxo_prevs(t, m), t.inputs.len());
        }
        let total_input_value = match sum_input_amounts(tx, utxo_set) {
            Some(v) => v,
            None => {
                return Validation::Invalid(ChainError::InputOverflow);
            },
        };
        let total_output_value = match sum_output_amounts(&tx.outputs) {
            Some(v) => v,
            None => {
                return Validation::Invalid(ChainError::OutputOverflow);
            },
        };
        if total_input_value < total_output_value {
            return Validation::Invalid(ChainError::OutputsExceedInputs);
        }
        Validation::Valid
    }

    /// Validates the transactions of a block, in order, against the UTXO
    /// set.
    pub fn validate_transactions(&self, transactions: &Vec<Transaction>) -> (res: Validation)
        requires
            self.utxo_set.wf(),
        ensures
            res == transactions_validation(self@.utxo, transactions_model(transactions@)),
    {
        let ghost m0 = self@.utxo;
        let ghost txs = transactions_model(transactions@);
        let mut temp_utxo_set = self.utxo_set.clone();
        let mut spent_outpoints: Vec<OutPoint> = Vec::new();
        let n = transactions.len();
        let mut k: usize = 0;
        assert(outpoint_keys(spent_outpoints@) =~= Seq::<OutKey>::empty());
        while k < n
            invariant
                n == transactions@.len(),
                n == txs.len(),
                txs == transactions_model(transactions@),
                m0 == self@.utxo,
                k <= n,
                temp_utxo_set.wf(),
                txs_state(m0, txs, k as nat) == TxsState::Running(
                    temp_utxo_set@,
                    outpoint_keys(spent_outpoints@),
                ),
            decreases n - k,
        {
            let tx = &transactions[k];
            let ghost t = tx@;
            assert(t == txs[k as int]);
            match self.validate_transaction(tx, &temp_utxo_set) {
                Validation::Valid => {},
                other => {
                    proof {
                        lemma_txs_state_stops(m0, txs, (k + 1) as nat, n as nat);
                    }
                    return other;
                },
            }
            match spend_tx_inputs(tx, &mut temp_utxo_set, &mut spent_outpoints) {
                Some(e) => {
                    proof {
                        lemma_txs_state_stops(m0, txs, (k + 1) as nat, n as nat);
                    }
                    return Validation::Invalid(e);
                },
                None => {},
            }
            let txid = tx.hash();
            add_tx_outputs(&txid, &tx.outputs, &mut temp_utxo_set);
            k = k + 1;
        }
        Validation::Valid
    }

    /// Verifies the proof-of-work for a block header: its hash, read as a
    /// big-endian integer, is at most the target its compact bits encode.
    pub fn verify_proof_of_work(&self, header: &BlockHeader) -> (res: bool)
        ensures
            res == meets_target(header_hash(header@), header@.difficulty_target),
    {
        let hash = header.hash();
        hash_meets_target(hash.as_slice(), header.difficulty_target)
    }

    /// Validates a block before adding it to the blockchain.
    pub fn validate_block(&self, block: &Block) -> (res: Validation)
        requires
            self.wf(),
        ensures
            res == block_validation(self@, block@),
    {
        let last = self.blocks.len() - 1;
        let last_block = &self.blocks[last];
        assert(self@.blocks.last() == last_block@);
        let last_hash = last_block.hash();
        if !bytes_eq(block.header.previous_hash.as_slice(), last_hash.as_slice()) {
            return Validation::Invalid(ChainError::InvalidPreviousHash);
        }
        if !self.verify_proof_of_work(&block.header) {
            return Validation::Invalid(ChainError::InvalidProofOfWork);
        }
        if block.transactions.len() == 0 {
            return Validation::Aborts;
        }
        let merkle_root = block.compute_merkle_root();
        if !bytes_eq(block.header.merkle_root.as_slice(), merkle_root.as_slice()) {
            return Validation::Invalid(ChainError::InvalidMerkleRoot);
        }
        self.validate_transactions(&block.transactions)
    }

    /// Adds a block to the blockchain after validation.
    pub fn add_block(&mut self, block: Block) -> (res: Result<(), String>)
        requires
            old(self).wf(),
            block_validation(old(self)@, block@) != Validation::Aborts,
        ensures
            final(self).wf(),
            chain_valid(old(self)@) ==> chain_valid(final(self)@),
            match block_validation(old(self)@, block@) {
                Validation::Valid => {
                    &&& res is Ok
                    &&& final(self)@.blocks == old(self)@.blocks.push(block@)
                    &&& final(self)@.utxo == apply_transactions(
                        old(self)@.utxo,
                        block@.transactions,
                        block@.transactions.len(),
                    )
                },
                Validation::Invalid(e) => res matches Err(m) && m@ == e.spec_message()
                    && final(self)@ == old(self)@,
                Validation::Aborts => false,
            },
    {
        match self.validate_block(&block) {
            Validation::Valid => {},
            Validation::Invalid(e) => {
                return Err(e.message());
            },
            Validation::Aborts => {
                return Err(String::from_str(""));
            },
        }
        proof {
            if chain_valid(self@) {
                lemma_add_block_keeps_chain_valid(self@, block@);
            }
        }
        self.update_utxo_set(&block);
        let ghost before = self@.blocks;
        self.blocks.push(block);
        assert(self@.blocks =~= before.push(block@));
        Ok(())
    }

    /// Adds a block to the blockchain after validation, or returns `None`
    /// (leaving the chain unchanged) for a block on which `add_block` is not
    /// defined.
    pub fn try_add_block(&mut self, block: Block) -> (res: Option<Result<(), String>>)
        requires
            old(self).wf(),
        ensures
            final(self).wf(),
            chain_valid(old(self)@) ==> chain_valid(final(self)@),
            match block_validation(old(self)@, block@) {
                Validation::Valid => {
                    &&& res matches Some(Ok(_))
                    &&& final(self)@.blocks == old(self)@.blocks.push(block@)
                    &&& final(self)@.utxo == apply_transactions(
                        old(self)@.utxo,
                        block@.transactions,
                        block@.transactions.len(),
                    )
                },
                Validation::Invalid(e) => res matches Some(Err(m)) && m@ == e.spec_message()
                    && final(self)@ == old(self)@,
                Validation::Aborts => res is None && final(self)@ == old(self)@,
            },
    {
        let v = self.validate_block(&block);
        if let Validation::Aborts = v {
            return None;
        }
        let r = self.add_block(block);
        Some(r)
    }
}

impl Transaction {
    /// Checks the signatures of the inputs against the outputs that
    /// `utxo_set` holds.
    pub fn check_inputs_in(&self, utxo_set: &UtxoSet) -> (res: InputsCheck)
        requires
            utxo_set.wf(),
        ensures
            res == inputs_check(self@, utxo_prevs(self@, utxo_set@), self@.inputs.len()),
    {
        let get_previous_output = |txid: &[u8], index: u32| -> (r: Option<TransactionOutput>)
            requires
                utxo_set.wf(),
            ensures
                output_opt_model(r) == if utxo_set@.contains_key((txid@, index)) {
                    Some(utxo_set@[(txid@, index)])
                } else {
                    None
                },
            { utxo_set.get(txid, index) };
        proof {
            assert forall|s: &[u8], i: u32| #[trigger] call_requires(get_previous_output, (s, i)) by {}
            assert(lookup_agrees(get_previous_output, self@, utxo_prevs(self@, utxo_set@)));
        }
        self.check_inputs(get_previous_output)
    }

    /// Verifies the signatures of the inputs against the outputs that
    /// `utxo_set` holds.
    pub fn verify_inputs_in(&self, utxo_set: &UtxoSet) -> (res: bool)
        requires
            utxo_set.wf(),
            inputs_check(self@, utxo_prevs(self@, utxo_set@), self@.inputs.len()) != InputsCheck::Malformed,
        ensures
            res == (inputs_check(self@, utxo_prevs(self@, utxo_set@), self@.inputs.len()) == InputsCheck::Valid),
    {
        match self.check_inputs_in(utxo_set) {
            InputsCheck::Valid => true,
            _ => false,
        }
    }
}

impl Clone for Blockchain {
    fn clone(&self) -> (res: Self)
        ensures
            self.wf() ==> res.wf() && res@ == self@,
    {
        let mut blocks: Vec<Block> = Vec::new();
        let n = self.blocks.len();
        let mut i: usize = 0;
        while i < n
            invariant
                n == self.blocks@.len(),
                i <= n,
                blocks@.len() == i,
                forall|j: int| 0 <= j < i ==> #[trigger] blocks@[j]@ == self.blocks@[j]@,
            decreases n - i,
        {
            blocks.push(self.blocks[i].clone());
            i = i + 1;
        }
        let res = Blockchain { blocks, utxo_set: self.utxo_set.clone() };
        assert(blocks_model(res.blocks@) =~= blocks_model(self.blocks@));
        res
    }
}

/// Every block after the first names the hash of the block before it.
pub open spec fn chain_linked(blocks: Seq<BlockModel>) -> bool {
    forall|i: int|
        1 <= i < blocks.len() ==> (#[trigger] blocks[i]).header.previous_hash == header_hash(
            blocks[i - 1].header,
        )
}

/// Every block after the first meets the target of its own header.
pub open spec fn chain_work_valid(blocks: Seq<BlockModel>) -> bool {
    forall|i: int|
        1 <= i < blocks.len() ==> meets_target(
            header_hash((#[trigger] blocks[i]).header),
            blocks[i].header.difficulty_target,
        )
}

/// The UTXO set that applying the transactions of `blocks`, in order, to an
/// empty set leaves.
pub open spec fn utxo_of(blocks: Seq<BlockModel>) -> UtxoMap
    decreases blocks.len(),
{
    if blocks.len() == 0 {
        Map::empty()
    } else {
        let b = blocks.last();
        apply_transactions(utxo_of(blocks.drop_last()), b.transactions, b.transactions.len())
    }
}

/// A valid chain: it holds a block, its blocks link by hash and meet their
/// targets, and its UTXO set is what its blocks' transactions leave.
pub open spec fn chain_valid(c: ChainModel) -> bool {
    &&& c.blocks.len() > 0
    &&& chain_linked(c.blocks)
    &&& chain_work_valid(c.blocks)
    &&& c.utxo == utxo_of(c.blocks)
}

proof fn lemma_single_block_chain(b: BlockModel)
    ensures
        chain_valid(
            ChainModel {
                blocks: seq![b],
                utxo: apply_transactions(Map::empty(), b.transactions, b.transactions.len()),
            },
        ),
{
    let blocks = seq![b];
    assert(blocks.len() == 1);
    assert(blocks.drop_last() =~= Seq::<BlockModel>::empty());
    assert(utxo_of(blocks.drop_last()) == Map::<OutKey, OutputModel>::empty());
    assert(blocks.last() == b);
    assert(utxo_of(blocks) == apply_transactions(Map::empty(), b.transactions, b.transactions.len()));
    assert(chain_linked(blocks));
    assert(chain_work_valid(blocks));
}

/// Law: the chain that `Blockchain::new` builds is valid.
pub proof fn lemma_genesis_chain_valid()
    ensures
        chain_valid(
            ChainModel {
                blocks: seq![genesis_block()],
                utxo: apply_transactions(Map::empty(), seq![genesis_coinbase()], 1),
            },
        ),
{
    let g = genesis_block();
    lemma_single_block_chain(g);
    assert(g.transactions == seq![genesis_coinbase()]);
    assert(g.transactions.len() == 1);
}

/// Law: appending a valid block, with the UTXO update that `add_block`
/// makes, keeps a valid chain valid.
pub proof fn lemma_add_block_keeps_chain_valid(c: ChainModel, b: BlockModel)
    requires
        chain_valid(c),
        block_validation(c, b) == Validation::Valid,
    ensures
        chain_valid(
            ChainModel {
                blocks: c.blocks.push(b),
                utxo: apply_transactions(c.utxo, b.transactions, b.transactions.len()),
            },
        ),
{
    lemma_valid_block_extends_chain(c, b);
    assert(c.blocks.push(b).drop_last() =~= c.blocks);
    assert(c.blocks.push(b).last() == b);
}

/// Law: appending a valid block keeps the chain linked by hashes and every
/// appended block's proof of work valid; the block's Merkle root is that of
/// its (non-empty) transactions.
pub proof fn lemma_valid_block_extends_chain(c: ChainModel, b: BlockModel)
    requires
        c.blocks.len() > 0,
        block_validation(c, b) == Validation::Valid,
    ensures
        chain_linked(c.blocks) ==> chain_linked(c.blocks.push(b)),
        chain_work_valid(c.blocks) ==> chain_work_valid(c.blocks.push(b)),
        b.transactions.len() > 0,
        b.header.merkle_root == transactions_merkle_root(b.transactions),
{
    let nb = c.blocks.push(b);
    if chain_linked(c.blocks) {
        assert forall|i: int| 1 <= i < nb.len() implies (#[trigger] nb[i]).header.previous_hash
            == header_hash(nb[i - 1].header) by {
            if i < c.blocks.len() {
                assert(nb[i] == c.blocks[i]);
            }
        }
    }
    if chain_work_valid(c.blocks) {
        assert forall|i: int| 1 <= i < nb.len() implies meets_target(
            header_hash((#[trigger] nb[i]).header),
            nb[i].header.difficulty_target,
        ) by {
            if i < c.blocks.len() {
                assert(nb[i] == c.blocks[i]);
            }
        }
    }
}

/// Law: a valid transaction that spends outputs creates no value: its
/// outputs sum to at most what its inputs hold, and both sums fit in a
/// `u64`.
pub proof fn lemma_no_inflation(t: TxModel, m: UtxoMap)
    requires
        transaction_validation(t, m) == Validation::Valid,
        t.inputs.len() > 0,
    ensures
        outputs_total(t.outputs, t.outputs.len()) <= inputs_total(t, m, t.inputs.len()) <= u64::MAX,
{
    reveal(transaction_validation);
}

/// The keys of the inputs of the first `k` transactions, in order.
pub open spec fn all_input_keys(txs: Seq<TxModel>, k: nat) -> Seq<OutKey>
    decreases k,
{
    if k == 0 {
        Seq::empty()
    } else {
        all_input_keys(txs, (k - 1) as nat) + txs[k - 1].inputs.map_values(|i: InputModel| input_key(i))
    }
}

proof fn lemma_spend_inputs_running(m: UtxoMap, s: Seq<OutKey>, inputs: Seq<InputModel>, j: nat)
    requires
        j <= inputs.len(),
        spend_inputs(m, s, inputs, j) is Running,
        s.no_duplicates(),
    ensures
        ({
            let (m2, s2) = (
                spend_inputs(m, s, inputs, j)->Running_0,
                spend_inputs(m, s, inputs, j)->Running_1,
            );
            &&& m2 == remove_inputs(m, inputs, j)
            &&& s2 == s + inputs.take(j as int).map_values(|i: InputModel| input_key(i))
            &&& s2.no_duplicates()
        }),
    decreases j,
{
    if j == 0 {
        assert(inputs.take(0).map_values(|i: InputModel| input_key(i)) =~= Seq::<OutKey>::empty());
        assert(s + Seq::<OutKey>::empty() =~= s);
    } else {
        lemma_spend_inputs_running(m, s, inputs, (j - 1) as nat);
        let prev = spend_inputs(m, s, inputs, (j - 1) as nat);
        let s1 = prev->Running_1;
        let key = input_key(inputs[j - 1]);
        assert(!s1.contains(key));
        assert(inputs.take(j as int).map_values(|i: InputModel| input_key(i)) =~= inputs.take(
            j - 1,
        ).map_values(|i: InputModel| input_key(i)).push(key));
        assert(s + inputs.take(j as int).map_values(|i: InputModel| input_key(i)) =~= s1.push(key));
        assert forall|a: int, b: int| 0 <= a < s1.push(key).len() && 0 <= b < s1.push(key).len() && a != b
            implies s1.push(key)[a] != s1.push(key)[b] by {
            if a < s1.len() && b < s1.len() {
            } else if a < s1.len() {
                assert(s1.contains(s1[a]));
            } else {
                assert(s1.contains(s1[b]));
            }
        }
    }
}

proof fn lemma_spend_inputs_stopped_invalid(m: UtxoMap, s: Seq<OutKey>, inputs: Seq<InputModel>, j: nat)
    ensures
        spend_inputs(m, s, inputs, j) is Stopped ==> spend_inputs(m, s, inputs, j)->Stopped_0 is Invalid,
    decreases j,
{
    if j > 0 {
        lemma_spend_inputs_stopped_invalid(m, s, inputs, (j - 1) as nat);
    }
}

proof fn lemma_txs_state_stopped_invalid(m0: UtxoMap, txs: Seq<TxModel>, k: nat)
    ensures
        txs_state(m0, txs, k) is Stopped ==> txs_state(m0, txs, k)->Stopped_0 != Validation::Valid,
    decreases k,
{
    if k > 0 {
        lemma_txs_state_stopped_invalid(m0, txs, (k - 1) as nat);
        let prev = txs_state(m0, txs, (k - 1) as nat);
        if prev is Running {
            let t = txs[k - 1];
            lemma_spend_inputs_stopped_invalid(prev->Running_0, prev->Running_1, t.inputs, t.inputs.len());
        }
    }
}

proof fn lemma_txs_state_running(m0: UtxoMap, txs: Seq<TxModel>, k: nat)
    requires
        k <= txs.len(),
        txs_state(m0, txs, k) is Running,
    ensures
        txs_state(m0, txs, k)->Running_0 == apply_transactions(m0, txs, k),
        txs_state(m0, txs, k)->Running_1 == all_input_keys(txs, k),
        all_input_keys(txs, k).no_duplicates(),
    decreases k,
{
    if k > 0 {
        lemma_txs_state_running(m0, txs, (k - 1) as nat);
        let prev = txs_state(m0, txs, (k - 1) as nat);
        let t = txs[k - 1];
        lemma_spend_inputs_running(prev->Running_0, prev->Running_1, t.inputs, t.inputs.len());
        assert(t.inputs.take(t.inputs.len() as int) =~= t.inputs);
    }
}

/// Law: validating a block's transactions spends and creates outputs
/// exactly as committing them does: a valid list of transactions leaves the
/// UTXO set that `add_block` installs.
pub proof fn lemma_validation_matches_update(m0: UtxoMap, txs: Seq<TxModel>)
    requires
        transactions_validation(m0, txs) == Validation::Valid,
    ensures
        txs_state(m0, txs, txs.len()) == TxsState::Running(
            apply_transactions(m0, txs, txs.len()),
            all_input_keys(txs, txs.len()),
        ),
{
    lemma_txs_state_stopped_invalid(m0, txs, txs.len());
    lemma_txs_state_running(m0, txs, txs.len());
}

/// Law: no outpoint is spent twice by the transactions of a valid block.
pub proof fn lemma_no_double_spend(m0: UtxoMap, txs: Seq<TxModel>)
    requires
        transactions_validation(m0, txs) == Validation::Valid,
    ensures
        all_input_keys(txs, txs.len()).no_duplicates(),
{
    lemma_txs_state_stopped_invalid(m0, txs, txs.len());
    lemma_txs_state_running(m0, txs, txs.len());
}

} // verus!
