use rusty_coin::blockchain::block::Block;
use rusty_coin::blockchain::blockchain::Blockchain;
use rusty_coin::blockchain::transaction::{build_script_sig, Transaction, TransactionInput, TransactionOutput};
use rusty_coin::mining::proof_of_work::Miner;
use rusty_coin::utils::double_sha256;
use rusty_coin::utils::ecdsa::SigningKey;
use secp256k1::{PublicKey, Secp256k1, SecretKey};

/// Compact bits whose target exceeds every 32-byte hash.
const EASY: u32 = 0x23000001;

fn key(seed: u8) -> (SigningKey, Vec<u8>) {
    let sk = SigningKey::from_bytes(&[seed; 32]).unwrap();
    let secret = SecretKey::from_slice(&[seed; 32]).unwrap();
    let pk = PublicKey::from_secret_key(&Secp256k1::new(), &secret).serialize().to_vec();
    (sk, double_sha256(&pk))
}

fn mine_on(chain: &Blockchain, miner: &Miner, txs: Vec<Transaction>) -> Block {
    let last = chain.blocks.last().unwrap();
    let mut block = miner.prepare_block(last, txs);
    assert!(miner.search_nonce(&mut block));
    block
}

fn spend(chain: &Blockchain, sk: &SigningKey, prevs: &[(Vec<u8>, u32)], outputs: Vec<TransactionOutput>) -> Transaction {
    let inputs = prevs
        .iter()
        .map(|(h, i)| TransactionInput { previous_output_hash: h.clone(), previous_output_index: *i, script_sig: vec![] })
        .collect();
    let mut tx = Transaction::new(inputs, outputs);
    tx.sign_inputs(sk, |txid: &[u8], index: u32| chain.utxo_set.get(txid, index)).unwrap();
    tx
}

fn funded_chain(sk_seed: u8) -> (Blockchain, Miner, SigningKey, Vec<u8>, Vec<u8>) {
    let (sk, pkh) = key(sk_seed);
    let mut chain = Blockchain::new();
    let miner = Miner::new(EASY, pkh.clone());
    let block = mine_on(&chain, &miner, vec![]);
    let coinbase_id = block.transactions[0].hash();
    chain.add_block(block).unwrap();
    (chain, miner, sk, pkh, coinbase_id)
}

#[test]
fn new_chain_holds_the_genesis_block() {
    let chain = Blockchain::new();
    assert_eq!(chain.blocks.len(), 1);
    let genesis = &chain.blocks[0];
    assert_eq!(genesis.header.previous_hash, vec![0u8; 32]);
    assert_eq!(genesis.header.nonce, 2083236893);
    assert_eq!(genesis.header.timestamp, 1231006505);
    assert_eq!(genesis.header.difficulty_target, 0x1d00ffff);
    assert_eq!(genesis.header.merkle_root, genesis.transactions[0].hash());
    assert_eq!(chain.utxo_set.len(), 1);
    let out = chain.utxo_set.get(&genesis.transactions[0].hash(), 0).unwrap();
    assert_eq!(out.amount, 50_000_000);
    assert_eq!(out.script_pub_key, vec![0u8; 32]);
}

#[test]
fn mined_coinbase_block_is_accepted() {
    let (chain, _miner, _sk, pkh, coinbase_id) = funded_chain(1);
    assert_eq!(chain.blocks.len(), 2);
    assert_eq!(chain.blocks[1].header.previous_hash, chain.blocks[0].hash());
    assert_eq!(chain.utxo_set.len(), 2);
    let out = chain.utxo_set.get(&coinbase_id, 0).unwrap();
    assert_eq!((out.amount, out.script_pub_key), (50_000_000, pkh));
}

#[test]
fn wrong_previous_hash_is_rejected() {
    let mut chain = Blockchain::new();
    let miner = Miner::new(EASY, vec![1, 2, 3, 4]);
    let mut block = mine_on(&chain, &miner, vec![]);
    block.header.previous_hash = vec![1; 32];
    assert_eq!(chain.add_block(block), Err("Invalid previous block hash".to_string()));
    assert_eq!(chain.blocks.len(), 1);
}

#[test]
fn insufficient_work_is_rejected() {
    let mut chain = Blockchain::new();
    let miner = Miner::new(0x03000001, vec![1, 2, 3, 4]);
    let block = miner.prepare_block(&chain.blocks[0], vec![]);
    assert_eq!(chain.add_block(block), Err("Invalid proof-of-work".to_string()));
    assert_eq!(chain.blocks.len(), 1);
}

#[test]
fn wrong_merkle_root_is_rejected() {
    let mut chain = Blockchain::new();
    let miner = Miner::new(EASY, vec![1, 2, 3, 4]);
    let mut block = mine_on(&chain, &miner, vec![]);
    block.header.merkle_root = vec![0; 32];
    assert_eq!(chain.add_block(block), Err("Invalid Merkle root".to_string()));
}

#[test]
fn block_without_transactions_is_not_added() {
    let mut chain = Blockchain::new();
    let miner = Miner::new(EASY, vec![1, 2, 3, 4]);
    let mut block = mine_on(&chain, &miner, vec![]);
    block.transactions.clear();
    assert!(chain.try_add_block(block).is_none());
    assert_eq!(chain.blocks.len(), 1);
}

#[test]
fn valid_spend_is_accepted_and_moves_the_output() {
    let (mut chain, miner, sk, pkh, coinbase_id) = funded_chain(2);
    let tx = spend(&chain, &sk, &[(coinbase_id.clone(), 0)], vec![
        TransactionOutput { amount: 30_000_000, script_pub_key: vec![7; 32] },
        TransactionOutput { amount: 19_000_000, script_pub_key: pkh.clone() },
    ]);
    let txid = tx.hash();
    let block = mine_on(&chain, &miner, vec![tx]);
    assert_eq!(chain.add_block(block), Ok(()));
    assert_eq!(chain.blocks.len(), 3);
    // The coinbase of the new block has the same id as the one spent, so
    // that outpoint is unspent again.
    assert_eq!(chain.utxo_set.get(&txid, 0).unwrap().amount, 30_000_000);
    assert_eq!(chain.utxo_set.get(&txid, 1).unwrap().amount, 19_000_000);
    assert!(chain.utxo_set.get(&txid, 2).is_none());
}

#[test]
fn wrong_key_is_rejected() {
    let (mut chain, miner, _sk, _pkh, coinbase_id) = funded_chain(3);
    let (other, _) = key(4);
    let tx = spend(&chain, &other, &[(coinbase_id, 0)], vec![TransactionOutput { amount: 1, script_pub_key: vec![] }]);
    let block = mine_on(&chain, &miner, vec![tx]);
    assert_eq!(chain.add_block(block), Err("Invalid transaction signature".to_string()));
    assert_eq!(chain.blocks.len(), 2);
}

#[test]
fn spending_more_than_the_inputs_is_rejected() {
    let (mut chain, miner, sk, _pkh, coinbase_id) = funded_chain(5);
    let tx = spend(&chain, &sk, &[(coinbase_id, 0)], vec![TransactionOutput { amount: 50_000_001, script_pub_key: vec![] }]);
    let block = mine_on(&chain, &miner, vec![tx]);
    assert_eq!(chain.add_block(block), Err("Transaction outputs exceed inputs".to_string()));
}

#[test]
fn output_sum_overflow_is_rejected() {
    let (mut chain, miner, sk, _pkh, coinbase_id) = funded_chain(6);
    let tx = spend(&chain, &sk, &[(coinbase_id, 0)], vec![
        TransactionOutput { amount: u64::MAX, script_pub_key: vec![] },
        TransactionOutput { amount: 1, script_pub_key: vec![] },
    ]);
    let block = mine_on(&chain, &miner, vec![tx]);
    assert_eq!(chain.add_block(block), Err("Output value overflow".to_string()));
}

#[test]
fn input_sum_overflow_is_rejected() {
    let (sk, pkh) = key(7);
    let mut chain = Blockchain::new();
    let miner = Miner::new(EASY, pkh.clone());
    let rich = Transaction::new(vec![], vec![
        TransactionOutput { amount: u64::MAX, script_pub_key: pkh.clone() },
        TransactionOutput { amount: 1, script_pub_key: pkh.clone() },
    ]);
    let rich_id = rich.hash();
    let block = mine_on(&chain, &miner, vec![rich]);
    chain.add_block(block).unwrap();
    let tx = spend(&chain, &sk, &[(rich_id.clone(), 0), (rich_id, 1)], vec![TransactionOutput { amount: 1, script_pub_key: vec![] }]);
    let block = mine_on(&chain, &miner, vec![tx]);
    assert_eq!(chain.add_block(block), Err("Input value overflow".to_string()));
}

#[test]
fn spending_one_output_twice_in_a_transaction_is_rejected() {
    let (mut chain, miner, sk, _pkh, coinbase_id) = funded_chain(8);
    let tx = spend(&chain, &sk, &[(coinbase_id.clone(), 0), (coinbase_id, 0)], vec![TransactionOutput { amount: 1, script_pub_key: vec![] }]);
    let block = mine_on(&chain, &miner, vec![tx]);
    assert_eq!(chain.add_block(block), Err("Attempted to spend a non-existent output".to_string()));
}

#[test]
fn double_spend_in_a_block_is_rejected() {
    let (sk, pkh) = key(9);
    let chain = Blockchain::new();
    let miner = Miner::new(EASY, vec![1]);
    // A transaction without inputs, repeated, re-creates the same output.
    let source = Transaction::new(vec![], vec![TransactionOutput { amount: 10, script_pub_key: pkh.clone() }]);
    let source_id = source.hash();
    let mut scratch = Blockchain::new();
    let funding = mine_on(&scratch, &Miner::new(EASY, vec![2]), vec![source.clone()]);
    scratch.add_block(funding).unwrap();
    let spender = spend(&scratch, &sk, &[(source_id, 0)], vec![TransactionOutput { amount: 10, script_pub_key: vec![] }]);
    let mut chain = chain;
    let block = mine_on(&chain, &miner, vec![source.clone(), spender.clone(), source, spender]);
    assert_eq!(chain.add_block(block), Err("Double spending detected in block".to_string()));
    assert_eq!(chain.blocks.len(), 1);
}

#[test]
fn empty_signature_makes_validation_undefined() {
    let (mut chain, miner, sk, _pkh, coinbase_id) = funded_chain(10);
    let pk = sk.verifying_key().bytes();
    let tx = Transaction::new(
        vec![TransactionInput { previous_output_hash: coinbase_id, previous_output_index: 0, script_sig: build_script_sig(&[], &pk) }],
        vec![TransactionOutput { amount: 1, script_pub_key: vec![] }],
    );
    assert_eq!(tx.try_verify_inputs(|txid: &[u8], index: u32| chain.utxo_set.get(txid, index)), None);
    let block = mine_on(&chain, &miner, vec![tx]);
    assert!(chain.try_add_block(block).is_none());
    assert_eq!(chain.blocks.len(), 2);
}
