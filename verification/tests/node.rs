use rusty_coin::blockchain::block::Block;
use rusty_coin::blockchain::blockchain::Blockchain;
use rusty_coin::blockchain::transaction::{Transaction, TransactionInput, TransactionOutput};
use rusty_coin::mining::proof_of_work::Miner;
use rusty_coin::network::node::{
    handle_incoming_block, handle_incoming_transaction, node_handle_message, select_new_peers,
    take_pending, update_mempool, worker_handle_message, Admission, BlockAcceptance, NodeAction,
    WorkerAction,
};
use rusty_coin::network::framing::{frame_length, frame_prefix};
use rusty_coin::network::Message;
use rusty_coin::utils::double_sha256;
use rusty_coin::utils::ecdsa::SigningKey;
use secp256k1::{PublicKey, Secp256k1, SecretKey};

const EASY_BITS: u32 = 0x23000001;

struct Setup {
    chain: Blockchain,
    miner: Miner,
    sk: SigningKey,
    coinbase_id: Vec<u8>,
}

fn node_setup(seed: u8) -> Setup {
    let sk = SigningKey::from_bytes(&[seed; 32]).unwrap();
    let secret = SecretKey::from_slice(&[seed; 32]).unwrap();
    let pk = PublicKey::from_secret_key(&Secp256k1::new(), &secret).serialize().to_vec();
    let miner = Miner::new(EASY_BITS, double_sha256(&pk));
    let mut chain = Blockchain::new();
    let block = next_block(&chain, &miner, vec![]);
    let coinbase_id = block.transactions[0].hash();
    chain.add_block(block).unwrap();
    Setup { chain, miner, sk, coinbase_id }
}

fn next_block(chain: &Blockchain, miner: &Miner, txs: Vec<Transaction>) -> Block {
    let mut block = miner.prepare_block(chain.blocks.last().unwrap(), txs);
    assert!(miner.search_nonce(&mut block));
    block
}

fn payment(s: &Setup, amount: u64) -> Transaction {
    let input = TransactionInput {
        previous_output_hash: s.coinbase_id.clone(),
        previous_output_index: 0,
        script_sig: vec![],
    };
    let mut tx = Transaction::new(vec![input], vec![TransactionOutput { amount, script_pub_key: vec![7; 32] }]);
    tx.sign_inputs(&s.sk, |txid: &[u8], index: u32| s.chain.utxo_set.get(txid, index)).unwrap();
    tx
}

fn strings(v: &[&str]) -> Vec<String> {
    v.iter().map(|s| s.to_string()).collect()
}

#[test]
fn valid_transaction_is_admitted_once() {
    let s = node_setup(21);
    let tx = payment(&s, 1000);
    let mut mempool = Vec::new();
    assert!(matches!(handle_incoming_transaction(&s.chain, &mut mempool, &tx), Admission::Accepted));
    assert_eq!(mempool.len(), 1);
    assert!(matches!(handle_incoming_transaction(&s.chain, &mut mempool, &tx), Admission::Duplicate));
    assert_eq!(mempool.len(), 1);
}

#[test]
fn invalid_transaction_is_rejected() {
    let s = node_setup(22);
    let tx = payment(&s, 60_000_000);
    let mut mempool = Vec::new();
    assert!(matches!(handle_incoming_transaction(&s.chain, &mut mempool, &tx), Admission::Rejected));
    assert!(mempool.is_empty());
}

#[test]
fn accepted_block_clears_its_transactions_from_the_mempool() {
    let mut s = node_setup(23);
    let included = payment(&s, 1000);
    let other = Transaction::new(vec![], vec![TransactionOutput { amount: 5, script_pub_key: vec![1] }]);
    let mut mempool = vec![included.clone(), other.clone()];
    let block = next_block(&s.chain, &s.miner, vec![included]);
    assert!(matches!(handle_incoming_block(&mut s.chain, &mut mempool, &block), BlockAcceptance::Accepted));
    assert_eq!(s.chain.blocks.len(), 3);
    assert_eq!(mempool.len(), 1);
    assert_eq!(mempool[0].txid, other.txid);
    // The same block again does not link to the new tip.
    assert!(matches!(handle_incoming_block(&mut s.chain, &mut mempool, &block), BlockAcceptance::Rejected));
    assert_eq!(s.chain.blocks.len(), 3);
    assert_eq!(mempool.len(), 1);
}

#[test]
fn update_mempool_keeps_order_of_the_rest() {
    let a = Transaction::new(vec![], vec![TransactionOutput { amount: 1, script_pub_key: vec![1] }]);
    let b = Transaction::new(vec![], vec![TransactionOutput { amount: 2, script_pub_key: vec![2] }]);
    let c = Transaction::new(vec![], vec![TransactionOutput { amount: 3, script_pub_key: vec![3] }]);
    let block = Block::new(vec![b.clone()], vec![0; 32], EASY_BITS);
    let mut mempool = vec![a.clone(), b.clone(), c.clone(), b];
    update_mempool(&mut mempool, &block);
    let ids: Vec<Vec<u8>> = mempool.iter().map(|t| t.txid.clone()).collect();
    assert_eq!(ids, vec![a.txid, c.txid]);
}

#[test]
fn listening_node_relays_accepted_messages() {
    let mut s = node_setup(24);
    let mut mempool = Vec::new();
    let tx = payment(&s, 1000);
    match node_handle_message(&mut s.chain, &mut mempool, Message::Transaction(tx.clone())) {
        NodeAction::Broadcast(Message::Transaction(t)) => assert_eq!(t.txid, tx.txid),
        _ => panic!("transaction not relayed"),
    }
    assert!(matches!(
        node_handle_message(&mut s.chain, &mut mempool, Message::Transaction(tx.clone())),
        NodeAction::Ignore
    ));
    let block = next_block(&s.chain, &s.miner, vec![tx]);
    let hash = block.hash();
    match node_handle_message(&mut s.chain, &mut mempool, Message::Block(block)) {
        NodeAction::Broadcast(Message::Block(b)) => assert_eq!(b.hash(), hash),
        _ => panic!("block not relayed"),
    }
    assert!(mempool.is_empty());
    assert_eq!(s.chain.blocks.len(), 3);
}

#[test]
fn listening_node_answers_requests() {
    let mut s = node_setup(25);
    let mut mempool = Vec::new();
    assert!(matches!(node_handle_message(&mut s.chain, &mut mempool, Message::GetBlockchain), NodeAction::SendBlockchain));
    assert!(matches!(node_handle_message(&mut s.chain, &mut mempool, Message::RequestPeers), NodeAction::Ignore));
    assert!(matches!(node_handle_message(&mut s.chain, &mut mempool, Message::Peers(vec![])), NodeAction::Ignore));
    assert!(matches!(
        node_handle_message(&mut s.chain, &mut mempool, Message::Ping),
        NodeAction::Unhandled(Message::Ping)
    ));
    assert!(matches!(
        node_handle_message(&mut s.chain, &mut mempool, Message::Pong),
        NodeAction::Unhandled(Message::Pong)
    ));
}

#[test]
fn worker_replies_and_connects() {
    let mut s = node_setup(26);
    let mut mempool = Vec::new();
    let me = "127.0.0.1:8001".to_string();
    let known = strings(&["127.0.0.1:8002"]);
    assert!(matches!(
        worker_handle_message(&mut s.chain, &mut mempool, Message::Ping, &me, &known),
        WorkerAction::Reply(Message::Pong)
    ));
    assert!(matches!(
        worker_handle_message(&mut s.chain, &mut mempool, Message::Pong, &me, &known),
        WorkerAction::Nothing
    ));
    match worker_handle_message(&mut s.chain, &mut mempool, Message::RequestPeers, &me, &known) {
        WorkerAction::Reply(Message::Peers(p)) => assert_eq!(p, known),
        _ => panic!("peers not sent"),
    }
    let received = strings(&["127.0.0.1:8001", "127.0.0.1:8002", "127.0.0.1:8003"]);
    match worker_handle_message(&mut s.chain, &mut mempool, Message::Peers(received), &me, &known) {
        WorkerAction::Connect(p) => assert_eq!(p, strings(&["127.0.0.1:8003"])),
        _ => panic!("no connection"),
    }
    match worker_handle_message(&mut s.chain, &mut mempool, Message::GetBlockchain, &me, &known) {
        WorkerAction::Reply(Message::BlockchainData(c)) => assert_eq!(c.blocks.len(), 2),
        _ => panic!("chain not sent"),
    }
}

#[test]
fn worker_pools_transactions_and_adopts_longer_chains() {
    let mut s = node_setup(27);
    let mut mempool = Vec::new();
    let me = "a".to_string();
    let tx = payment(&s, 1000);
    assert!(matches!(
        worker_handle_message(&mut s.chain, &mut mempool, Message::BroadcastTransaction(tx.clone()), &me, &vec![]),
        WorkerAction::Broadcast(Message::BroadcastTransaction(_))
    ));
    assert!(matches!(
        worker_handle_message(&mut s.chain, &mut mempool, Message::BroadcastTransaction(tx.clone()), &me, &vec![]),
        WorkerAction::Nothing
    ));
    assert_eq!(mempool.len(), 1);
    assert!(matches!(
        worker_handle_message(&mut s.chain, &mut mempool, Message::Transaction(tx.clone()), &me, &vec![]),
        WorkerAction::Broadcast(Message::BroadcastTransaction(_))
    ));
    assert_eq!(mempool.len(), 2);

    let shorter = Blockchain::new();
    assert!(matches!(
        worker_handle_message(&mut s.chain, &mut mempool, Message::BlockchainData(shorter), &me, &vec![]),
        WorkerAction::Nothing
    ));
    assert_eq!(s.chain.blocks.len(), 2);
    let mut longer = s.chain.clone();
    let block = next_block(&longer, &s.miner, vec![]);
    longer.add_block(block).unwrap();
    worker_handle_message(&mut s.chain, &mut mempool, Message::BlockchainData(longer), &me, &vec![]);
    assert_eq!(s.chain.blocks.len(), 3);

    let block = next_block(&s.chain, &s.miner, vec![tx]);
    assert!(matches!(
        worker_handle_message(&mut s.chain, &mut mempool, Message::NewBlock(block), &me, &vec![]),
        WorkerAction::Broadcast(Message::Block(_))
    ));
    assert!(mempool.is_empty());
    assert_eq!(s.chain.blocks.len(), 4);
}

#[test]
fn peers_to_connect_skip_self_and_known() {
    let received = strings(&["x", "me", "y", "x"]);
    let got = select_new_peers(&received, &"me".to_string(), &strings(&["y"]));
    assert_eq!(got, strings(&["x", "x"]));
}

#[test]
fn take_pending_empties_the_mempool() {
    let mut mempool: Vec<Transaction> = Vec::new();
    assert!(take_pending(&mut mempool).is_none());
    let a = Transaction::new(vec![], vec![TransactionOutput { amount: 1, script_pub_key: vec![1] }]);
    mempool.push(a.clone());
    let taken = take_pending(&mut mempool).unwrap();
    assert_eq!(taken.len(), 1);
    assert_eq!(taken[0].txid, a.txid);
    assert!(mempool.is_empty());
}

#[test]
fn frame_prefix_is_big_endian_length() {
    assert_eq!(frame_prefix(0x0102_0304), vec![1, 2, 3, 4]);
    assert_eq!(frame_prefix(300), (300u32).to_be_bytes().to_vec());
    assert_eq!(frame_length(&[0, 0, 1, 44]), 300);
    assert_eq!(frame_length(&frame_prefix(123_456)), 123_456);
    assert_eq!(frame_length(&[0xff, 0xff, 0xff, 0xff]), u32::MAX);
}
