use rusty_coin::blockchain::block::BlockHeader;
use rusty_coin::blockchain::transaction::{Transaction, TransactionInput, TransactionOutput};
use rusty_coin::utils::double_sha256;
use sha2::{Digest, Sha256};

fn sha256d(data: &[u8]) -> Vec<u8> {
    Sha256::digest(Sha256::digest(data)).to_vec()
}

#[test]
fn double_sha256_matches_sha2_twice() {
    assert_eq!(double_sha256(b"abc"), sha256d(b"abc"));
    assert_eq!(double_sha256(b"").len(), 32);
    assert_eq!(
        hex::encode(double_sha256(b"hello")),
        "9595c9df90075148eb06860365df33584b75bff782a510c6cd4883a419833d50"
    );
}

#[test]
fn header_bytes_match_bincode() {
    let h = BlockHeader {
        version: 1,
        previous_hash: vec![1, 2, 3],
        merkle_root: vec![9; 32],
        timestamp: 123_456_789,
        nonce: 0x0102_0304_0506_0708,
        difficulty_target: 0x1d00ffff,
    };
    let expected = bincode::serialize(&(
        1u32,
        vec![1u8, 2, 3],
        vec![9u8; 32],
        123_456_789u64,
        0x0102_0304_0506_0708u64,
        0x1d00ffffu32,
    ))
    .unwrap();
    assert_eq!(h.serialize(), expected);
    assert_eq!(h.hash(), sha256d(&expected));
}

#[test]
fn header_bytes_exact_layout() {
    let h = BlockHeader {
        version: 2,
        previous_hash: vec![0xaa],
        merkle_root: vec![],
        timestamp: 1,
        nonce: 256,
        difficulty_target: 0x01020304,
    };
    let expected: Vec<u8> = vec![
        2, 0, 0, 0, // version
        1, 0, 0, 0, 0, 0, 0, 0, 0xaa, // previous hash
        0, 0, 0, 0, 0, 0, 0, 0, // merkle root
        1, 0, 0, 0, 0, 0, 0, 0, // timestamp
        0, 1, 0, 0, 0, 0, 0, 0, // nonce
        4, 3, 2, 1, // bits
    ];
    assert_eq!(h.serialize(), expected);
}

fn sample_tx() -> Transaction {
    Transaction {
        inputs: vec![
            TransactionInput { previous_output_hash: vec![5; 32], previous_output_index: 3, script_sig: vec![1, 2] },
            TransactionInput { previous_output_hash: vec![6; 4], previous_output_index: 0, script_sig: vec![] },
        ],
        outputs: vec![TransactionOutput { amount: 77, script_pub_key: vec![8; 32] }],
        txid: vec![4, 4],
    }
}

#[test]
fn transaction_bytes_match_bincode() {
    let tx = sample_tx();
    let expected = bincode::serialize(&(
        vec![(vec![5u8; 32], 3u32, vec![1u8, 2]), (vec![6u8; 4], 0u32, vec![])],
        vec![(77u64, vec![8u8; 32])],
        vec![4u8, 4],
    ))
    .unwrap();
    assert_eq!(tx.serialize(), expected);
    assert_eq!(tx.hash(), sha256d(&expected));
}

#[test]
fn new_transaction_sets_txid_to_hash_without_txid() {
    let tx = Transaction::new(sample_tx().inputs, sample_tx().outputs);
    let expected = bincode::serialize(&(
        vec![(vec![5u8; 32], 3u32, vec![1u8, 2]), (vec![6u8; 4], 0u32, vec![])],
        vec![(77u64, vec![8u8; 32])],
        Vec::<u8>::new(),
    ))
    .unwrap();
    assert_eq!(tx.txid, sha256d(&expected));
    // The hash of the finished transaction covers its txid, so it differs.
    assert_ne!(tx.hash(), tx.txid);
}

#[test]
fn signature_hash_is_exact() {
    let tx = sample_tx();
    let h = tx.signature_hash(1, &[0xcc, 0xdd], 1).unwrap();
    let mut data = bincode::serialize(&(
        vec![(vec![5u8; 32], 3u32, Vec::<u8>::new()), (vec![6u8; 4], 0u32, vec![0xccu8, 0xdd])],
        vec![(77u64, vec![8u8; 32])],
        vec![4u8, 4],
    ))
    .unwrap();
    data.extend_from_slice(&1u32.to_le_bytes());
    assert_eq!(h, sha256d(&data));
}
