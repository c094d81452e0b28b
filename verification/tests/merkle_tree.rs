use rusty_coin::blockchain::merkle_tree::MerkleTree;
use sha2::{Digest, Sha256};

fn double_sha256(data: &[u8]) -> Vec<u8> {
    let hash1 = Sha256::digest(data);
    let hash2 = Sha256::digest(&hash1);
    hash2.to_vec()
}

#[test]
fn test_merkle_tree_single_transaction() {
    let tx_hash = double_sha256(b"transaction1");
    let merkle_tree = MerkleTree::new(&[tx_hash.clone()]).expect("Failed to create Merkle Tree");
    assert_eq!(merkle_tree.root(), tx_hash);
}

#[test]
fn test_merkle_tree_multiple_transactions() {
    let tx_hashes = vec![
        double_sha256(b"tx1"),
        double_sha256(b"tx2"),
        double_sha256(b"tx3"),
        double_sha256(b"tx4"),
    ];
    let merkle_tree = MerkleTree::new(&tx_hashes).expect("Failed to create Merkle Tree");
    assert!(!merkle_tree.root().is_empty());
}

#[test]
fn test_merkle_tree_odd_number_of_transactions() {
    let tx_hashes = vec![
        double_sha256(b"tx1"),
        double_sha256(b"tx2"),
        double_sha256(b"tx3"),
    ];
    let merkle_tree = MerkleTree::new(&tx_hashes).expect("Failed to create Merkle Tree");
    assert!(!merkle_tree.root().is_empty());
}

#[test]
#[should_panic(expected = "Cannot create a Merkle Tree with no transactions")]
fn test_merkle_tree_empty_transactions() {
    let tx_hashes: Vec<Vec<u8>> = Vec::new();
    MerkleTree::new(&tx_hashes).unwrap();
}

fn concat(a: &[u8], b: &[u8]) -> Vec<u8> {
    let mut v = a.to_vec();
    v.extend_from_slice(b);
    v
}

#[test]
fn merkle_root_of_four_leaves_is_exact() {
    let h: Vec<Vec<u8>> = (1..=4).map(|i| double_sha256(format!("tx{}", i).as_bytes())).collect();
    let tree = MerkleTree::new(&h).unwrap();
    let left = double_sha256(&concat(&h[0], &h[1]));
    let right = double_sha256(&concat(&h[2], &h[3]));
    assert_eq!(tree.root(), double_sha256(&concat(&left, &right)));
}

#[test]
fn merkle_root_of_three_leaves_pairs_the_last_with_itself() {
    let h: Vec<Vec<u8>> = (1..=3).map(|i| double_sha256(format!("tx{}", i).as_bytes())).collect();
    let tree = MerkleTree::new(&h).unwrap();
    let left = double_sha256(&concat(&h[0], &h[1]));
    let right = double_sha256(&concat(&h[2], &h[2]));
    assert_eq!(tree.root(), double_sha256(&concat(&left, &right)));
}

#[test]
fn merkle_root_of_two_or_more_leaves_is_32_bytes() {
    let tree = MerkleTree::new(&[vec![1u8], vec![]]).unwrap();
    assert_eq!(tree.root().len(), 32);
    let single = MerkleTree::new(&[vec![]]).unwrap();
    assert_eq!(single.root(), Vec::<u8>::new());
}
