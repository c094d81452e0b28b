use rand::rngs::OsRng;
use rusty_coin::blockchain::transaction::{Transaction, TransactionInput, TransactionOutput};
use rusty_coin::utils::double_sha256;
use rusty_coin::utils::ecdsa::SigningKey;
use secp256k1::Secp256k1;
use std::collections::HashMap;

#[test]
fn test_verify_inputs() {
    // Simulate UTXO set
    let mut utxo_set: HashMap<(Vec<u8>, u32), TransactionOutput> = HashMap::new();

    // Generate keys
    let secp = Secp256k1::new();
    let mut rng = OsRng::default();
    let (private_key, public_key) = secp.generate_keypair(&mut rng);

    // Compute public key hash
    let pubkey_bytes = public_key.serialize();
    let pubkey_hash = double_sha256(&pubkey_bytes);

    // Previous transaction output
    let prev_txid = vec![0u8; 32]; // Placeholder txid
    let prev_output_index = 0;
    let prev_output = TransactionOutput {
        amount: 50_000_000,
        script_pub_key: pubkey_hash.clone(),
    };
    utxo_set.insert((prev_txid.clone(), prev_output_index), prev_output.clone());

    // Transaction input
    let input = TransactionInput {
        previous_output_hash: prev_txid.clone(),
        previous_output_index: prev_output_index,
        script_sig: vec![], // Will be filled after signing
    };

    // Transaction output
    let output = TransactionOutput {
        amount: 50_000_000,
        script_pub_key: pubkey_hash.clone(),
    };

    // Create transaction
    let mut tx = Transaction::new(vec![input], vec![output]);

    // Closure to get previous output
    let get_previous_output = |txid: &[u8], index: u32| -> Option<TransactionOutput> {
        utxo_set.get(&(txid.to_vec(), index)).cloned()
    };

    // Sign inputs
    let signing_key = SigningKey::from_bytes(&private_key.secret_bytes()).unwrap();
    tx.sign_inputs(&signing_key, &get_previous_output)
        .expect("Failed to sign inputs");

    // Verify inputs
    let is_valid = tx.verify_inputs(get_previous_output);

    assert!(is_valid);
}
