use rusty_coin::blockchain::blockchain::{Blockchain, Validation};
use rusty_coin::blockchain::signing::InputsCheck;
use rusty_coin::blockchain::transaction::TransactionOutput;
use rusty_coin::blockchain::utxo::{OutPoint, UtxoSet};
use rusty_coin::mining::proof_of_work::Miner;
use rusty_coin::utils::double_sha256;
use rusty_coin::utils::ecdsa::SigningKey;
use rusty_coin::wallet::{create_test_transaction, FEE, SEND_AMOUNT};
use secp256k1::{PublicKey, Secp256k1, SecretKey};

fn wallet_keys(seed: u8) -> (SigningKey, Vec<u8>) {
    let sk = SigningKey::from_bytes(&[seed; 32]).unwrap();
    let secret = SecretKey::from_slice(&[seed; 32]).unwrap();
    let pk = PublicKey::from_secret_key(&Secp256k1::new(), &secret).serialize().to_vec();
    (sk, pk)
}

#[test]
fn payment_from_a_mined_reward_is_valid() {
    let (sender_sk, sender_pk) = wallet_keys(31);
    let (_, recipient_pk) = wallet_keys(32);
    let miner = Miner::new(0x23000001, double_sha256(&sender_pk));
    let mut chain = Blockchain::new();
    let mut block = miner.prepare_block(&chain.blocks[0], vec![]);
    assert!(miner.search_nonce(&mut block));
    let coinbase_id = block.transactions[0].hash();
    chain.add_block(block).unwrap();

    let tx = create_test_transaction(&chain.utxo_set, &sender_sk, &sender_pk, &recipient_pk).unwrap();
    assert_eq!(tx.inputs.len(), 1);
    assert_eq!(tx.inputs[0].previous_output_hash, coinbase_id);
    assert_eq!(tx.inputs[0].previous_output_index, 0);
    assert_eq!(tx.outputs.len(), 2);
    assert_eq!(tx.outputs[0].amount, SEND_AMOUNT - FEE);
    assert_eq!(tx.outputs[0].amount, 4000);
    assert_eq!(tx.outputs[0].script_pub_key, double_sha256(&recipient_pk));
    assert_eq!(tx.outputs[1].amount, 50_000_000 - 6000);
    assert_eq!(tx.outputs[1].script_pub_key, double_sha256(&sender_pk));
    assert!(tx.verify_inputs(|txid: &[u8], index: u32| chain.utxo_set.get(txid, index)));
    assert!(tx.verify_inputs_in(&chain.utxo_set));
    assert!(matches!(tx.check_inputs_in(&chain.utxo_set), InputsCheck::Valid));
    assert!(matches!(chain.validate_transaction(&tx, &chain.utxo_set), Validation::Valid));

    let mut next = miner.prepare_block(chain.blocks.last().unwrap(), vec![tx.clone()]);
    assert!(miner.search_nonce(&mut next));
    assert_eq!(chain.add_block(next), Ok(()));
    assert_eq!(chain.utxo_set.get(&tx.hash(), 0).unwrap().amount, 4000);
}

#[test]
fn exact_amount_leaves_no_change() {
    let (sender_sk, sender_pk) = wallet_keys(33);
    let (_, recipient_pk) = wallet_keys(34);
    let mut utxo = UtxoSet::new();
    utxo.insert(
        OutPoint { txid: vec![1; 32], index: 3 },
        TransactionOutput { amount: 2000, script_pub_key: double_sha256(&sender_pk) },
    );
    utxo.insert(
        OutPoint { txid: vec![2; 32], index: 0 },
        TransactionOutput { amount: 4000, script_pub_key: double_sha256(&sender_pk) },
    );
    utxo.insert(
        OutPoint { txid: vec![3; 32], index: 0 },
        TransactionOutput { amount: 9999, script_pub_key: double_sha256(&recipient_pk) },
    );
    let tx = create_test_transaction(&utxo, &sender_sk, &sender_pk, &recipient_pk).unwrap();
    assert_eq!(tx.inputs.len(), 2);
    assert_eq!(tx.outputs.len(), 1);
    assert_eq!(tx.outputs[0].amount, 4000);
    assert!(tx.verify_inputs(|txid: &[u8], index: u32| utxo.get(txid, index)));
    assert!(tx.verify_inputs_in(&utxo));
    let mut tampered = tx.clone();
    tampered.outputs[0].amount = 3999;
    assert!(!tampered.verify_inputs_in(&utxo));
}
