use rusty_coin::blockchain::signing::InputsCheck;
use rusty_coin::blockchain::transaction::{
    build_script_sig, parse_script_sig, Transaction, TransactionInput, TransactionOutput,
};
use rusty_coin::utils::double_sha256;
use rusty_coin::utils::ecdsa::SigningKey;
use secp256k1::{PublicKey, Secp256k1, SecretKey};
use sha2::{Digest, Sha256};

fn fixed_key(seed: u8) -> (SigningKey, Vec<u8>) {
    let sk = SigningKey::from_bytes(&[seed; 32]).unwrap();
    let secret = SecretKey::from_slice(&[seed; 32]).unwrap();
    let pk = PublicKey::from_secret_key(&Secp256k1::new(), &secret).serialize().to_vec();
    (sk, pk)
}

fn one_input_tx(prev_txid: &[u8], amount: u64, to: Vec<u8>) -> Transaction {
    let input = TransactionInput {
        previous_output_hash: prev_txid.to_vec(),
        previous_output_index: 0,
        script_sig: vec![],
    };
    Transaction::new(vec![input], vec![TransactionOutput { amount, script_pub_key: to }])
}

fn locked_output(prev_txid: Vec<u8>, script: Vec<u8>) -> impl Fn(&[u8], u32) -> Option<TransactionOutput> {
    move |txid: &[u8], index: u32| {
        if txid == prev_txid.as_slice() && index == 0 {
            Some(TransactionOutput { amount: 1000, script_pub_key: script.clone() })
        } else {
            None
        }
    }
}

#[test]
fn double_sha256_of_empty_input() {
    let once = Sha256::digest(b"rusty coin");
    assert_eq!(double_sha256(b"rusty coin"), Sha256::digest(once).to_vec());
    assert_eq!(
        double_sha256(b""),
        vec![
            0x5d, 0xf6, 0xe0, 0xe2, 0x76, 0x13, 0x59, 0xd3, 0x0a, 0x82, 0x75, 0x05, 0x8e, 0x29, 0x9f, 0xcc,
            0x03, 0x81, 0x53, 0x45, 0x45, 0xf5, 0x5c, 0xf4, 0x3e, 0x41, 0x98, 0x3f, 0x5d, 0x4c, 0x94, 0x56
        ]
    );
}

#[test]
fn signed_input_verifies() {
    let (sk, pk) = fixed_key(7);
    let prev = vec![9u8; 32];
    let lookup = locked_output(prev.clone(), double_sha256(&pk));
    let mut tx = one_input_tx(&prev, 900, vec![1, 2, 3]);
    let unsigned_id = tx.txid.clone();
    tx.sign_inputs(&sk, &lookup).unwrap();
    assert_eq!(tx.txid, unsigned_id);
    let (sig, pubkey) = parse_script_sig(&tx.inputs[0].script_sig).unwrap();
    assert_eq!(pubkey, pk);
    assert_eq!(*sig.last().unwrap(), 1u8);
    assert!(sig.len() <= 73);
    assert!(tx.verify_inputs(&lookup));
    assert!(matches!(tx.check_inputs(&lookup), InputsCheck::Valid));
    assert_eq!(tx.try_verify_inputs(&lookup), Some(true));
}

#[test]
fn changed_output_breaks_the_signature() {
    let (sk, pk) = fixed_key(7);
    let prev = vec![9u8; 32];
    let lookup = locked_output(prev.clone(), double_sha256(&pk));
    let mut tx = one_input_tx(&prev, 900, vec![1, 2, 3]);
    tx.sign_inputs(&sk, &lookup).unwrap();
    tx.outputs[0].amount = 901;
    assert!(!tx.verify_inputs(&lookup));
    assert!(matches!(tx.check_inputs(&lookup), InputsCheck::Invalid));
}

#[test]
fn key_of_another_owner_is_refused() {
    let (_, owner_pk) = fixed_key(7);
    let (thief_sk, _) = fixed_key(8);
    let prev = vec![9u8; 32];
    let lookup = locked_output(prev.clone(), double_sha256(&owner_pk));
    let mut tx = one_input_tx(&prev, 900, vec![1, 2, 3]);
    tx.sign_inputs(&thief_sk, &lookup).unwrap();
    assert!(!tx.verify_inputs(&lookup));
}

#[test]
fn missing_previous_output_stops_signing_and_verifying() {
    let (sk, pk) = fixed_key(7);
    let lookup = locked_output(vec![9u8; 32], double_sha256(&pk));
    let mut tx = one_input_tx(&[4u8; 32], 900, vec![1, 2, 3]);
    assert_eq!(tx.sign_inputs(&sk, &lookup), Err("Previous output not found".to_string()));
    assert_eq!(tx.inputs[0].script_sig, Vec::<u8>::new());
    assert!(!tx.verify_inputs(&lookup));
}

#[test]
fn empty_signature_is_malformed() {
    let (_, pk) = fixed_key(7);
    let prev = vec![9u8; 32];
    let lookup = locked_output(prev.clone(), double_sha256(&pk));
    let mut tx = one_input_tx(&prev, 900, vec![1, 2, 3]);
    tx.inputs[0].script_sig = build_script_sig(&[], &pk);
    assert!(matches!(tx.check_inputs(&lookup), InputsCheck::Malformed));
    assert_eq!(tx.try_verify_inputs(&lookup), None);
}

#[test]
fn script_sig_round_trip_and_errors() {
    let s = build_script_sig(&[1, 2, 3], &[4, 5]);
    assert_eq!(s, vec![3, 1, 2, 3, 2, 4, 5]);
    assert_eq!(parse_script_sig(&s), Ok((vec![1, 2, 3], vec![4, 5])));
    assert_eq!(
        parse_script_sig(&[]),
        Err("scriptSig too short to contain signature length".to_string())
    );
    assert_eq!(
        parse_script_sig(&[3, 1, 2]),
        Err("scriptSig too short to contain full signature".to_string())
    );
    assert_eq!(
        parse_script_sig(&[2, 1, 2]),
        Err("scriptSig too short to contain public key length".to_string())
    );
    assert_eq!(
        parse_script_sig(&[1, 1, 3, 4]),
        Err("scriptSig too short to contain full public key".to_string())
    );
    assert_eq!(parse_script_sig(&[1, 7, 1, 8, 99]), Ok((vec![7], vec![8])));
}

#[test]
fn signature_hash_appends_the_sighash_type() {
    let tx = one_input_tx(&[9u8; 32], 900, vec![1, 2, 3]);
    let h1 = tx.signature_hash(0, &[5, 5], 1).unwrap();
    let h2 = tx.signature_hash(0, &[5, 5], 2).unwrap();
    let h3 = tx.signature_hash(0, &[5, 6], 1).unwrap();
    assert_eq!(h1.len(), 32);
    assert_ne!(h1, h2);
    assert_ne!(h1, h3);
    assert_eq!(h1, tx.signature_hash(0, &[5, 5], 1).unwrap());
}

#[test]
fn txid_is_hash_of_transaction_without_txid() {
    let tx = one_input_tx(&[9u8; 32], 900, vec![1, 2, 3]);
    let mut blank = tx.clone();
    blank.txid = vec![];
    assert_eq!(tx.txid, blank.hash());
    assert_eq!(tx.txid, double_sha256(&blank.serialize()));
    assert_ne!(tx.hash(), tx.txid);
}
