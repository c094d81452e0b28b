use rusty_coin::utils::ecdsa::{SigningKey, VerifyingKey};
use rusty_coin::utils::keys::{key_pair_text, parse_key_pair, KeyFileError};
use secp256k1::{PublicKey, Secp256k1, SecretKey};

fn sample_pair(seed: u8) -> (SecretKey, PublicKey, SigningKey, VerifyingKey) {
    let sk = SecretKey::from_slice(&[seed; 32]).unwrap();
    let pk = PublicKey::from_secret_key(&Secp256k1::new(), &sk);
    let signing = SigningKey::from_bytes(&sk.secret_bytes()).unwrap();
    let verifying = VerifyingKey::from_bytes(&pk.serialize()).unwrap();
    (sk, pk, signing, verifying)
}

#[test]
fn key_pair_text_is_two_hex_lines() {
    let (sk, pk, signing, verifying) = sample_pair(0xab);
    let text = key_pair_text(&signing, &verifying);
    let expected = format!("{}\n{}", hex::encode(sk.secret_bytes()), hex::encode(pk.serialize()));
    assert_eq!(text, expected.into_bytes());
    assert_eq!(text.len(), 64 + 1 + 66);
}

#[test]
fn key_pair_text_reads_back() {
    let (sk, pk, signing, verifying) = sample_pair(0x11);
    let (sk2, pk2) = parse_key_pair(&key_pair_text(&signing, &verifying)).unwrap();
    assert_eq!(sk2.bytes(), sk.secret_bytes().to_vec());
    assert_eq!(pk2.bytes(), pk.serialize().to_vec());
}

#[test]
fn derived_public_key_matches_secp256k1() {
    let (_, pk, signing, _) = sample_pair(0x44);
    assert_eq!(signing.verifying_key().bytes(), pk.serialize().to_vec());
    assert!(SigningKey::from_bytes(&[0u8; 32]).is_none());
    assert!(SigningKey::from_bytes(&[1u8; 31]).is_none());
    assert!(VerifyingKey::from_bytes(&[]).is_none());
}

#[test]
fn key_pair_lines_accept_crlf_and_upper_case() {
    let (sk, pk, _, _) = sample_pair(0x22);
    let text = format!(
        "{}\r\n{}\r\nignored",
        hex::encode_upper(sk.secret_bytes()),
        hex::encode(pk.serialize())
    );
    let (sk2, pk2) = parse_key_pair(text.as_bytes()).unwrap();
    assert_eq!(sk2.bytes(), sk.secret_bytes().to_vec());
    assert_eq!(pk2.bytes(), pk.serialize().to_vec());
}

#[test]
fn key_pair_keeps_the_file_public_key() {
    let (sk, _, _, _) = sample_pair(0x55);
    let (_, other_pk, _, _) = sample_pair(0x66);
    let text = format!("{}\n{}", hex::encode(sk.secret_bytes()), hex::encode(other_pk.serialize()));
    let (_, pk2) = parse_key_pair(text.as_bytes()).unwrap();
    assert_eq!(pk2.bytes(), other_pk.serialize().to_vec());
}

#[test]
fn key_pair_errors() {
    let (sk, pk, _, _) = sample_pair(0x33);
    let sk_hex = hex::encode(sk.secret_bytes());
    let pk_hex = hex::encode(pk.serialize());
    assert_eq!(parse_key_pair(b"").err(), Some(KeyFileError::MissingSecretKey));
    assert_eq!(parse_key_pair(sk_hex.as_bytes()).err(), Some(KeyFileError::MissingPublicKey));
    assert_eq!(
        parse_key_pair(format!("{}\n", sk_hex).as_bytes()).err(),
        Some(KeyFileError::MissingPublicKey)
    );
    assert_eq!(
        parse_key_pair(format!("{}x\n{}", sk_hex, pk_hex).as_bytes()).err(),
        Some(KeyFileError::InvalidSecretKeyHex)
    );
    assert_eq!(
        parse_key_pair(format!("{}\n{}0", sk_hex, pk_hex).as_bytes()).err(),
        Some(KeyFileError::InvalidPublicKeyHex)
    );
    assert_eq!(
        parse_key_pair(format!("{}\n{}", "00".repeat(32), pk_hex).as_bytes()).err(),
        Some(KeyFileError::InvalidSecretKeyBytes)
    );
    assert_eq!(
        parse_key_pair(format!("{}\n{}", sk_hex, "00".repeat(33)).as_bytes()).err(),
        Some(KeyFileError::InvalidPublicKeyBytes)
    );
    assert_eq!(KeyFileError::InvalidPublicKeyBytes.message(), "Invalid public key bytes");
    assert_eq!(KeyFileError::MissingSecretKey.message(), "Missing secret key");
}
