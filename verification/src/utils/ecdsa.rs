//! ECDSA over secp256k1, through the `secp256k1` crate.
//!
//! Keys, public keys and signatures cross this module as bytes: a secret key
//! as its 32 bytes, a public key in its 33-byte compressed form, and a
//! signature in DER form. `SigningKey` and `VerifyingKey` hold the bytes
//! of a secret key and of a public key that the crate accepts.

use secp256k1::{ecdsa::Signature, Message, PublicKey, Secp256k1, SecretKey};
use vstd::prelude::*;

verus! {

#[verifier::external_type_specification]
#[verifier::external_body]
pub struct ExSecretKey(secp256k1::SecretKey);

#[verifier::external_type_specification]
#[verifier::external_body]
pub struct ExPublicKey(secp256k1::PublicKey);

/// Whether `SecretKey::from_slice` accepts these bytes as a secret key.
pub uninterp spec fn secret_key_valid(key: Seq<u8>) -> bool;

/// The compressed serialization of the public key of a secret key
/// (`PublicKey::from_secret_key`, then `serialize`).
pub uninterp spec fn public_key_of(key: Seq<u8>) -> Seq<u8>;

/// Whether `PublicKey::from_slice` accepts these bytes as a public key.
pub uninterp spec fn public_key_valid(bytes: Seq<u8>) -> bool;

/// The DER form of the signature that `Secp256k1::sign_ecdsa` (RFC 6979,
/// deterministic) makes of a 32-byte digest with a secret key.
pub uninterp spec fn ecdsa_signature_der(key: Seq<u8>, digest: Seq<u8>) -> Seq<u8>;

/// Whether `Signature::from_der` accepts `sig_der` and `Secp256k1::verify_ecdsa`
/// accepts that signature of the digest under the public key.
pub uninterp spec fn ecdsa_verifies(digest: Seq<u8>, sig_der: Seq<u8>, pubkey: Seq<u8>) -> bool;

/// Calls `PublicKey::from_secret_key` and `serialize` on the key that `key`
/// holds. Trusted: the result is `public_key_of(key)`, 33 bytes long (the
/// compressed form), and `PublicKey::from_slice` accepts it.
#[verifier::external_body]
pub(crate) fn derive_public_key(key: &[u8]) -> (res: Vec<u8>)
    requires
        secret_key_valid(key@),
    ensures
        res@ == public_key_of(key@),
        res@.len() == 33,
        public_key_valid(res@),
{
    let secp = Secp256k1::new();
    let sk = SecretKey::from_slice(key).unwrap();
    PublicKey::from_secret_key(&secp, &sk).serialize().to_vec()
}

/// Calls `Secp256k1::sign_ecdsa` on a 32-byte digest and returns the DER
/// form (`serialize_der`). Trusted: the result is
/// `ecdsa_signature_der(key, digest)`, at most 72 bytes long (the capacity
/// of `SerializedSignature`), and it verifies under the key's public key.
#[verifier::external_body]
pub(crate) fn ecdsa_sign(key: &[u8], digest: &[u8]) -> (res: Vec<u8>)
    requires
        secret_key_valid(key@),
        digest@.len() == 32,
    ensures
        res@ == ecdsa_signature_der(key@, digest@),
        res@.len() <= 72,
        ecdsa_verifies(digest@, res@, public_key_of(key@)),
{
    let secp = Secp256k1::new();
    let sk = SecretKey::from_slice(key).unwrap();
    let msg = Message::from_digest_slice(digest).unwrap();
    secp.sign_ecdsa(&msg, &sk).serialize_der().to_vec()
}

/// Calls `SecretKey::from_slice`. Trusted: a key comes back exactly when
/// the bytes are accepted (`secret_key_valid`), which needs 32 of them.
#[verifier::external_body]
pub(crate) fn secret_key_from_bytes(bytes: &[u8]) -> (res: Option<SecretKey>)
    ensures
        res is Some <==> secret_key_valid(bytes@),
        res is Some ==> bytes@.len() == 32,
{
    SecretKey::from_slice(bytes).ok()
}

/// Calls `PublicKey::from_slice`. Trusted: a key comes back exactly when
/// the bytes are accepted (`public_key_valid`), which an empty slice never
/// is.
#[verifier::external_body]
pub(crate) fn public_key_from_bytes(bytes: &[u8]) -> (res: Option<PublicKey>)
    ensures
        res is Some <==> public_key_valid(bytes@),
        res is Some ==> bytes@.len() > 0,
{
    PublicKey::from_slice(bytes).ok()
}

/// Calls `Signature::from_der` and `Secp256k1::verify_ecdsa`. Trusted: the
/// result is `ecdsa_verifies(digest, sig_der, pubkey)`.
#[verifier::external_body]
pub(crate) fn ecdsa_verify(digest: &[u8], sig_der: &[u8], pubkey: &[u8]) -> (res: bool)
    requires
        digest@.len() == 32,
        public_key_valid(pubkey@),
    ensures
        res == ecdsa_verifies(digest@, sig_der@, pubkey@),
{
    let secp = Secp256k1::new();
    let pk = PublicKey::from_slice(pubkey).unwrap();
    let msg = Message::from_digest_slice(digest).unwrap();
    match Signature::from_der(sig_der) {
        Ok(sig) => secp.verify_ecdsa(&msg, &sig, &pk).is_ok(),
        Err(_) => false,
    }
}

/// The bytes of a secret key that `SecretKey::from_slice` accepts.
pub struct SigningKey {
    bytes: Vec<u8>,
}

impl View for SigningKey {
    type V = Seq<u8>;

    closed spec fn view(&self) -> Seq<u8> {
        self.bytes@
    }
}

impl SigningKey {
    #[verifier::type_invariant]
    closed spec fn inv(self) -> bool {
        secret_key_valid(self.bytes@) && self.bytes@.len() == 32
    }

    /// The key these bytes stand for, or `None` where they are not a
    /// secret key.
    pub fn from_bytes(bytes: &[u8]) -> (res: Option<SigningKey>)
        ensures
            res is Some <==> secret_key_valid(bytes@),
            res matches Some(k) ==> k@ == bytes@,
    {
        let parsed = secret_key_from_bytes(bytes);
        if parsed.is_some() {
            let mut v: Vec<u8> = Vec::new();
            v.extend_from_slice(bytes);
            assert(v@ =~= bytes@);
            Some(SigningKey { bytes: v })
        } else {
            None
        }
    }

    /// The bytes of the key.
    pub fn bytes(&self) -> (res: Vec<u8>)
        ensures
            res@ == self@,
            secret_key_valid(res@),
            res@.len() == 32,
    {
        proof {
            use_type_invariant(self);
        }
        self.bytes.clone()
    }

    /// The compressed public key of this key.
    pub fn verifying_key(&self) -> (res: VerifyingKey)
        ensures
            res@ == public_key_of(self@),
    {
        proof {
            use_type_invariant(self);
        }
        VerifyingKey { bytes: derive_public_key(self.bytes.as_slice()) }
    }
}

/// The bytes of a public key that `PublicKey::from_slice` accepts.
pub struct VerifyingKey {
    bytes: Vec<u8>,
}

impl View for VerifyingKey {
    type V = Seq<u8>;

    closed spec fn view(&self) -> Seq<u8> {
        self.bytes@
    }
}

impl VerifyingKey {
    #[verifier::type_invariant]
    closed spec fn inv(self) -> bool {
        public_key_valid(self.bytes@) && self.bytes@.len() > 0
    }

    /// The public key these bytes stand for, or `None` where they are not
    /// one.
    pub fn from_bytes(bytes: &[u8]) -> (res: Option<VerifyingKey>)
        ensures
            res is Some <==> public_key_valid(bytes@),
            res matches Some(k) ==> k@ == bytes@,
    {
        let parsed = public_key_from_bytes(bytes);
        if parsed.is_some() {
            let mut v: Vec<u8> = Vec::new();
            v.extend_from_slice(bytes);
            assert(v@ =~= bytes@);
            Some(VerifyingKey { bytes: v })
        } else {
            None
        }
    }

    /// The bytes of the public key.
    pub fn bytes(&self) -> (res: Vec<u8>)
        ensures
            res@ == self@,
            public_key_valid(res@),
            res@.len() > 0,
    {
        proof {
            use_type_invariant(self);
        }
        self.bytes.clone()
    }
}

} // verus!
