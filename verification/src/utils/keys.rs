//! Key-pair files: the hex of the secret key on the first line, the hex of
//! the compressed public key on the second.

use vstd::prelude::*;
use vstd::string::StringExecFns;

use crate::utils::bytes::copy_range;
use crate::utils::ecdsa::{public_key_valid, secret_key_valid, SigningKey, VerifyingKey};

verus! {

/// The lower-case hex digit of a value below 16.
pub open spec fn hex_char(v: u8) -> u8 {
    if v < 10 {
        (48 + v) as u8
    } else {
        (87 + v) as u8
    }
}

/// Two lower-case hex digits per byte, most significant first.
pub open spec fn hex_lower(s: Seq<u8>) -> Seq<u8>
    decreases s.len(),
{
    if s.len() == 0 {
        Seq::empty()
    } else {
        hex_lower(s.drop_last()) + seq![hex_char(s.last() / 16), hex_char(s.last() % 16)]
    }
}

/// The value of a hex digit of either case.
pub open spec fn hex_digit(c: u8) -> Option<u8> {
    if 48 <= c <= 57 {
        Some((c - 48) as u8)
    } else if 97 <= c <= 102 {
        Some((c - 87) as u8)
    } else if 65 <= c <= 70 {
        Some((c - 55) as u8)
    } else {
        None
    }
}

/// The bytes that a hex string stands for: none when its length is odd or
/// when one of its characters is not a hex digit.
pub open spec fn hex_decoded(s: Seq<u8>) -> Option<Seq<u8>>
    decreases s.len(),
{
    if s.len() % 2 != 0 {
        None
    } else if s.len() == 0 {
        Some(Seq::empty())
    } else {
        match (hex_decoded(s.subrange(0, s.len() - 2)), hex_digit(s[s.len() - 2]), hex_digit(s[s.len() - 1])) {
            (Some(p), Some(h), Some(l)) => Some(p.push((h * 16 + l) as u8)),
            _ => None,
        }
    }
}

/// Calls `hex::encode` and takes the bytes of the string. Trusted: two
/// lower-case hex digits per byte, most significant first.
#[verifier::external_body]
fn hex_encode(data: &[u8]) -> (res: Vec<u8>)
    ensures
        res@ == hex_lower(data@),
{
    hex::encode(data).into_bytes()
}

/// Calls `hex::decode`. Trusted: the bytes the string stands for, or `None`
/// where it refuses the string (odd length, or a character that is not a
/// hex digit of either case).
#[verifier::external_body]
fn hex_decode(data: &[u8]) -> (res: Option<Vec<u8>>)
    ensures
        match hex_decoded(data@) {
            Some(b) => res matches Some(v) && v@ == b,
            None => res is None,
        },
{
    hex::decode(data).ok()
}

/// The position of the first newline in `s`, or its length when there is
/// none.
pub open spec fn newline_at(s: Seq<u8>) -> int
    decreases s.len(),
{
    if s.len() == 0 {
        0
    } else if s[0] == 10 {
        0
    } else {
        1 + newline_at(s.drop_first())
    }
}

/// The first line of a text and what follows its line ending, as
/// `str::lines` reads them: the line ends at the first `\n`, and a `\r`
/// just before that `\n` is not part of it; an empty text has no line.
pub open spec fn first_line(s: Seq<u8>) -> Option<(Seq<u8>, Seq<u8>)> {
    if s.len() == 0 {
        None
    } else {
        let p = newline_at(s);
        if p >= s.len() {
            Some((s, Seq::empty()))
        } else {
            let piece = s.subrange(0, p);
            let line = if p > 0 && piece.last() == 13 {
                piece.drop_last()
            } else {
                piece
            };
            Some((line, s.subrange(p + 1, s.len() as int)))
        }
    }
}

/// Why a key-pair file could not be read.
#[derive(Debug, PartialEq, Eq, Structural)]
pub enum KeyFileError {
    MissingSecretKey,
    MissingPublicKey,
    InvalidSecretKeyHex,
    InvalidPublicKeyHex,
    InvalidSecretKeyBytes,
    InvalidPublicKeyBytes,
}

impl KeyFileError {
    pub open spec fn spec_message(self) -> Seq<char> {
        match self {
            KeyFileError::MissingSecretKey => "Missing secret key"@,
            KeyFileError::MissingPublicKey => "Missing public key"@,
            KeyFileError::InvalidSecretKeyHex => "Invalid secret key hex"@,
            KeyFileError::InvalidPublicKeyHex => "Invalid public key hex"@,
            KeyFileError::InvalidSecretKeyBytes => "Invalid secret key bytes"@,
            KeyFileError::InvalidPublicKeyBytes => "Invalid public key bytes"@,
        }
    }

    /// The error message.
    pub fn message(&self) -> (res: String)
        ensures
            res@ == self.spec_message(),
    {
        match self {
            KeyFileError::MissingSecretKey => String::from_str("Missing secret key"),
            KeyFileError::MissingPublicKey => String::from_str("Missing public key"),
            KeyFileError::InvalidSecretKeyHex => String::from_str("Invalid secret key hex"),
            KeyFileError::InvalidPublicKeyHex => String::from_str("Invalid public key hex"),
            KeyFileError::InvalidSecretKeyBytes => String::from_str("Invalid secret key bytes"),
            KeyFileError::InvalidPublicKeyBytes => String::from_str("Invalid public key bytes"),
        }
    }
}

/// What reading a key-pair file gives: the secret key's bytes and the
/// public key's bytes, or the first check that fails.
pub open spec fn key_pair_check(content: Seq<u8>) -> Result<(Seq<u8>, Seq<u8>), KeyFileError> {
    match first_line(content) {
        None => Err(KeyFileError::MissingSecretKey),
        Some((sk_hex, rest)) => match first_line(rest) {
            None => Err(KeyFileError::MissingPublicKey),
            Some((pk_hex, _)) => match hex_decoded(sk_hex) {
                None => Err(KeyFileError::InvalidSecretKeyHex),
                Some(sk) => match hex_decoded(pk_hex) {
                    None => Err(KeyFileError::InvalidPublicKeyHex),
                    Some(pk) => if !secret_key_valid(sk) {
                        Err(KeyFileError::InvalidSecretKeyBytes)
                    } else if !public_key_valid(pk) {
                        Err(KeyFileError::InvalidPublicKeyBytes)
                    } else {
                        Ok((sk, pk))
                    },
                },
            },
        },
    }
}

/// The text of a key-pair file for these key bytes.
pub open spec fn key_pair_text_of(sk: Seq<u8>, pk: Seq<u8>) -> Seq<u8> {
    hex_lower(sk) + seq![10u8] + hex_lower(pk)
}

/// Splits off the first line of a text (see `first_line`).
fn split_first_line(s: &[u8]) -> (res: Option<(Vec<u8>, Vec<u8>)>)
    ensures
        match first_line(s@) {
            None => res is None,
            Some((line, rest)) => res matches Some((l, r)) && l@ == line && r@ == rest,
        },
{
    let n = s.len();
    if n == 0 {
        return None;
    }
    let mut i: usize = 0;
    assert(s@.subrange(0, n as int) =~= s@);
    while i < n && s[i] != 10u8
        invariant
            n == s@.len(),
            i <= n,
            newline_at(s@) == i + newline_at(s@.subrange(i as int, n as int)),
        decreases n - i,
    {
        assert(s@.subrange(i as int, n as int).drop_first() =~= s@.subrange(i + 1, n as int));
        i = i + 1;
    }
    if i == n {
        assert(s@.subrange(i as int, n as int).len() == 0);
        return Some((copy_range(s, 0, n), Vec::new()));
    }
    assert(newline_at(s@.subrange(i as int, n as int)) == 0);
    let end = if i > 0 && s[i - 1] == 13u8 {
        i - 1
    } else {
        i
    };
    let line = copy_range(s, 0, end);
    let rest = copy_range(s, i + 1, n);
    assert(line@ =~= first_line(s@)->Some_0.0);
    Some((line, rest))
}

/// The text of the key-pair file for `secret_key` and `public_key`: the
/// hex of the secret key's bytes, a newline, and the hex of the public
/// key's bytes.
pub fn key_pair_text(secret_key: &SigningKey, public_key: &VerifyingKey) -> (res: Vec<u8>)
    ensures
        res@ == key_pair_text_of(secret_key@, public_key@),
        key_pair_check(res@) == Ok::<(Seq<u8>, Seq<u8>), KeyFileError>((secret_key@, public_key@)),
{
    let sk = secret_key.bytes();
    let pk = public_key.bytes();
    let mut text = hex_encode(sk.as_slice());
    text.push(10u8);
    let pk_hex = hex_encode(pk.as_slice());
    text.extend_from_slice(pk_hex.as_slice());
    assert(text@ =~= key_pair_text_of(sk@, pk@));
    proof {
        lemma_key_pair_text_parses(sk@, pk@);
    }
    text
}

/// Reads a key pair from the text of a key-pair file.
pub fn parse_key_pair(content: &[u8]) -> (res: Result<(SigningKey, VerifyingKey), KeyFileError>)
    ensures
        match key_pair_check(content@) {
            Ok((sk, pk)) => res matches Ok((k, p)) && k@ == sk && p@ == pk,
            Err(e) => res matches Err(r) && r == e,
        },
{
    let (sk_hex, rest) = match split_first_line(content) {
        Some(p) => p,
        None => {
            return Err(KeyFileError::MissingSecretKey);
        },
    };
    let (pk_hex, _) = match split_first_line(rest.as_slice()) {
        Some(p) => p,
        None => {
            return Err(KeyFileError::MissingPublicKey);
        },
    };
    let sk_bytes = match hex_decode(sk_hex.as_slice()) {
        Some(b) => b,
        None => {
            return Err(KeyFileError::InvalidSecretKeyHex);
        },
    };
    let pk_bytes = match hex_decode(pk_hex.as_slice()) {
        Some(b) => b,
        None => {
            return Err(KeyFileError::InvalidPublicKeyHex);
        },
    };
    let secret_key = match SigningKey::from_bytes(sk_bytes.as_slice()) {
        Some(k) => k,
        None => {
            return Err(KeyFileError::InvalidSecretKeyBytes);
        },
    };
    let public_key = match VerifyingKey::from_bytes(pk_bytes.as_slice()) {
        Some(k) => k,
        None => {
            return Err(KeyFileError::InvalidPublicKeyBytes);
        },
    };
    Ok((secret_key, public_key))
}

proof fn lemma_hex_lower_digits(s: Seq<u8>)
    ensures
        hex_lower(s).len() == 2 * s.len(),
        forall|i: int| 0 <= i < hex_lower(s).len() ==> {
            &&& #[trigger] hex_lower(s)[i] != 10
            &&& hex_lower(s)[i] != 13
        },
    decreases s.len(),
{
    if s.len() > 0 {
        lemma_hex_lower_digits(s.drop_last());
    }
}

proof fn lemma_hex_decoded_lower(s: Seq<u8>)
    ensures
        hex_decoded(hex_lower(s)) == Some(s),
    decreases s.len(),
{
    if s.len() > 0 {
        let t = s.drop_last();
        let h = hex_lower(s);
        lemma_hex_decoded_lower(t);
        lemma_hex_lower_digits(t);
        let b = s.last();
        assert(h.subrange(0, h.len() - 2) =~= hex_lower(t));
        assert(hex_digit(h[h.len() - 2]) == Some(b / 16));
        assert(hex_digit(h[h.len() - 1]) == Some(b % 16));
        assert(((b / 16) * 16 + b % 16) as u8 == b);
        assert(t.push(b) =~= s);
    } else {
        assert(hex_lower(s) =~= Seq::<u8>::empty());
    }
}

proof fn lemma_no_newline(s: Seq<u8>)
    requires
        forall|i: int| 0 <= i < s.len() ==> s[i] != 10,
    ensures
        newline_at(s) == s.len(),
    decreases s.len(),
{
    if s.len() > 0 {
        lemma_no_newline(s.drop_first());
    }
}

proof fn lemma_newline_after(a: Seq<u8>, b: Seq<u8>)
    requires
        forall|i: int| 0 <= i < a.len() ==> a[i] != 10,
    ensures
        newline_at(a + seq![10u8] + b) == a.len(),
    decreases a.len(),
{
    if a.len() > 0 {
        assert((a + seq![10u8] + b).drop_first() =~= a.drop_first() + seq![10u8] + b);
        lemma_newline_after(a.drop_first(), b);
    }
}

/// Law: the text written for a key pair reads back as the same key bytes.
pub proof fn lemma_key_pair_text_parses(sk: Seq<u8>, pk: Seq<u8>)
    requires
        secret_key_valid(sk),
        public_key_valid(pk),
        pk.len() > 0,
    ensures
        key_pair_check(key_pair_text_of(sk, pk)) == Ok::<(Seq<u8>, Seq<u8>), KeyFileError>((sk, pk)),
{
    let a = hex_lower(sk);
    let b = hex_lower(pk);
    let text = key_pair_text_of(sk, pk);
    lemma_hex_lower_digits(sk);
    lemma_hex_lower_digits(pk);
    lemma_newline_after(a, b);
    lemma_no_newline(b);
    lemma_hex_decoded_lower(sk);
    lemma_hex_decoded_lower(pk);
    assert(text.subrange(0, a.len() as int) =~= a);
    assert(text.subrange(a.len() as int + 1, text.len() as int) =~= b);
    if a.len() > 0 {
        assert(text.subrange(0, a.len() as int).last() == a[a.len() - 1]);
    }
    assert(first_line(text) == Some((a, b)));
    assert(first_line(b) == Some((b, Seq::<u8>::empty())));
}

} // verus!
