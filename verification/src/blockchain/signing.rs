//! Signing and verifying the inputs of a transaction.

use vstd::prelude::*;
use vstd::string::StringExecFns;

use crate::blockchain::transaction::{
    lemma_parse_build_script_sig, parse_script_sig, signing_digest, signing_form, spec_build_script_sig, build_script_sig,
    spec_parse_script_sig, OutputModel, Transaction, TransactionOutput, TxModel,
};
use crate::utils::bytes::bytes_eq;
use crate::utils::ecdsa::{
    derive_public_key, ecdsa_sign, ecdsa_signature_der, ecdsa_verifies, ecdsa_verify,
    public_key_from_bytes, public_key_of, public_key_valid, secret_key_valid, SigningKey,
};
use crate::utils::hashing::{double_sha256, spec_double_sha256};

verus! {

pub open spec fn output_opt_model(r: Option<TransactionOutput>) -> Option<OutputModel> {
    match r {
        Some(o) => Some(o@),
        None => None,
    }
}

/// `f` may be called on any outpoint.
pub open spec fn lookup_callable<F: Fn(&[u8], u32) -> Option<TransactionOutput>>(f: F) -> bool {
    forall|s: &[u8], i: u32| #[trigger] call_requires(f, (s, i))
}

/// `prevs` lists, for each input of `t`, what `f` returns for that input's
/// outpoint (whenever `f` returns).
pub open spec fn lookup_agrees<F: Fn(&[u8], u32) -> Option<TransactionOutput>>(f: F, t: TxModel, prevs: Seq<Option<OutputModel>>) -> bool {
    &&& prevs.len() == t.inputs.len()
    &&& forall|j: int, s: &[u8], r: Option<TransactionOutput>|
        0 <= j < t.inputs.len() && s@ == t.inputs[j].previous_output_hash && #[trigger] call_ensures(
            f,
            (s, t.inputs[j].previous_output_index),
            r,
        ) ==> output_opt_model(r) == prevs[j]
}

/// The outcome of checking the signatures of a transaction's inputs.
pub enum InputsCheck {
    /// Every input is validly signed.
    Valid,
    /// Some input is not.
    Invalid,
    /// An input carries an empty signature where its signature is read
    /// (`verify_inputs` is not defined on such a transaction).
    Malformed,
}

/// The check of input `i`, whose previous output is `prev`.
pub open spec fn check_input(t: TxModel, i: int, prev: Option<OutputModel>) -> InputsCheck {
    match prev {
        None => InputsCheck::Invalid,
        Some(p) => match spec_parse_script_sig(t.inputs[i].script_sig) {
            Err(_) => InputsCheck::Invalid,
            Ok((sig, pk)) => if !public_key_valid(pk) {
                InputsCheck::Invalid
            } else if spec_double_sha256(pk) != p.script_pub_key {
                InputsCheck::Invalid
            } else if sig.len() == 0 {
                InputsCheck::Malformed
            } else if ecdsa_verifies(signing_digest(t, i, p.script_pub_key), sig.drop_last(), pk) {
                InputsCheck::Valid
            } else {
                InputsCheck::Invalid
            },
        },
    }
}

/// The check of the first `k` inputs, in order, stopping at the first that
/// is not valid.
pub open spec fn inputs_check(t: TxModel, prevs: Seq<Option<OutputModel>>, k: nat) -> InputsCheck
    decreases k,
{
    if k == 0 {
        InputsCheck::Valid
    } else {
        match inputs_check(t, prevs, (k - 1) as nat) {
            InputsCheck::Valid => check_input(t, k - 1, prevs[k - 1]),
            other => other,
        }
    }
}

/// Every previous output up to and including input `j` was found.
pub open spec fn found_through(prevs: Seq<Option<OutputModel>>, j: int) -> bool {
    forall|l: int| 0 <= l <= j ==> (#[trigger] prevs[l]) is Some
}

/// The script signature that signing input `i` with `key` produces.
pub open spec fn signed_script_sig(t: TxModel, i: int, key: Seq<u8>, script: Seq<u8>) -> Seq<u8> {
    spec_build_script_sig(
        ecdsa_signature_der(key, signing_digest(t, i, script)).push(1u8),
        public_key_of(key),
    )
}

/// What the secp256k1 calls made while signing a digest with `key` showed.
pub open spec fn signature_facts(key: Seq<u8>, digest: Seq<u8>) -> bool {
    &&& ecdsa_signature_der(key, digest).len() <= 72
    &&& ecdsa_verifies(digest, ecdsa_signature_der(key, digest), public_key_of(key))
    &&& public_key_valid(public_key_of(key))
    &&& public_key_of(key).len() == 33
}

/// `t1` is `t0` with the first inputs signed with `key`: every input up to
/// the first whose previous output is missing.
pub open spec fn signed_with(t0: TxModel, t1: TxModel, key: Seq<u8>, prevs: Seq<Option<OutputModel>>) -> bool {
    &&& t1.inputs.len() == t0.inputs.len()
    &&& prevs.len() == t0.inputs.len()
    &&& t1.outputs == t0.outputs
    &&& t1.txid == t0.txid
    &&& forall|j: int|
        0 <= j < t0.inputs.len() ==> {
            &&& (#[trigger] t1.inputs[j]).previous_output_hash == t0.inputs[j].previous_output_hash
            &&& t1.inputs[j].previous_output_index == t0.inputs[j].previous_output_index
            &&& t1.inputs[j].script_sig == if found_through(prevs, j) {
                signed_script_sig(t0, j, key, prevs[j]->Some_0.script_pub_key)
            } else {
                t0.inputs[j].script_sig
            }
            &&& found_through(prevs, j) ==> signature_facts(
                key,
                signing_digest(t0, j, prevs[j]->Some_0.script_pub_key),
            )
        }
}

/// Transactions that differ only in their script signatures have the same
/// signing forms.
pub proof fn lemma_signing_form_ignores_sigs(t0: TxModel, t1: TxModel, i: int, script: Seq<u8>)
    requires
        t1.inputs.len() == t0.inputs.len(),
        t1.outputs == t0.outputs,
        t1.txid == t0.txid,
        forall|j: int|
            0 <= j < t0.inputs.len() ==> (#[trigger] t1.inputs[j]).previous_output_hash
                == t0.inputs[j].previous_output_hash && t1.inputs[j].previous_output_index
                == t0.inputs[j].previous_output_index,
    ensures
        signing_form(t1, i, script) == signing_form(t0, i, script),
        signing_digest(t1, i, script) == signing_digest(t0, i, script),
{
    assert(signing_form(t1, i, script).inputs =~= signing_form(t0, i, script).inputs);
}

/// A call of `f` on the outpoint of input `j` returns what `prevs` lists.
proof fn lemma_agree_at<F: Fn(&[u8], u32) -> Option<TransactionOutput>>(
    f: F,
    t: TxModel,
    prevs: Seq<Option<OutputModel>>,
    j: int,
    s: &[u8],
    r: Option<TransactionOutput>,
)
    requires
        lookup_agrees(f, t, prevs),
        0 <= j < t.inputs.len(),
        s@ == t.inputs[j].previous_output_hash,
        call_ensures(f, (s, t.inputs[j].previous_output_index), r),
    ensures
        output_opt_model(r) == prevs[j],
{
}

/// Transactions with the same outpoints agree with the same lookups.
pub proof fn lemma_agrees_same_outpoints<F: Fn(&[u8], u32) -> Option<TransactionOutput>>(
    f: F,
    t0: TxModel,
    t1: TxModel,
    prevs: Seq<Option<OutputModel>>,
)
    requires
        t1.inputs.len() == t0.inputs.len(),
        forall|j: int|
            0 <= j < t0.inputs.len() ==> (#[trigger] t1.inputs[j]).previous_output_hash
                == t0.inputs[j].previous_output_hash && t1.inputs[j].previous_output_index
                == t0.inputs[j].previous_output_index,
    ensures
        lookup_agrees(f, t0, prevs) <==> lookup_agrees(f, t1, prevs),
{
    if lookup_agrees(f, t0, prevs) {
        assert forall|j: int, s: &[u8], r: Option<TransactionOutput>|
            0 <= j < t1.inputs.len() && s@ == t1.inputs[j].previous_output_hash && #[trigger] call_ensures(
                f,
                (s, t1.inputs[j].previous_output_index),
                r,
            ) implies output_opt_model(r) == prevs[j] by {
            assert(t1.inputs[j].previous_output_index == t0.inputs[j].previous_output_index);
            lemma_agree_at(f, t0, prevs, j, s, r);
        }
    }
    if lookup_agrees(f, t1, prevs) {
        assert forall|j: int, s: &[u8], r: Option<TransactionOutput>|
            0 <= j < t0.inputs.len() && s@ == t0.inputs[j].previous_output_hash && #[trigger] call_ensures(
                f,
                (s, t0.inputs[j].previous_output_index),
                r,
            ) implies output_opt_model(r) == prevs[j] by {
            assert(t1.inputs[j].previous_output_index == t0.inputs[j].previous_output_index);
            lemma_agree_at(f, t1, prevs, j, s, r);
        }
    }
}

proof fn lemma_inputs_check_step(t: TxModel, prevs: Seq<Option<OutputModel>>, k: nat)
    requires
        inputs_check(t, prevs, k) == InputsCheck::Valid,
    ensures
        inputs_check(t, prevs, k + 1) == check_input(t, k as int, prevs[k as int]),
{
}

proof fn lemma_inputs_check_stops(t: TxModel, prevs: Seq<Option<OutputModel>>, k: nat, n: nat)
    requires
        k <= n,
        inputs_check(t, prevs, k) != InputsCheck::Valid,
    ensures
        inputs_check(t, prevs, n) == inputs_check(t, prevs, k),
    decreases n - k,
{
    if k < n {
        lemma_inputs_check_stops(t, prevs, k, (n - 1) as nat);
    }
}

/// Law: once every input of `t0` is signed with `key` (`sign_inputs`
/// returned `Ok`), and every previous output is locked to the double SHA-256
/// of that key's public key, the signatures verify.
pub proof fn lemma_signed_inputs_verify(t0: TxModel, t1: TxModel, key: Seq<u8>, prevs: Seq<Option<OutputModel>>)
    requires
        signed_with(t0, t1, key, prevs),
        found_through(prevs, t0.inputs.len() - 1),
        forall|j: int|
            0 <= j < prevs.len() ==> (#[trigger] prevs[j])->Some_0.script_pub_key
                == spec_double_sha256(public_key_of(key)),
    ensures
        inputs_check(t1, prevs, t1.inputs.len()) == InputsCheck::Valid,
{
    lemma_signed_inputs_verify_upto(t0, t1, key, prevs, t1.inputs.len());
}

proof fn lemma_signed_inputs_verify_upto(t0: TxModel, t1: TxModel, key: Seq<u8>, prevs: Seq<Option<OutputModel>>, k: nat)
    requires
        signed_with(t0, t1, key, prevs),
        found_through(prevs, t0.inputs.len() - 1),
        forall|j: int|
            0 <= j < prevs.len() ==> (#[trigger] prevs[j])->Some_0.script_pub_key
                == spec_double_sha256(public_key_of(key)),
        k <= t1.inputs.len(),
    ensures
        inputs_check(t1, prevs, k) == InputsCheck::Valid,
    decreases k,
{
    if k > 0 {
        let j = k - 1;
        lemma_signed_inputs_verify_upto(t0, t1, key, prevs, j as nat);
        assert(prevs[j] is Some);
        assert(found_through(prevs, j));
        let spk = prevs[j]->Some_0.script_pub_key;
        let d = signing_digest(t0, j, spk);
        let der = ecdsa_signature_der(key, d);
        let pk = public_key_of(key);
        assert(t1.inputs[j].script_sig == spec_build_script_sig(der.push(1u8), pk));
        assert(signature_facts(key, d));
        lemma_parse_build_script_sig(der.push(1u8), pk);
        assert(der.push(1u8).drop_last() =~= der);
        lemma_signing_form_ignores_sigs(t0, t1, j, spk);
        assert(check_input(t1, j, prevs[j]) == InputsCheck::Valid);
    }
}

/// Copies all but the last byte.
fn drop_last_byte(s: &Vec<u8>) -> (res: Vec<u8>)
    requires
        s@.len() > 0,
    ensures
        res@ == s@.drop_last(),
{
    let n = s.len() - 1;
    let mut out: Vec<u8> = Vec::new();
    let mut i: usize = 0;
    while i < n
        invariant
            n == s@.len() - 1,
            i <= n,
            out@ == s@.take(i as int),
        decreases n - i,
    {
        out.push(s[i]);
        i = i + 1;
        assert(out@ =~= s@.take(i as int));
    }
    assert(s@.drop_last() =~= s@.take(n as int));
    out
}

impl Transaction {
    /// The state of `sign_inputs` after signing the first `i` inputs, when
    /// the lookup of input `i` found nothing (or `i` is the number of
    /// inputs), meets its postcondition.
    proof fn lemma_signed_prefix<F: Fn(&[u8], u32) -> Option<TransactionOutput>>(
        &self,
        t0: TxModel,
        key: Seq<u8>,
        seen: Seq<OutputModel>,
        i: int,
        f: F,
    )
        requires
            0 <= i <= t0.inputs.len(),
            seen.len() == i,
            forall|prevs: Seq<Option<OutputModel>>|
                #[trigger] lookup_agrees(f, t0, prevs) ==> (forall|j: int|
                    0 <= j < i ==> prevs[j] == Some(#[trigger] seen[j])) && (i < t0.inputs.len()
                    ==> prevs[i] is None),
            self@.outputs == t0.outputs,
            self@.txid == t0.txid,
            self@.inputs.len() == t0.inputs.len(),
            forall|j: int|
                0 <= j < t0.inputs.len() ==> {
                    &&& (#[trigger] self@.inputs[j]).previous_output_hash
                        == t0.inputs[j].previous_output_hash
                    &&& self@.inputs[j].previous_output_index == t0.inputs[j].previous_output_index
                    &&& self@.inputs[j].script_sig == if j < i {
                        signed_script_sig(t0, j, key, seen[j].script_pub_key)
                    } else {
                        t0.inputs[j].script_sig
                    }
                    &&& j < i ==> signature_facts(key, signing_digest(t0, j, seen[j].script_pub_key))
                },
        ensures
            forall|prevs: Seq<Option<OutputModel>>|
                #[trigger] lookup_agrees(f, t0, prevs) ==> signed_with(t0, self@, key, prevs) && (
                found_through(prevs, t0.inputs.len() - 1) <==> i == t0.inputs.len()),
            forall|prevs: Seq<Option<OutputModel>>|
                #[trigger] lookup_agrees(f, self@, prevs) <==> lookup_agrees(f, t0, prevs),
    {
        assert forall|prevs: Seq<Option<OutputModel>>| #[trigger] lookup_agrees(f, t0, prevs) implies signed_with(
            t0,
            self@,
            key,
            prevs,
        ) && (found_through(prevs, t0.inputs.len() - 1) <==> i == t0.inputs.len()) by {
            assert forall|j: int| 0 <= j < t0.inputs.len() implies found_through(prevs, j) == (j < i) by {
                if j >= i {
                    assert(prevs[i] is None);
                } else {
                    assert forall|l: int| 0 <= l <= j implies (#[trigger] prevs[l]) is Some by {
                        assert(prevs[l] == Some(seen[l]));
                    }
                }
            }
            assert forall|j: int| 0 <= j < t0.inputs.len() && j < i implies prevs[j]->Some_0
                == #[trigger] seen[j] by {
                assert(prevs[j] == Some(seen[j]));
            }
            if i < t0.inputs.len() {
                assert(prevs[i] is None);
            }
        }
        assert forall|prevs: Seq<Option<OutputModel>>| #[trigger] lookup_agrees(f, self@, prevs) <==> lookup_agrees(
            f,
            t0,
            prevs,
        ) by {
            lemma_agrees_same_outpoints(f, t0, self@, prevs);
        }
    }

    /// Checks input `i` against its previous output.
    fn check_one_input(&self, i: usize, prev: &TransactionOutput) -> (res: InputsCheck)
        requires
            i < self.inputs.len(),
        ensures
            res == check_input(self@, i as int, Some(prev@)),
    {
        let input = &self.inputs[i];
        let (sig_bytes, pubkey_bytes) = match parse_script_sig(input.script_sig.as_slice()) {
            Ok(p) => p,
            Err(_) => {
                return InputsCheck::Invalid;
            },
        };
        if public_key_from_bytes(pubkey_bytes.as_slice()).is_none() {
            return InputsCheck::Invalid;
        }
        let pubkey_hash_computed = double_sha256(pubkey_bytes.as_slice());
        if !bytes_eq(pubkey_hash_computed.as_slice(), prev.script_pub_key.as_slice()) {
            return InputsCheck::Invalid;
        }
        let tx_hash = self.signing_hash(i, prev.script_pub_key.as_slice());
        if sig_bytes.len() == 0 {
            return InputsCheck::Malformed;
        }
        let der = drop_last_byte(&sig_bytes);
        if ecdsa_verify(tx_hash.as_slice(), der.as_slice(), pubkey_bytes.as_slice()) {
            InputsCheck::Valid
        } else {
            InputsCheck::Invalid
        }
    }

    fn check_inputs_with<F: Fn(&[u8], u32) -> Option<TransactionOutput>>(&self, get_previous_output: &F) -> (res: InputsCheck)
        requires
            lookup_callable(*get_previous_output),
        ensures
            forall|prevs: Seq<Option<OutputModel>>|
                #[trigger] lookup_agrees(*get_previous_output, self@, prevs) ==> res == inputs_check(
                    self@,
                    prevs,
                    self@.inputs.len(),
                ),
    {
        let n = self.inputs.len();
        let mut i: usize = 0;
        while i < n
            invariant
                n == self.inputs.len(),
                n == self@.inputs.len(),
                i <= n,
                lookup_callable(*get_previous_output),
                forall|prevs: Seq<Option<OutputModel>>|
                    #[trigger] lookup_agrees(*get_previous_output, self@, prevs) ==> inputs_check(
                        self@,
                        prevs,
                        i as nat,
                    ) == InputsCheck::Valid,
            decreases n - i,
        {
            let input = &self.inputs[i];
            let h = input.previous_output_hash.as_slice();
            let idx = input.previous_output_index;
            let prev_opt = get_previous_output(h, idx);
            let c = match &prev_opt {
                Some(prev) => self.check_one_input(i, prev),
                None => InputsCheck::Invalid,
            };
            proof {
                assert(idx == self@.inputs[i as int].previous_output_index);
                assert forall|prevs: Seq<Option<OutputModel>>| #[trigger] lookup_agrees(
                    *get_previous_output,
                    self@,
                    prevs,
                ) implies inputs_check(self@, prevs, (i + 1) as nat) == c by {
                    lemma_agree_at(*get_previous_output, self@, prevs, i as int, h, prev_opt);
                    lemma_inputs_check_step(self@, prevs, i as nat);
                }
            }
            match c {
                InputsCheck::Valid => {},
                other => {
                    proof {
                        assert forall|prevs: Seq<Option<OutputModel>>| #[trigger] lookup_agrees(
                            *get_previous_output,
                            self@,
                            prevs,
                        ) implies other == inputs_check(self@, prevs, n as nat) by {
                            lemma_inputs_check_stops(self@, prevs, (i + 1) as nat, n as nat);
                        }
                    }
                    return other;
                },
            }
            i = i + 1;
        }
        InputsCheck::Valid
    }

    /// Checks the signatures of the transaction inputs, telling apart the
    /// transactions on which `verify_inputs` is not defined.
    pub fn check_inputs<F: Fn(&[u8], u32) -> Option<TransactionOutput>>(&self, get_previous_output: F) -> (res: InputsCheck)
        requires
            lookup_callable(get_previous_output),
        ensures
            forall|prevs: Seq<Option<OutputModel>>|
                #[trigger] lookup_agrees(get_previous_output, self@, prevs) ==> res == inputs_check(
                    self@,
                    prevs,
                    self@.inputs.len(),
                ),
    {
        self.check_inputs_with(&get_previous_output)
    }

    /// Verifies the signatures of the transaction inputs.
    pub fn verify_inputs<F: Fn(&[u8], u32) -> Option<TransactionOutput>>(&self, get_previous_output: F) -> (res: bool)
        requires
            lookup_callable(get_previous_output),
            forall|prevs: Seq<Option<OutputModel>>|
                #[trigger] lookup_agrees(get_previous_output, self@, prevs) ==> inputs_check(
                    self@,
                    prevs,
                    self@.inputs.len(),
                ) != InputsCheck::Malformed,
        ensures
            forall|prevs: Seq<Option<OutputModel>>|
                #[trigger] lookup_agrees(get_previous_output, self@, prevs) ==> res == (inputs_check(
                    self@,
                    prevs,
                    self@.inputs.len(),
                ) == InputsCheck::Valid),
    {
        match self.check_inputs_with(&get_previous_output) {
            InputsCheck::Valid => true,
            _ => false,
        }
    }

    /// Verifies the signatures of the transaction inputs, or returns `None`
    /// where `verify_inputs` is not defined.
    pub fn try_verify_inputs<F: Fn(&[u8], u32) -> Option<TransactionOutput>>(&self, get_previous_output: F) -> (res: Option<bool>)
        requires
            lookup_callable(get_previous_output),
        ensures
            forall|prevs: Seq<Option<OutputModel>>|
                #[trigger] lookup_agrees(get_previous_output, self@, prevs) ==> res == match inputs_check(
                    self@,
                    prevs,
                    self@.inputs.len(),
                ) {
                    InputsCheck::Malformed => None,
                    InputsCheck::Valid => Some(true),
                    InputsCheck::Invalid => Some(false),
                },
    {
        match self.check_inputs_with(&get_previous_output) {
            InputsCheck::Malformed => None,
            _ => Some(self.verify_inputs(get_previous_output)),
        }
    }

    /// Signs the transaction inputs, in order, with `private_key`; stops with
    /// an error at the first input whose previous output is not found.
    pub fn sign_inputs<F: Fn(&[u8], u32) -> Option<TransactionOutput>>(&mut self, private_key: &SigningKey, get_previous_output: F) -> (res: Result<(), String>)
        requires
            lookup_callable(get_previous_output),
        ensures
            forall|prevs: Seq<Option<OutputModel>>|
                #[trigger] lookup_agrees(get_previous_output, old(self)@, prevs) ==> signed_with(
                    old(self)@,
                    final(self)@,
                    private_key@,
                    prevs,
                ),
            forall|prevs: Seq<Option<OutputModel>>|
                #[trigger] lookup_agrees(get_previous_output, old(self)@, prevs) ==> (res is Ok
                    <==> found_through(prevs, old(self)@.inputs.len() - 1)),
            forall|prevs: Seq<Option<OutputModel>>|
                #[trigger] lookup_agrees(get_previous_output, final(self)@, prevs) <==> lookup_agrees(
                    get_previous_output,
                    old(self)@,
                    prevs,
                ),
            res matches Err(e) ==> e@ == "Previous output not found"@,
    {
        let ghost t0 = self@;
        let ghost mut seen: Seq<OutputModel> = Seq::empty();
        let key = private_key.bytes();
        let n = self.inputs.len();
        let mut i: usize = 0;
        while i < n
            invariant
                n == self.inputs.len(),
                n == t0.inputs.len(),
                t0 == old(self)@,
                i <= n,
                seen.len() == i,
                lookup_callable(get_previous_output),
                secret_key_valid(key@),
                key@ == private_key@,
                forall|prevs: Seq<Option<OutputModel>>|
                    #[trigger] lookup_agrees(get_previous_output, t0, prevs) ==> forall|j: int|
                        0 <= j < i ==> prevs[j] == Some(#[trigger] seen[j]),
                self@.outputs == t0.outputs,
                self@.txid == t0.txid,
                self@.inputs.len() == n,
                forall|j: int|
                    0 <= j < n ==> {
                        &&& (#[trigger] self@.inputs[j]).previous_output_hash
                            == t0.inputs[j].previous_output_hash
                        &&& self@.inputs[j].previous_output_index
                            == t0.inputs[j].previous_output_index
                        &&& self@.inputs[j].script_sig == if j < i {
                            signed_script_sig(t0, j, key@, seen[j].script_pub_key)
                        } else {
                            t0.inputs[j].script_sig
                        }
                        &&& j < i ==> signature_facts(
                            key@,
                            signing_digest(t0, j, seen[j].script_pub_key),
                        )
                    },
            decreases n - i,
        {
            let h = self.inputs[i].previous_output_hash.as_slice();
            let idx = self.inputs[i].previous_output_index;
            let prev_opt = get_previous_output(h, idx);
            proof {
                assert(self@.inputs[i as int].previous_output_hash == t0.inputs[i as int].previous_output_hash);
                assert(idx == t0.inputs[i as int].previous_output_index);
                assert forall|prevs: Seq<Option<OutputModel>>| #[trigger] lookup_agrees(
                    get_previous_output,
                    t0,
                    prevs,
                ) implies prevs[i as int] == output_opt_model(prev_opt) by {
                    lemma_agree_at(get_previous_output, t0, prevs, i as int, h, prev_opt);
                }
            }
            let prev_output = match prev_opt {
                Some(o) => o,
                None => {
                    proof {
                        self.lemma_signed_prefix(t0, key@, seen, i as int, get_previous_output);
                    }
                    return Err(String::from_str("Previous output not found"));
                },
            };
            let ghost before = self@;
            let tx_hash = self.signing_hash(i, prev_output.script_pub_key.as_slice());
            proof {
                lemma_signing_form_ignores_sigs(t0, self@, i as int, prev_output.script_pub_key@);
            }
            let mut sig_bytes = ecdsa_sign(key.as_slice(), tx_hash.as_slice());
            sig_bytes.push(1u8);
            let pubkey_bytes = derive_public_key(key.as_slice());
            let script_sig = build_script_sig(sig_bytes.as_slice(), pubkey_bytes.as_slice());
            proof {
                seen = seen.push(prev_output@);
                assert(script_sig@ == signed_script_sig(t0, i as int, key@, seen[i as int].script_pub_key));
            }
            self.inputs[i].script_sig = script_sig;
            proof {
                assert forall|j: int| 0 <= j < n implies {
                    &&& (#[trigger] self@.inputs[j]).previous_output_hash
                        == t0.inputs[j].previous_output_hash
                    &&& self@.inputs[j].previous_output_index
                        == t0.inputs[j].previous_output_index
                    &&& self@.inputs[j].script_sig == if j < i + 1 {
                        signed_script_sig(t0, j, key@, seen[j].script_pub_key)
                    } else {
                        t0.inputs[j].script_sig
                    }
                    &&& j < i + 1 ==> signature_facts(
                        key@,
                        signing_digest(t0, j, seen[j].script_pub_key),
                    )
                } by {
                    if j != i {
                        assert(self@.inputs[j] == before.inputs[j]);
                    }
                    if j < i {
                        assert(seen[j] == seen.drop_last()[j]);
                    }
                }
                assert forall|prevs: Seq<Option<OutputModel>>| #[trigger] lookup_agrees(
                    get_previous_output,
                    t0,
                    prevs,
                ) implies forall|j: int| 0 <= j < i + 1 ==> prevs[j] == Some(#[trigger] seen[j]) by {
                    assert forall|j: int| 0 <= j < i + 1 implies prevs[j] == Some(#[trigger] seen[j]) by {
                        if j < i {
                            assert(seen[j] == seen.drop_last()[j]);
                        }
                    }
                }
            }
            i = i + 1;
        }
        proof {
            self.lemma_signed_prefix(t0, key@, seen, n as int, get_previous_output);
        }
        Ok(())
    }
}

} // verus!
