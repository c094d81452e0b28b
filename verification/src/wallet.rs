//! Building a payment from the outputs that a key holds.

use vstd::prelude::*;

use crate::blockchain::blockchain::utxo_prevs;
use crate::blockchain::signing::{
    found_through, inputs_check, lemma_signed_inputs_verify, lookup_agrees, output_opt_model, signed_with,
    InputsCheck,
};
use crate::blockchain::transaction::{
    inputs_model, new_transaction, outputs_model, InputModel, OutputModel, Transaction,
    TransactionInput, TransactionOutput, TxModel,
};
use crate::blockchain::utxo::{entries_distinct, entries_view, lemma_view_at, OutKey, OutPoint, UtxoMap, UtxoSet};
use crate::utils::bytes::bytes_eq;
use crate::utils::ecdsa::{public_key_of, SigningKey};
use crate::utils::hashing::{double_sha256, spec_double_sha256};

verus! {

/// The amount that `create_test_transaction` sends, fee included.
pub const SEND_AMOUNT: u64 = 5000;

/// The fee that `create_test_transaction` leaves to the miner.
pub const FEE: u64 = 1000;

/// The keys and outputs of a list of entries.
pub open spec fn pairs_model(s: Seq<(OutPoint, TransactionOutput)>) -> Seq<(OutKey, OutputModel)> {
    s.map_values(|e: (OutPoint, TransactionOutput)| (e.0@, e.1@))
}

/// The entries whose output is locked to `pkh`, in order.
pub open spec fn locked_to(es: Seq<(OutKey, OutputModel)>, pkh: Seq<u8>) -> Seq<(OutKey, OutputModel)>
    decreases es.len(),
{
    if es.len() == 0 {
        Seq::empty()
    } else {
        let r = locked_to(es.drop_last(), pkh);
        if es.last().1.script_pub_key == pkh {
            r.push(es.last())
        } else {
            r
        }
    }
}

/// The sum of the amounts of a list of entries.
pub open spec fn amounts_total(s: Seq<(OutKey, OutputModel)>) -> int
    decreases s.len(),
{
    if s.len() == 0 {
        0
    } else {
        amounts_total(s.drop_last()) + s.last().1.amount
    }
}

/// `es` lists the UTXO set `m`, each outpoint once.
pub open spec fn enumerates(es: Seq<(OutPoint, TransactionOutput)>, m: UtxoMap) -> bool {
    entries_distinct(es) && entries_view(es) == m
}

proof fn lemma_locked_scripts(es: Seq<(OutKey, OutputModel)>, pkh: Seq<u8>)
    ensures
        forall|j: int|
            0 <= j < locked_to(es, pkh).len() ==> (#[trigger] locked_to(es, pkh)[j]).1.script_pub_key == pkh,
    decreases es.len(),
{
    if es.len() > 0 {
        lemma_locked_scripts(es.drop_last(), pkh);
        let r = locked_to(es.drop_last(), pkh);
        assert forall|j: int| 0 <= j < locked_to(es, pkh).len() implies (#[trigger] locked_to(
            es,
            pkh,
        )[j]).1.script_pub_key == pkh by {
            if j < r.len() {
                assert(locked_to(es, pkh)[j] == r[j]);
            }
        }
    }
}

/// The unsigned inputs spending the given entries.
pub open spec fn payment_inputs(locked: Seq<(OutKey, OutputModel)>) -> Seq<InputModel> {
    Seq::new(
        locked.len(),
        |j: int|
            InputModel {
                previous_output_hash: locked[j].0.0,
                previous_output_index: locked[j].0.1,
                script_sig: Seq::empty(),
            },
    )
}

/// The outputs of a payment from inputs worth `total`: the amount sent less
/// the fee to the recipient, then any change back to the sender.
pub open spec fn payment_outputs(total: int, sender_hash: Seq<u8>, recipient_hash: Seq<u8>) -> Seq<OutputModel> {
    let first = OutputModel { amount: (SEND_AMOUNT - FEE) as u64, script_pub_key: recipient_hash };
    let change = total - SEND_AMOUNT - FEE;
    if change > 0 {
        seq![first, OutputModel { amount: change as u64, script_pub_key: sender_hash }]
    } else {
        seq![first]
    }
}

/// The payment before it is signed.
pub open spec fn unsigned_payment(locked: Seq<(OutKey, OutputModel)>, sender_hash: Seq<u8>, recipient_hash: Seq<u8>) -> TxModel {
    new_transaction(
        payment_inputs(locked),
        payment_outputs(amounts_total(locked), sender_hash, recipient_hash),
    )
}

/// The previous output of each input of the payment.
pub open spec fn payment_prevs(locked: Seq<(OutKey, OutputModel)>) -> Seq<Option<OutputModel>> {
    Seq::new(locked.len(), |j: int| Some(locked[j].1))
}

proof fn lemma_locked_from(es: Seq<(OutKey, OutputModel)>, pkh: Seq<u8>)
    ensures
        forall|j: int|
            0 <= j < locked_to(es, pkh).len() ==> exists|i: int|
                0 <= i < es.len() && #[trigger] locked_to(es, pkh)[j] == es[i],
    decreases es.len(),
{
    if es.len() > 0 {
        lemma_locked_from(es.drop_last(), pkh);
        let r = locked_to(es.drop_last(), pkh);
        assert forall|j: int| 0 <= j < locked_to(es, pkh).len() implies exists|i: int|
            0 <= i < es.len() && #[trigger] locked_to(es, pkh)[j] == es[i] by {
            if j < r.len() {
                let i = choose|i: int| 0 <= i < es.drop_last().len() && r[j] == es.drop_last()[i];
                assert(locked_to(es, pkh)[j] == es[i]);
            } else {
                assert(locked_to(es, pkh)[j] == es[es.len() - 1]);
            }
        }
    }
}

proof fn lemma_amounts_total_mono(s: Seq<(OutKey, OutputModel)>, k: int)
    requires
        0 <= k <= s.len(),
    ensures
        amounts_total(s.take(k)) <= amounts_total(s),
    decreases s.len() - k,
{
    if k < s.len() {
        lemma_amounts_total_mono(s, k + 1);
        assert(s.take(k + 1).drop_last() =~= s.take(k));
    } else {
        assert(s.take(k) =~= s);
    }
}

/// Builds and signs a payment of `SEND_AMOUNT` (less `FEE`) to the holder of
/// `recipient_pubkey`, spending every unspent output locked to the double
/// SHA-256 of `sender_pubkey`, with the change going back to the sender.
pub fn create_test_transaction(
    utxo_set: &UtxoSet,
    sender_sk: &SigningKey,
    sender_pubkey: &[u8],
    recipient_pubkey: &[u8],
) -> (res: Option<Transaction>)
    requires
        utxo_set.wf(),
        forall|es: Seq<(OutPoint, TransactionOutput)>|
            #[trigger] enumerates(es, utxo_set@) ==> SEND_AMOUNT + FEE <= amounts_total(
                locked_to(pairs_model(es), spec_double_sha256(sender_pubkey@)),
            ) <= u64::MAX,
    ensures
        res is Some,
        exists|es: Seq<(OutPoint, TransactionOutput)>|
            #![trigger enumerates(es, utxo_set@)]
            {
                let locked = locked_to(pairs_model(es), spec_double_sha256(sender_pubkey@));
                &&& enumerates(es, utxo_set@)
                &&& res matches Some(tx) && signed_with(
                    unsigned_payment(
                        locked,
                        spec_double_sha256(sender_pubkey@),
                        spec_double_sha256(recipient_pubkey@),
                    ),
                    tx@,
                    sender_sk@,
                    payment_prevs(locked),
                )
            },
        sender_pubkey@ == public_key_of(sender_sk@) ==> (res matches Some(tx) && inputs_check(
            tx@,
            utxo_prevs(tx@, utxo_set@),
            tx@.inputs.len(),
        ) == InputsCheck::Valid),
{
    let sender_pubkey_hash = double_sha256(sender_pubkey);
    let recipient_pubkey_hash = double_sha256(recipient_pubkey);
    let entries = utxo_set.entries();
    let ghost es = entries@;
    let ghost ps = pairs_model(es);
    let ghost locked = locked_to(ps, sender_pubkey_hash@);
    assert(enumerates(es, utxo_set@));
    // Find unspent outputs belonging to the sender.
    let mut input_utxos: Vec<(OutPoint, TransactionOutput)> = Vec::new();
    let n = entries.len();
    let mut i: usize = 0;
    assert(ps.take(0) =~= Seq::<(OutKey, OutputModel)>::empty());
    while i < n
        invariant
            n == entries@.len(),
            es == entries@,
            ps == pairs_model(es),
            i <= n,
            pairs_model(input_utxos@) == locked_to(ps.take(i as int), sender_pubkey_hash@),
        decreases n - i,
    {
        let e = &entries[i];
        assert(ps.take(i + 1).drop_last() =~= ps.take(i as int));
        assert(ps.take(i + 1).last() == (e.0@, e.1@));
        let ghost before = input_utxos@;
        if bytes_eq(e.1.script_pub_key.as_slice(), sender_pubkey_hash.as_slice()) {
            input_utxos.push((e.0.clone(), e.1.clone()));
            assert(pairs_model(input_utxos@) =~= pairs_model(before).push((e.0@, e.1@)));
        }
        i = i + 1;
    }
    assert(ps.take(n as int) =~= ps);
    let send_amount: u64 = SEND_AMOUNT;
    let fee: u64 = FEE;
    // Calculate the total input value from the selected outputs.
    let m = input_utxos.len();
    let mut total_input_value: u64 = 0;
    let mut k: usize = 0;
    while k < m
        invariant
            m == input_utxos@.len(),
            pairs_model(input_utxos@) == locked,
            k <= m,
            total_input_value == amounts_total(locked.take(k as int)),
            amounts_total(locked) <= u64::MAX,
        decreases m - k,
    {
        proof {
            lemma_amounts_total_mono(locked, k + 1);
            assert(locked.take(k + 1).drop_last() =~= locked.take(k as int));
        }
        total_input_value = total_input_value + input_utxos[k].1.amount;
        k = k + 1;
    }
    assert(locked.take(m as int) =~= locked);
    let change_amount = total_input_value - send_amount - fee;
    if input_utxos.len() == 0 {
        return None;
    }
    // Create transaction inputs.
    let mut tx_inputs: Vec<TransactionInput> = Vec::new();
    let mut k: usize = 0;
    while k < m
        invariant
            m == input_utxos@.len(),
            pairs_model(input_utxos@) == locked,
            k <= m,
            locked.len() == m,
            tx_inputs@.len() == k,
            inputs_model(tx_inputs@) == payment_inputs(locked).take(k as int),
        decreases m - k,
    {
        let ghost before = tx_inputs@;
        assert(pairs_model(input_utxos@)[k as int] == (input_utxos@[k as int].0@, input_utxos@[k as int].1@));
        let empty: Vec<u8> = Vec::new();
        assert(empty@ =~= Seq::<u8>::empty());
        tx_inputs.push(TransactionInput {
            previous_output_hash: input_utxos[k].0.txid.clone(),
            previous_output_index: input_utxos[k].0.index,
            script_sig: empty,
        });
        assert(tx_inputs@[k as int]@ == payment_inputs(locked)[k as int]);
        assert(inputs_model(tx_inputs@) =~= payment_inputs(locked).take(k + 1));
        k = k + 1;
    }
    assert(payment_inputs(locked).take(m as int) =~= payment_inputs(locked));
    // Create transaction outputs.
    let mut tx_outputs: Vec<TransactionOutput> = Vec::new();
    tx_outputs.push(TransactionOutput {
        amount: send_amount - fee,
        script_pub_key: recipient_pubkey_hash,
    });
    if change_amount > 0 {
        tx_outputs.push(TransactionOutput {
            amount: change_amount,
            script_pub_key: sender_pubkey_hash.clone(),
        });
    }
    assert(outputs_model(tx_outputs@) =~= payment_outputs(
        amounts_total(locked),
        sender_pubkey_hash@,
        spec_double_sha256(recipient_pubkey@),
    ));
    let mut tx = Transaction::new(tx_inputs, tx_outputs);
    let ghost unsigned = tx@;
    // Sign the transaction.
    let get_prev_output = |txid: &[u8], index: u32| -> (r: Option<TransactionOutput>)
        requires
            utxo_set.wf(),
        ensures
            output_opt_model(r) == if utxo_set@.contains_key((txid@, index)) {
                Some(utxo_set@[(txid@, index)])
            } else {
                None
            },
        { utxo_set.get(txid, index) };
    proof {
        lemma_locked_from(ps, sender_pubkey_hash@);
        assert forall|j: int| 0 <= j < locked.len() implies #[trigger] utxo_set@.contains_key(locked[j].0)
            && utxo_set@[locked[j].0] == locked[j].1 by {
            let i = choose|i: int| 0 <= i < ps.len() && locked[j] == ps[i];
            lemma_view_at(es, i);
        }
        assert forall|s: &[u8], idx: u32| #[trigger] call_requires(get_prev_output, (s, idx)) by {}
        assert(lookup_agrees(get_prev_output, unsigned, payment_prevs(locked)));
    }
    match tx.sign_inputs(sender_sk, get_prev_output) {
        Ok(()) => {},
        Err(_) => {
            proof {
                assert(payment_prevs(locked)[locked.len() - 1] is Some);
                assert(crate::blockchain::signing::found_through(payment_prevs(locked), locked.len() - 1));
            }
            return None;
        },
    }
    proof {
        let prevs = payment_prevs(locked);
        assert(signed_with(unsigned, tx@, sender_sk@, prevs));
        assert(enumerates(es, utxo_set@));
        assert(utxo_prevs(tx@, utxo_set@) =~= prevs) by {
            assert forall|j: int| 0 <= j < locked.len() implies #[trigger] utxo_prevs(tx@, utxo_set@)[j]
                == prevs[j] by {
                assert(tx@.inputs[j].previous_output_hash == unsigned.inputs[j].previous_output_hash);
                assert(unsigned.inputs[j] == payment_inputs(locked)[j]);
                assert(utxo_set@.contains_key(locked[j].0));
            }
        }
        if sender_pubkey@ == public_key_of(sender_sk@) {
            lemma_locked_scripts(ps, sender_pubkey_hash@);
            assert forall|l: int| 0 <= l <= locked.len() - 1 implies (#[trigger] prevs[l]) is Some by {}
            assert(found_through(prevs, unsigned.inputs.len() - 1));
            assert forall|j: int| 0 <= j < prevs.len() implies (#[trigger] prevs[j])->Some_0.script_pub_key
                == spec_double_sha256(public_key_of(sender_sk@)) by {
                assert(locked[j].1.script_pub_key == sender_pubkey_hash@);
            }
            lemma_signed_inputs_verify(unsigned, tx@, sender_sk@, prevs);
        }
    }
    Some(tx)
}

} // verus!
