//! Transactions, their byte encoding and hash, and script signatures.

use vstd::prelude::*;
use vstd::string::StringExecFns;

use crate::blockchain::encoding::{enc_bytes, le_u32, le_u64, push_bytes, push_u32, push_u64};
use crate::utils::hashing::{double_sha256, spec_double_sha256};
use crate::utils::bytes::copy_range;

verus! {

/// Represents an input in a transaction, referencing a previous output.
pub struct TransactionInput {
    /// The hash of the previous transaction.
    pub previous_output_hash: Vec<u8>,
    /// The index of the output in the previous transaction.
    pub previous_output_index: u32,
    /// The script that satisfies the conditions placed on the output.
    pub script_sig: Vec<u8>,
}

/// Represents an output in a transaction, specifying value and recipient.
pub struct TransactionOutput {
    /// The amount to be transferred.
    pub amount: u64,
    /// The script defining the conditions that must be met to spend this output.
    pub script_pub_key: Vec<u8>,
}

/// Represents a transaction, containing inputs and outputs.
pub struct Transaction {
    /// List of inputs.
    pub inputs: Vec<TransactionInput>,
    /// List of outputs.
    pub outputs: Vec<TransactionOutput>,
    /// Transaction ID, set by `Transaction::new`.
    pub txid: Vec<u8>,
}

/// Mathematical model of a transaction input.
pub struct InputModel {
    pub previous_output_hash: Seq<u8>,
    pub previous_output_index: u32,
    pub script_sig: Seq<u8>,
}

/// Mathematical model of a transaction output.
pub struct OutputModel {
    pub amount: u64,
    pub script_pub_key: Seq<u8>,
}

/// Mathematical model of a transaction.
pub struct TxModel {
    pub inputs: Seq<InputModel>,
    pub outputs: Seq<OutputModel>,
    pub txid: Seq<u8>,
}

impl View for TransactionInput {
    type V = InputModel;

    open spec fn view(&self) -> InputModel {
        InputModel {
            previous_output_hash: self.previous_output_hash@,
            previous_output_index: self.previous_output_index,
            script_sig: self.script_sig@,
        }
    }
}

impl View for TransactionOutput {
    type V = OutputModel;

    open spec fn view(&self) -> OutputModel {
        OutputModel { amount: self.amount, script_pub_key: self.script_pub_key@ }
    }
}

pub open spec fn inputs_model(s: Seq<TransactionInput>) -> Seq<InputModel> {
    s.map_values(|i: TransactionInput| i@)
}

pub open spec fn outputs_model(s: Seq<TransactionOutput>) -> Seq<OutputModel> {
    s.map_values(|o: TransactionOutput| o@)
}

impl View for Transaction {
    type V = TxModel;

    open spec fn view(&self) -> TxModel {
        TxModel {
            inputs: inputs_model(self.inputs@),
            outputs: outputs_model(self.outputs@),
            txid: self.txid@,
        }
    }
}

impl Clone for TransactionInput {
    fn clone(&self) -> (res: Self)
        ensures
            res@ == self@,
    {
        TransactionInput {
            previous_output_hash: self.previous_output_hash.clone(),
            previous_output_index: self.previous_output_index,
            script_sig: self.script_sig.clone(),
        }
    }
}

impl Clone for TransactionOutput {
    fn clone(&self) -> (res: Self)
        ensures
            res@ == self@,
    {
        TransactionOutput { amount: self.amount, script_pub_key: self.script_pub_key.clone() }
    }
}

/// Encoding of one input.
pub open spec fn encode_input(i: InputModel) -> Seq<u8> {
    enc_bytes(i.previous_output_hash) + le_u32(i.previous_output_index) + enc_bytes(i.script_sig)
}

/// Encoding of one output.
pub open spec fn encode_output(o: OutputModel) -> Seq<u8> {
    le_u64(o.amount) + enc_bytes(o.script_pub_key)
}

/// Concatenated encodings of a list of inputs.
pub open spec fn encode_inputs(s: Seq<InputModel>) -> Seq<u8>
    decreases s.len(),
{
    if s.len() == 0 {
        seq![]
    } else {
        encode_inputs(s.drop_last()) + encode_input(s.last())
    }
}

/// Concatenated encodings of a list of outputs.
pub open spec fn encode_outputs(s: Seq<OutputModel>) -> Seq<u8>
    decreases s.len(),
{
    if s.len() == 0 {
        seq![]
    } else {
        encode_outputs(s.drop_last()) + encode_output(s.last())
    }
}

/// The bytes that are hashed to identify a transaction.
pub open spec fn encode_transaction(t: TxModel) -> Seq<u8> {
    le_u64(t.inputs.len() as u64) + encode_inputs(t.inputs) + le_u64(t.outputs.len() as u64)
        + encode_outputs(t.outputs) + enc_bytes(t.txid)
}

/// The hash of a transaction (of its encoding, `txid` field included).
pub open spec fn tx_hash(t: TxModel) -> Seq<u8> {
    spec_double_sha256(encode_transaction(t))
}

/// The transaction as it is hashed for signing input `index`: every script
/// signature emptied, and that of input `index` replaced by `script`.
pub open spec fn signing_form(t: TxModel, index: int, script: Seq<u8>) -> TxModel {
    TxModel {
        inputs: Seq::new(
            t.inputs.len(),
            |j: int|
                InputModel {
                    previous_output_hash: t.inputs[j].previous_output_hash,
                    previous_output_index: t.inputs[j].previous_output_index,
                    script_sig: if j == index {
                        script
                    } else {
                        Seq::<u8>::empty()
                    },
                },
        ),
        outputs: t.outputs,
        txid: t.txid,
    }
}

/// Law: what is signed for an input covers the whole transaction but its
/// script signatures: every output, the txid and every outpoint, with the
/// locking script in place of the signed input's script signature and
/// nothing in the others. So two transactions with the same inputs and txid
/// have the same signing form exactly when they have the same outputs.
pub proof fn lemma_signing_form_covers_outputs(t: TxModel, u: TxModel, i: int, script: Seq<u8>)
    requires
        0 <= i < t.inputs.len(),
        u.inputs == t.inputs,
        u.txid == t.txid,
    ensures
        signing_form(t, i, script).outputs == t.outputs,
        signing_form(t, i, script).txid == t.txid,
        signing_form(t, i, script).inputs.len() == t.inputs.len(),
        signing_form(t, i, script).inputs[i].script_sig == script,
        forall|j: int|
            0 <= j < t.inputs.len() ==> {
                &&& (#[trigger] signing_form(t, i, script).inputs[j]).previous_output_hash
                    == t.inputs[j].previous_output_hash
                &&& signing_form(t, i, script).inputs[j].previous_output_index
                    == t.inputs[j].previous_output_index
                &&& j != i ==> signing_form(t, i, script).inputs[j].script_sig.len() == 0
            },
        signing_form(t, i, script) == signing_form(u, i, script) <==> t.outputs == u.outputs,
{
    if t.outputs == u.outputs {
        assert(signing_form(t, i, script).inputs =~= signing_form(u, i, script).inputs);
    }
}

proof fn lemma_le_u64_injective(x: u64, y: u64)
    requires
        le_u64(x) == le_u64(y),
    ensures
        x == y,
{
    assert(le_u64(x)[0] == le_u64(y)[0]);
    assert(le_u64(x)[1] == le_u64(y)[1]);
    assert(le_u64(x)[2] == le_u64(y)[2]);
    assert(le_u64(x)[3] == le_u64(y)[3]);
    assert(le_u64(x)[4] == le_u64(y)[4]);
    assert(le_u64(x)[5] == le_u64(y)[5]);
    assert(le_u64(x)[6] == le_u64(y)[6]);
    assert(le_u64(x)[7] == le_u64(y)[7]);
    assert(x % 256 == y % 256);
    assert((x / 0x100) % 256 == (y / 0x100) % 256);
    assert((x / 0x1_0000) % 256 == (y / 0x1_0000) % 256);
    assert((x / 0x100_0000) % 256 == (y / 0x100_0000) % 256);
    assert((x / 0x1_0000_0000) % 256 == (y / 0x1_0000_0000) % 256);
    assert((x / 0x100_0000_0000) % 256 == (y / 0x100_0000_0000) % 256);
    assert((x / 0x1_0000_0000_0000) % 256 == (y / 0x1_0000_0000_0000) % 256);
    assert((x / 0x100_0000_0000_0000) % 256 == (y / 0x100_0000_0000_0000) % 256);
    assert(x == y) by (bit_vector)
        requires
            x % 256 == y % 256,
            (x / 0x100) % 256 == (y / 0x100) % 256,
            (x / 0x1_0000) % 256 == (y / 0x1_0000) % 256,
            (x / 0x100_0000) % 256 == (y / 0x100_0000) % 256,
            (x / 0x1_0000_0000) % 256 == (y / 0x1_0000_0000) % 256,
            (x / 0x100_0000_0000) % 256 == (y / 0x100_0000_0000) % 256,
            (x / 0x1_0000_0000_0000) % 256 == (y / 0x1_0000_0000_0000) % 256,
            (x / 0x100_0000_0000_0000) % 256 == (y / 0x100_0000_0000_0000) % 256,
    ;
}

proof fn lemma_encode_outputs_front(s: Seq<OutputModel>)
    requires
        s.len() > 0,
    ensures
        encode_outputs(s) == encode_output(s[0]) + encode_outputs(s.drop_first()),
    decreases s.len(),
{
    if s.len() == 1 {
        assert(s.drop_first() =~= Seq::<OutputModel>::empty());
        assert(s.drop_last() =~= Seq::<OutputModel>::empty());
        assert(encode_outputs(s) =~= encode_output(s[0]) + encode_outputs(s.drop_first()));
    } else {
        let d = s.drop_last();
        lemma_encode_outputs_front(d);
        assert(d.drop_first() =~= s.drop_first().drop_last());
        assert(s.drop_first().last() == s.last());
        assert(d[0] == s[0]);
        assert(encode_outputs(s) =~= encode_output(s[0]) + encode_outputs(s.drop_first()));
    }
}

/// No output's locking script is longer than a length field can say.
pub open spec fn outputs_encodable(s: Seq<OutputModel>) -> bool {
    &&& s.len() <= u64::MAX
    &&& forall|k: int| 0 <= k < s.len() ==> (#[trigger] s[k]).script_pub_key.len() <= u64::MAX
}

proof fn lemma_split(p: Seq<u8>, q: Seq<u8>)
    ensures
        (p + q).subrange(0, p.len() as int) == p,
        (p + q).subrange(p.len() as int, (p + q).len() as int) == q,
{
    assert((p + q).subrange(0, p.len() as int) =~= p);
    assert((p + q).subrange(p.len() as int, (p + q).len() as int) =~= q);
}

/// Equal byte strings that both start with eight length or amount bytes
/// and go on with a rest agree on both parts.
proof fn lemma_strip_u64(x: u64, y: u64, r: Seq<u8>, s: Seq<u8>)
    requires
        le_u64(x) + r == le_u64(y) + s,
    ensures
        x == y,
        r == s,
{
    lemma_split(le_u64(x), r);
    lemma_split(le_u64(y), s);
    lemma_le_u64_injective(x, y);
}

proof fn lemma_outputs_layout(a: Seq<OutputModel>, x: Seq<u8>)
    requires
        a.len() > 0,
    ensures
        encode_outputs(a) + x == le_u64(a[0].amount) + (le_u64(a[0].script_pub_key.len() as u64) + (
        a[0].script_pub_key + (encode_outputs(a.drop_first()) + x))),
{
    lemma_encode_outputs_front(a);
    let a0 = a[0];
    let am = le_u64(a0.amount);
    let ln = le_u64(a0.script_pub_key.len() as u64);
    let sp = a0.script_pub_key;
    let t = encode_outputs(a.drop_first());
    assert(encode_output(a0) =~= am + (ln + sp));
    assert((am + (ln + sp)) + t + x =~= am + (ln + (sp + (t + x))));
}

proof fn lemma_encode_outputs_injective(a: Seq<OutputModel>, b: Seq<OutputModel>, x: Seq<u8>, y: Seq<u8>)
    requires
        a.len() == b.len(),
        outputs_encodable(a),
        outputs_encodable(b),
        encode_outputs(a) + x == encode_outputs(b) + y,
    ensures
        a == b,
    decreases a.len(),
{
    if a.len() == 0 {
        assert(a =~= b);
    } else {
        lemma_outputs_layout(a, x);
        lemma_outputs_layout(b, y);
        let a0 = a[0];
        let b0 = b[0];
        let ta = a.drop_first();
        let tb = b.drop_first();
        let ra = encode_outputs(ta) + x;
        let rb = encode_outputs(tb) + y;
        let la = a0.script_pub_key.len() as u64;
        let lb = b0.script_pub_key.len() as u64;
        assert(a0.script_pub_key.len() <= u64::MAX);
        assert(b0.script_pub_key.len() <= u64::MAX);
        lemma_strip_u64(a0.amount, b0.amount, le_u64(la) + (a0.script_pub_key + ra), le_u64(lb) + (
        b0.script_pub_key + rb));
        lemma_strip_u64(la, lb, a0.script_pub_key + ra, b0.script_pub_key + rb);
        assert(a0.script_pub_key.len() == b0.script_pub_key.len());
        lemma_split(a0.script_pub_key, ra);
        lemma_split(b0.script_pub_key, rb);
        assert(a0.script_pub_key == b0.script_pub_key);
        assert(ra == rb);
        assert(outputs_encodable(ta)) by {
            assert forall|k: int| 0 <= k < ta.len() implies (#[trigger] ta[k]).script_pub_key.len()
                <= u64::MAX by {
                assert(ta[k] == a[k + 1]);
            }
        }
        assert(outputs_encodable(tb)) by {
            assert forall|k: int| 0 <= k < tb.len() implies (#[trigger] tb[k]).script_pub_key.len()
                <= u64::MAX by {
                assert(tb[k] == b[k + 1]);
            }
        }
        lemma_encode_outputs_injective(ta, tb, x, y);
        assert(a0 == b0);
        assert(a =~= b) by {
            assert forall|k: int| 0 <= k < a.len() implies a[k] == b[k] by {
                if k > 0 {
                    assert(a[k] == ta[k - 1]);
                    assert(b[k] == tb[k - 1]);
                }
            }
        }
    }
}

/// Law: the bytes signed for an input differ between two transactions
/// with the same inputs and txid whose outputs differ, so a signature made
/// for one does not carry over to the other through a change of any output.
pub proof fn lemma_signed_bytes_cover_outputs(t: TxModel, u: TxModel, i: int, script: Seq<u8>)
    requires
        0 <= i < t.inputs.len(),
        u.inputs == t.inputs,
        u.txid == t.txid,
        outputs_encodable(t.outputs),
        outputs_encodable(u.outputs),
        t.outputs != u.outputs,
    ensures
        encode_transaction(signing_form(t, i, script)) != encode_transaction(signing_form(u, i, script)),
{
    let ft = signing_form(t, i, script);
    let fu = signing_form(u, i, script);
    assert(ft.inputs =~= fu.inputs);
    let p = le_u64(ft.inputs.len() as u64) + encode_inputs(ft.inputs);
    let rt = le_u64(t.outputs.len() as u64) + (encode_outputs(t.outputs) + enc_bytes(t.txid));
    let ru = le_u64(u.outputs.len() as u64) + (encode_outputs(u.outputs) + enc_bytes(u.txid));
    assert(encode_transaction(ft) =~= p + rt);
    assert(encode_transaction(fu) =~= p + ru);
    if encode_transaction(ft) == encode_transaction(fu) {
        lemma_split(p, rt);
        lemma_split(p, ru);
        assert(rt == ru);
        lemma_strip_u64(
            t.outputs.len() as u64,
            u.outputs.len() as u64,
            encode_outputs(t.outputs) + enc_bytes(t.txid),
            encode_outputs(u.outputs) + enc_bytes(u.txid),
        );
        lemma_encode_outputs_injective(t.outputs, u.outputs, enc_bytes(t.txid), enc_bytes(u.txid));
    }
}

/// The digest that is signed for input `index` whose previous output has
/// the locking script `script`.
pub open spec fn signing_digest(t: TxModel, index: int, script: Seq<u8>) -> Seq<u8> {
    spec_double_sha256(encode_transaction(signing_form(t, index, script)))
}

/// The transaction that `Transaction::new` builds from inputs and outputs.
pub open spec fn new_transaction(inputs: Seq<InputModel>, outputs: Seq<OutputModel>) -> TxModel {
    TxModel {
        inputs,
        outputs,
        txid: tx_hash(TxModel { inputs, outputs, txid: Seq::empty() }),
    }
}

/// The encoding of `t`, or of its signing form for input `index` when
/// `for_signing` holds.
pub open spec fn encoded_form(t: TxModel, for_signing: bool, index: int, script: Seq<u8>) -> Seq<u8> {
    if for_signing {
        encode_transaction(signing_form(t, index, script))
    } else {
        encode_transaction(t)
    }
}

proof fn lemma_encode_inputs_step(s: Seq<InputModel>, i: int)
    requires
        0 <= i < s.len(),
    ensures
        encode_inputs(s.take(i + 1)) == encode_inputs(s.take(i)) + encode_input(s[i]),
{
    assert(s.take(i + 1).drop_last() =~= s.take(i));
}

proof fn lemma_encode_outputs_step(s: Seq<OutputModel>, i: int)
    requires
        0 <= i < s.len(),
    ensures
        encode_outputs(s.take(i + 1)) == encode_outputs(s.take(i)) + encode_output(s[i]),
{
    assert(s.take(i + 1).drop_last() =~= s.take(i));
}

/// An input as it appears in the encoding being produced.
spec fn form_input(inp: InputModel, for_signing: bool, is_target: bool, script: Seq<u8>) -> InputModel {
    if for_signing {
        InputModel {
            previous_output_hash: inp.previous_output_hash,
            previous_output_index: inp.previous_output_index,
            script_sig: if is_target {
                script
            } else {
                Seq::<u8>::empty()
            },
        }
    } else {
        inp
    }
}

/// Appends the encoding of one input, in the form `form_input` gives.
fn push_input(out: &mut Vec<u8>, input: &TransactionInput, for_signing: bool, is_target: bool, script: &[u8])
    ensures
        final(out)@ == old(out)@ + encode_input(form_input(input@, for_signing, is_target, script@)),
{
    push_bytes(out, input.previous_output_hash.as_slice());
    push_u32(out, input.previous_output_index);
    if for_signing {
        if is_target {
            push_bytes(out, script);
        } else {
            let empty: Vec<u8> = Vec::new();
            push_bytes(out, empty.as_slice());
            assert(empty@ =~= Seq::<u8>::empty());
        }
    } else {
        push_bytes(out, input.script_sig.as_slice());
    }
    assert(final(out)@ =~= old(out)@ + encode_input(form_input(input@, for_signing, is_target, script@)));
}

/// Encodes a transaction, or its signing form for input `index`.
fn encode_tx(tx: &Transaction, for_signing: bool, index: usize, script: &[u8]) -> (res: Vec<u8>)
    requires
        for_signing ==> index < tx.inputs.len(),
    ensures
        res@ == encoded_form(tx@, for_signing, index as int, script@),
{
    let ghost t = if for_signing { signing_form(tx@, index as int, script@) } else { tx@ };
    let mut out: Vec<u8> = Vec::new();
    let n = tx.inputs.len();
    push_u64(&mut out, n as u64);
    assert(t.inputs.take(0) =~= Seq::<InputModel>::empty());
    assert forall|j: int| 0 <= j < n implies #[trigger] t.inputs[j] == form_input(
        tx.inputs@[j]@,
        for_signing,
        j == index,
        script@,
    ) by {}
    let mut i: usize = 0;
    while i < n
        invariant
            n == tx.inputs.len(),
            n == t.inputs.len(),
            i <= n,
            forall|j: int| 0 <= j < n ==> #[trigger] t.inputs[j] == form_input(
                tx.inputs@[j]@,
                for_signing,
                j == index,
                script@,
            ),
            out@ == le_u64(n as u64) + encode_inputs(t.inputs.take(i as int)),
        decreases n - i,
    {
        push_input(&mut out, &tx.inputs[i], for_signing, i == index, script);
        proof {
            lemma_encode_inputs_step(t.inputs, i as int);
            assert(t.inputs[i as int] == form_input(tx.inputs@[i as int]@, for_signing, i == index, script@));
        }
        assert(out@ =~= le_u64(n as u64) + encode_inputs(t.inputs.take(i + 1)));
        i = i + 1;
    }
    assert(t.inputs.take(n as int) =~= t.inputs);
    let m = tx.outputs.len();
    push_u64(&mut out, m as u64);
    let ghost mid = out@;
    assert(t.outputs.take(0) =~= Seq::<OutputModel>::empty());
    let mut k: usize = 0;
    while k < m
        invariant
            m == tx.outputs.len(),
            m == t.outputs.len(),
            k <= m,
            t.outputs == tx@.outputs,
            out@ == mid + encode_outputs(t.outputs.take(k as int)),
        decreases m - k,
    {
        let output = &tx.outputs[k];
        push_u64(&mut out, output.amount);
        push_bytes(&mut out, output.script_pub_key.as_slice());
        proof {
            lemma_encode_outputs_step(t.outputs, k as int);
        }
        assert(out@ =~= mid + encode_outputs(t.outputs.take(k + 1)));
        k = k + 1;
    }
    assert(t.outputs.take(m as int) =~= t.outputs);
    push_bytes(&mut out, tx.txid.as_slice());
    assert(out@ =~= encode_transaction(t));
    out
}

impl Transaction {
    /// The bytes of this transaction that its hash is computed over.
    pub fn serialize(&self) -> (res: Vec<u8>)
        ensures
            res@ == encode_transaction(self@),
    {
        encode_tx(self, false, 0, &[])
    }

    /// Computes the transaction hash (txid).
    pub fn hash(&self) -> (res: Vec<u8>)
        ensures
            res@ == tx_hash(self@),
            res@.len() == 32,
    {
        let bytes = encode_tx(self, false, 0, &[]);
        double_sha256(bytes.as_slice())
    }

    /// The digest that is signed for input `index`, whose previous output
    /// has the locking script `script`.
    pub(crate) fn signing_hash(&self, index: usize, script: &[u8]) -> (res: Vec<u8>)
        requires
            index < self.inputs.len(),
        ensures
            res@ == signing_digest(self@, index as int, script@),
            res@.len() == 32,
    {
        let bytes = encode_tx(self, true, index, script);
        double_sha256(bytes.as_slice())
    }

    /// Creates a new transaction, its `txid` set to the hash of the
    /// transaction with an empty `txid`.
    pub fn new(inputs: Vec<TransactionInput>, outputs: Vec<TransactionOutput>) -> (res: Self)
        ensures
            res@ == new_transaction(inputs_model(inputs@), outputs_model(outputs@)),
    {
        let mut tx = Transaction { inputs, outputs, txid: Vec::new() };
        let id = tx.hash();
        tx.txid = id;
        tx
    }

    /// Computes the hash to be signed for a given input index: the double
    /// SHA-256 of the signing form, followed by the four little-endian bytes
    /// of `sighash_type`.
    pub fn signature_hash(&self, input_index: usize, prev_script_pub_key: &[u8], sighash_type: u32) -> (res: Result<Vec<u8>, String>)
        requires
            input_index < self.inputs.len(),
        ensures
            res matches Ok(h) && h@ == spec_double_sha256(
                encode_transaction(signing_form(self@, input_index as int, prev_script_pub_key@))
                    + le_u32(sighash_type),
            ),
    {
        let mut data = encode_tx(self, true, input_index, prev_script_pub_key);
        push_u32(&mut data, sighash_type);
        Ok(double_sha256(data.as_slice()))
    }
}

impl Clone for Transaction {
    fn clone(&self) -> (res: Self)
        ensures
            res@ == self@,
    {
        let mut inputs: Vec<TransactionInput> = Vec::new();
        let n = self.inputs.len();
        let mut i: usize = 0;
        while i < n
            invariant
                n == self.inputs.len(),
                i <= n,
                inputs@.len() == i,
                forall|j: int| 0 <= j < i ==> #[trigger] inputs@[j]@ == self.inputs@[j]@,
            decreases n - i,
        {
            inputs.push(self.inputs[i].clone());
            i = i + 1;
        }
        let mut outputs: Vec<TransactionOutput> = Vec::new();
        let m = self.outputs.len();
        let mut k: usize = 0;
        while k < m
            invariant
                m == self.outputs.len(),
                k <= m,
                outputs@.len() == k,
                forall|j: int| 0 <= j < k ==> #[trigger] outputs@[j]@ == self.outputs@[j]@,
            decreases m - k,
        {
            outputs.push(self.outputs[k].clone());
            k = k + 1;
        }
        let res = Transaction { inputs, outputs, txid: self.txid.clone() };
        assert(inputs_model(res.inputs@) =~= inputs_model(self.inputs@));
        assert(outputs_model(res.outputs@) =~= outputs_model(self.outputs@));
        res
    }
}


/// The script signature that pushes a signature and then a public key, each
/// preceded by its length as one byte.
pub open spec fn spec_build_script_sig(sig: Seq<u8>, pubkey: Seq<u8>) -> Seq<u8> {
    seq![sig.len() as u8] + sig + seq![pubkey.len() as u8] + pubkey
}

/// Why a script signature could not be parsed.
pub enum ScriptSigError {
    MissingSignatureLength,
    TruncatedSignature,
    MissingPublicKeyLength,
    TruncatedPublicKey,
}

impl ScriptSigError {
    pub open spec fn spec_message(self) -> Seq<char> {
        match self {
            ScriptSigError::MissingSignatureLength => "scriptSig too short to contain signature length"@,
            ScriptSigError::TruncatedSignature => "scriptSig too short to contain full signature"@,
            ScriptSigError::MissingPublicKeyLength => "scriptSig too short to contain public key length"@,
            ScriptSigError::TruncatedPublicKey => "scriptSig too short to contain full public key"@,
        }
    }
}

/// The signature and public key that a script signature pushes, or why it
/// does not parse. Bytes after the public key are ignored.
pub open spec fn spec_parse_script_sig(s: Seq<u8>) -> Result<(Seq<u8>, Seq<u8>), ScriptSigError> {
    if s.len() == 0 {
        Err(ScriptSigError::MissingSignatureLength)
    } else if 1 + s[0] > s.len() {
        Err(ScriptSigError::TruncatedSignature)
    } else if 1 + s[0] >= s.len() {
        Err(ScriptSigError::MissingPublicKeyLength)
    } else if 2 + s[0] + s[1 + s[0]] > s.len() {
        Err(ScriptSigError::TruncatedPublicKey)
    } else {
        let sig_end = 1 + s[0];
        Ok((s.subrange(1, sig_end), s.subrange(sig_end + 1, sig_end + 1 + s[sig_end])))
    }
}

/// Builds a scriptSig by pushing the signature and public key onto the stack.
pub fn build_script_sig(sig_bytes: &[u8], pubkey_bytes: &[u8]) -> (res: Vec<u8>)
    ensures
        res@ == spec_build_script_sig(sig_bytes@, pubkey_bytes@),
{
    let mut script_sig: Vec<u8> = Vec::new();
    script_sig.push(sig_bytes.len() as u8);
    script_sig.extend_from_slice(sig_bytes);
    script_sig.push(pubkey_bytes.len() as u8);
    script_sig.extend_from_slice(pubkey_bytes);
    assert(script_sig@ =~= spec_build_script_sig(sig_bytes@, pubkey_bytes@));
    script_sig
}

/// Parses the scriptSig to extract the signature and public key.
pub fn parse_script_sig(script_sig: &[u8]) -> (res: Result<(Vec<u8>, Vec<u8>), String>)
    ensures
        match spec_parse_script_sig(script_sig@) {
            Ok((sig, pk)) => res matches Ok((rs, rp)) && rs@ == sig && rp@ == pk,
            Err(e) => res matches Err(m) && m@ == e.spec_message(),
        },
{
    let len = script_sig.len();
    let mut offset: usize = 0;
    if offset >= len {
        return Err(String::from_str("scriptSig too short to contain signature length"));
    }
    let sig_len = script_sig[offset] as usize;
    offset = offset + 1;
    if offset + sig_len > len {
        return Err(String::from_str("scriptSig too short to contain full signature"));
    }
    let sig_bytes = copy_range(script_sig, offset, offset + sig_len);
    offset = offset + sig_len;
    if offset >= len {
        return Err(String::from_str("scriptSig too short to contain public key length"));
    }
    let pubkey_len = script_sig[offset] as usize;
    offset = offset + 1;
    if offset + pubkey_len > len {
        return Err(String::from_str("scriptSig too short to contain full public key"));
    }
    let pubkey_bytes = copy_range(script_sig, offset, offset + pubkey_len);
    Ok((sig_bytes, pubkey_bytes))
}

/// Law: parsing a built script signature gives back the signature and the
/// public key, when each is shorter than 256 bytes.
pub proof fn lemma_parse_build_script_sig(sig: Seq<u8>, pubkey: Seq<u8>)
    requires
        sig.len() < 256,
        pubkey.len() < 256,
    ensures
        spec_parse_script_sig(spec_build_script_sig(sig, pubkey)) == Ok::<(Seq<u8>, Seq<u8>), ScriptSigError>((sig, pubkey)),
{
    let s = spec_build_script_sig(sig, pubkey);
    assert(s[0] == sig.len());
    assert(s[1 + sig.len() as int] == pubkey.len());
    assert(s.subrange(1, 1 + sig.len() as int) =~= sig);
    assert(s.subrange(2 + sig.len() as int, 2 + sig.len() + pubkey.len() as int) =~= pubkey);
}

} // verus!
