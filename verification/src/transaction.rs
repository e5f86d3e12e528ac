//! Transactions as the bridge builds and reads them, and their wire format.

use vstd::prelude::*;
use crate::env::{i32_le_bytes, u32_le_bytes, u64_le_bytes, write_u32_le, write_u64_le};
use crate::hash::{append_bytes, double_sha256_spec};

verus! {

/// A reference to an output of a transaction. The transaction id is kept in
/// the order in which it is hashed and serialised.
#[derive(Clone, Copy, Debug, PartialEq, Eq, Hash)]
pub struct OutPoint {
    pub txid: [u8; 32],
    pub vout: u32,
}

/// An input of a transaction.
#[derive(Clone, Debug)]
pub struct TxIn {
    pub previous_output: OutPoint,
    pub script_sig: Vec<u8>,
    pub sequence: u32,
    pub witness: Vec<Vec<u8>>,
}

/// An output of a transaction: a value in satoshis and the script that
/// guards it.
#[derive(Clone, Debug)]
pub struct TxOut {
    pub value: u64,
    pub script_pubkey: Vec<u8>,
}

/// A transaction.
#[derive(Clone, Debug)]
pub struct Transaction {
    pub version: i32,
    pub lock_time: u32,
    pub input: Vec<TxIn>,
    pub output: Vec<TxOut>,
}

/// An outpoint as a pair of plain values.
pub struct OutPointView {
    pub txid: Seq<u8>,
    pub vout: u32,
}

/// An input as plain values.
pub struct TxInView {
    pub previous_output: OutPointView,
    pub script_sig: Seq<u8>,
    pub sequence: u32,
    pub witness: Seq<Seq<u8>>,
}

/// An output as plain values.
pub struct TxOutView {
    pub value: u64,
    pub script_pubkey: Seq<u8>,
}

/// A transaction as plain values.
pub struct TransactionView {
    pub version: i32,
    pub lock_time: u32,
    pub input: Seq<TxInView>,
    pub output: Seq<TxOutView>,
}

impl View for OutPoint {
    type V = OutPointView;

    open spec fn view(&self) -> OutPointView {
        OutPointView { txid: self.txid@, vout: self.vout }
    }
}

impl DeepView for OutPoint {
    type V = OutPointView;

    open spec fn deep_view(&self) -> OutPointView {
        self@
    }
}

impl DeepView for TxIn {
    type V = TxInView;

    open spec fn deep_view(&self) -> TxInView {
        TxInView {
            previous_output: self.previous_output@,
            script_sig: self.script_sig@,
            sequence: self.sequence,
            witness: self.witness.deep_view(),
        }
    }
}

impl DeepView for TxOut {
    type V = TxOutView;

    open spec fn deep_view(&self) -> TxOutView {
        TxOutView { value: self.value, script_pubkey: self.script_pubkey@ }
    }
}

impl DeepView for Transaction {
    type V = TransactionView;

    open spec fn deep_view(&self) -> TransactionView {
        TransactionView {
            version: self.version,
            lock_time: self.lock_time,
            input: self.input.deep_view(),
            output: self.output.deep_view(),
        }
    }
}

/// Two outpoints with the same view are the same.
pub proof fn lemma_outpoint_view_injective(a: OutPoint, b: OutPoint)
    requires
        a@ == b@,
    ensures
        a == b,
{
    assert(a.txid =~= b.txid);
}

/// Bitcoin's variable-length encoding of a count or a length.
pub open spec fn compact_size(n: nat) -> Seq<u8> {
    if n < 0xfd {
        seq![n as u8]
    } else if n <= 0xffff {
        seq![0xfdu8, (n % 256) as u8, (n / 256) as u8]
    } else if n <= 0xffff_ffff {
        seq![0xfeu8] + u32_le_bytes(n as u32)
    } else {
        seq![0xffu8] + u64_le_bytes(n as u64)
    }
}

/// A byte string with its length in front.
pub open spec fn var_bytes(bytes: Seq<u8>) -> Seq<u8> {
    compact_size(bytes.len()) + bytes
}

/// An outpoint on the wire: the transaction id, then the output's number.
pub open spec fn outpoint_bytes(outpoint: OutPointView) -> Seq<u8> {
    outpoint.txid + u32_le_bytes(outpoint.vout)
}

/// An input on the wire, without its witness.
pub open spec fn txin_bytes(input: TxInView) -> Seq<u8> {
    outpoint_bytes(input.previous_output) + var_bytes(input.script_sig) + u32_le_bytes(
        input.sequence,
    )
}

/// An output on the wire.
pub open spec fn txout_bytes(output: TxOutView) -> Seq<u8> {
    u64_le_bytes(output.value) + var_bytes(output.script_pubkey)
}

/// The inputs on the wire, one after the other.
pub open spec fn inputs_bytes(inputs: Seq<TxInView>) -> Seq<u8>
    decreases inputs.len(),
{
    if inputs.len() == 0 {
        Seq::empty()
    } else {
        inputs_bytes(inputs.drop_last()) + txin_bytes(inputs.last())
    }
}

/// The outputs on the wire, one after the other.
pub open spec fn outputs_bytes(outputs: Seq<TxOutView>) -> Seq<u8>
    decreases outputs.len(),
{
    if outputs.len() == 0 {
        Seq::empty()
    } else {
        outputs_bytes(outputs.drop_last()) + txout_bytes(outputs.last())
    }
}

/// The items of a witness stack on the wire, each with its length in front.
pub open spec fn stack_items_bytes(items: Seq<Seq<u8>>) -> Seq<u8>
    decreases items.len(),
{
    if items.len() == 0 {
        Seq::empty()
    } else {
        stack_items_bytes(items.drop_last()) + var_bytes(items.last())
    }
}

/// A witness stack on the wire: the number of items, then the items.
pub open spec fn witness_bytes(items: Seq<Seq<u8>>) -> Seq<u8> {
    compact_size(items.len()) + stack_items_bytes(items)
}

/// The witness stacks of the inputs on the wire, one after the other.
pub open spec fn witnesses_bytes(inputs: Seq<TxInView>) -> Seq<u8>
    decreases inputs.len(),
{
    if inputs.len() == 0 {
        Seq::empty()
    } else {
        witnesses_bytes(inputs.drop_last()) + witness_bytes(inputs.last().witness)
    }
}

/// Whether an input carries a witness.
pub open spec fn has_witness(inputs: Seq<TxInView>) -> bool {
    exists|i: int| 0 <= i < inputs.len() && (#[trigger] inputs[i]).witness.len() > 0
}

/// The serialisation that a transaction's id is the hash of: version,
/// inputs, outputs and lock time, without witnesses.
pub open spec fn legacy_bytes(tx: TransactionView) -> Seq<u8> {
    i32_le_bytes(tx.version) + compact_size(tx.input.len()) + inputs_bytes(tx.input) + compact_size(
        tx.output.len(),
    ) + outputs_bytes(tx.output) + u32_le_bytes(tx.lock_time)
}

/// Whether a transaction is sent with the segwit marker and its witness
/// stacks: where an input has a witness, and where there is no input at
/// all, in which case the plain form could not be told from the marker.
pub open spec fn has_segwit_form(inputs: Seq<TxInView>) -> bool {
    has_witness(inputs) || inputs.len() == 0
}

/// The serialisation in which a transaction is sent: with the segwit marker
/// and the witness stacks where it has the segwit form, and without them
/// where it has not.
pub open spec fn wire_bytes(tx: TransactionView) -> Seq<u8> {
    if has_segwit_form(tx.input) {
        i32_le_bytes(tx.version) + seq![0x00u8, 0x01u8] + compact_size(tx.input.len())
            + inputs_bytes(tx.input) + compact_size(tx.output.len()) + outputs_bytes(tx.output)
            + witnesses_bytes(tx.input) + u32_le_bytes(tx.lock_time)
    } else {
        legacy_bytes(tx)
    }
}

/// The id of a transaction: the double SHA-256 of its serialisation without
/// witnesses.
pub open spec fn txid_of(tx: TransactionView) -> Seq<u8> {
    double_sha256_spec(legacy_bytes(tx))
}

/// Inputs that differ in their witnesses only are the same on the wire.
pub proof fn lemma_inputs_bytes_ignore_witness(a: Seq<TxInView>, b: Seq<TxInView>)
    requires
        a.len() == b.len(),
        forall|i: int| 0 <= i < a.len() ==> txin_bytes(#[trigger] a[i]) == txin_bytes(b[i]),
    ensures
        inputs_bytes(a) == inputs_bytes(b),
    decreases a.len(),
{
    if a.len() > 0 {
        assert forall|i: int| 0 <= i < a.drop_last().len() implies txin_bytes(
            #[trigger] a.drop_last()[i],
        ) == txin_bytes(b.drop_last()[i]) by {
            assert(a.drop_last()[i] == a[i]);
            assert(b.drop_last()[i] == b[i]);
            assert(txin_bytes(a[i]) == txin_bytes(b[i]));
        }
        lemma_inputs_bytes_ignore_witness(a.drop_last(), b.drop_last());
        assert(txin_bytes(a[a.len() - 1]) == txin_bytes(b[a.len() - 1]));
    }
}

/// The id of a transaction does not depend on its witnesses.
pub proof fn lemma_txid_ignores_witness(tx: TransactionView, index: int, witness: Seq<Seq<u8>>)
    requires
        0 <= index < tx.input.len(),
    ensures
        txid_of(
            TransactionView {
                version: tx.version,
                lock_time: tx.lock_time,
                input: tx.input.update(
                    index,
                    TxInView {
                        previous_output: tx.input[index].previous_output,
                        script_sig: tx.input[index].script_sig,
                        sequence: tx.input[index].sequence,
                        witness,
                    },
                ),
                output: tx.output,
            },
        ) == txid_of(tx),
{
    let replaced = tx.input.update(
        index,
        TxInView {
            previous_output: tx.input[index].previous_output,
            script_sig: tx.input[index].script_sig,
            sequence: tx.input[index].sequence,
            witness,
        },
    );
    assert forall|i: int| 0 <= i < replaced.len() implies txin_bytes(#[trigger] replaced[i])
        == txin_bytes(tx.input[i]) by {}
    lemma_inputs_bytes_ignore_witness(replaced, tx.input);
}

/// A copy of a byte string.
pub fn copy_bytes(bytes: &[u8]) -> (copy: Vec<u8>)
    ensures
        copy@ == bytes@,
{
    let mut copy: Vec<u8> = Vec::new();
    append_bytes(&mut copy, bytes);
    assert(copy@ =~= bytes@);
    copy
}

/// Appends the variable-length encoding of `n`.
pub fn write_compact_size(buf: &mut Vec<u8>, n: u64)
    ensures
        final(buf)@ == old(buf)@ + compact_size(n as nat),
{
    if n < 0xfd {
        buf.push(n as u8);
        assert(buf@ =~= old(buf)@ + compact_size(n as nat));
    } else if n <= 0xffff {
        buf.push(0xfd);
        buf.push((n % 256) as u8);
        buf.push((n / 256) as u8);
        assert(buf@ =~= old(buf)@ + compact_size(n as nat));
    } else if n <= 0xffff_ffff {
        buf.push(0xfe);
        write_u32_le(buf, n as u32);
        assert(buf@ =~= old(buf)@ + compact_size(n as nat));
    } else {
        buf.push(0xff);
        write_u64_le(buf, n);
        assert(buf@ =~= old(buf)@ + compact_size(n as nat));
    }
}

/// Appends a byte string with its length in front.
pub fn write_var_bytes(buf: &mut Vec<u8>, bytes: &[u8])
    ensures
        final(buf)@ == old(buf)@ + var_bytes(bytes@),
{
    write_compact_size(buf, bytes.len() as u64);
    append_bytes(buf, bytes);
    assert(buf@ =~= old(buf)@ + var_bytes(bytes@));
}

impl TxOut {
    /// Appends the output as it stands on the wire.
    pub fn write_to(&self, buf: &mut Vec<u8>)
        ensures
            final(buf)@ == old(buf)@ + txout_bytes(self.deep_view()),
    {
        write_u64_le(buf, self.value);
        write_var_bytes(buf, self.script_pubkey.as_slice());
        assert(buf@ =~= old(buf)@ + txout_bytes(self.deep_view()));
    }
}

/// Appends the outputs as they stand on the wire.
pub fn write_outputs(buf: &mut Vec<u8>, outputs: &Vec<TxOut>)
    ensures
        final(buf)@ == old(buf)@ + outputs_bytes(outputs.deep_view()),
{
    let ghost all = outputs.deep_view();
    let ghost start = buf@;
    let mut i: usize = 0;
    assert(all.take(0) == Seq::<TxOutView>::empty());
    assert(start + Seq::<u8>::empty() =~= start);
    while i < outputs.len()
        invariant
            i <= outputs@.len(),
            all == outputs.deep_view(),
            all.len() == outputs@.len(),
            buf@ == start + outputs_bytes(all.take(i as int)),
        decreases outputs@.len() - i,
    {
        proof {
            let front = all.take(i + 1);
            assert(front.drop_last() == all.take(i as int));
            assert(front.last() == outputs@[i as int].deep_view());
        }
        outputs[i].write_to(buf);
        i = i + 1;
        assert(buf@ =~= start + outputs_bytes(all.take(i as int)));
    }
    assert(all.take(i as int) == all);
}

/// Calls `bitcoin::consensus::serialize` on the transaction, its fields
/// copied one for one into a `bitcoin::Transaction`. The crate writes the
/// version, then, in the segwit form, the marker and the flag, then the
/// inputs and the outputs, each list with its length in front, then, in the
/// segwit form, the witness stacks, then the lock time.
#[verifier::external_body]
fn consensus_serialize(tx: &Transaction) -> (bytes: Vec<u8>)
    ensures
        bytes@ == wire_bytes(tx.deep_view()),
{
    let input = tx.input.iter().map(|i| bitcoin::TxIn {
        previous_output: bitcoin::OutPoint::new(bitcoin::hashes::Hash::from_byte_array(i.previous_output.txid), i.previous_output.vout),
        script_sig: i.script_sig.clone().into(),
        sequence: bitcoin::Sequence(i.sequence),
        witness: i.witness.clone().into(),
    }).collect();
    let output = tx.output.iter().map(|o| bitcoin::TxOut { value: bitcoin::Amount::from_sat(o.value), script_pubkey: o.script_pubkey.clone().into() }).collect();
    bitcoin::consensus::serialize(&bitcoin::Transaction { version: bitcoin::transaction::Version(tx.version), lock_time: bitcoin::absolute::LockTime::from_consensus(tx.lock_time), input, output })
}

/// Calls `bitcoin::Transaction::txid` on the transaction, its fields copied
/// one for one into a `bitcoin::Transaction`. The crate hashes, with SHA-256
/// twice, the version, the inputs and the outputs, each list with its
/// length in front, and the lock time: the witnesses are left out.
#[verifier::external_body]
fn consensus_txid(tx: &Transaction) -> (txid: [u8; 32])
    ensures
        txid@ == txid_of(tx.deep_view()),
{
    let input = tx.input.iter().map(|i| bitcoin::TxIn {
        previous_output: bitcoin::OutPoint::new(bitcoin::hashes::Hash::from_byte_array(i.previous_output.txid), i.previous_output.vout),
        script_sig: i.script_sig.clone().into(),
        sequence: bitcoin::Sequence(i.sequence),
        witness: i.witness.clone().into(),
    }).collect();
    let output = tx.output.iter().map(|o| bitcoin::TxOut { value: bitcoin::Amount::from_sat(o.value), script_pubkey: o.script_pubkey.clone().into() }).collect();
    bitcoin::hashes::Hash::to_byte_array(bitcoin::Transaction { version: bitcoin::transaction::Version(tx.version), lock_time: bitcoin::absolute::LockTime::from_consensus(tx.lock_time), input, output }.txid())
}

impl Transaction {
    /// The serialisation in which the transaction is sent.
    pub fn serialize(&self) -> (bytes: Vec<u8>)
        ensures
            bytes@ == wire_bytes(self.deep_view()),
    {
        consensus_serialize(self)
    }

    /// The transaction's id.
    pub fn txid(&self) -> (txid: [u8; 32])
        ensures
            txid@ == txid_of(self.deep_view()),
    {
        consensus_txid(self)
    }
}

} // verus!
