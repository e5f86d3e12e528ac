//! Constructors for the tapscripts and outputs used by the bridge.

use vstd::prelude::*;
use crate::hash::sha256;
use crate::transaction::TxOut;
use crate::views::lemma_array_deep_view;

verus! {

pub const OP_FALSE: u8 = 0x00;

pub const OP_TRUE: u8 = 0x51;

pub const OP_IF: u8 = 0x63;

pub const OP_ENDIF: u8 = 0x68;

pub const OP_RETURN: u8 = 0x6a;

pub const OP_DROP: u8 = 0x75;

pub const OP_EQUAL: u8 = 0x87;

pub const OP_EQUALVERIFY: u8 = 0x88;

pub const OP_SHA256: u8 = 0xa8;

pub const OP_CHECKSIG: u8 = 0xac;

pub const OP_CHECKSIGVERIFY: u8 = 0xad;

pub const OP_CLTV: u8 = 0xb1;

pub const OP_CSV: u8 = 0xb2;

/// The instruction that pushes `data`, for data short enough to be pushed
/// with its length as the opcode.
pub open spec fn push_data(data: Seq<u8>) -> Seq<u8> {
    seq![data.len() as u8] + data
}

/// A positive number as a script number: little-endian, with as few bytes
/// as leave the top bit, the sign, clear.
pub open spec fn script_number_bytes(n: nat) -> Seq<u8>
    decreases n,
{
    if n == 0 {
        Seq::empty()
    } else if n < 0x80 {
        seq![n as u8]
    } else if n < 0x100 {
        seq![n as u8, 0u8]
    } else {
        seq![(n % 256) as u8] + script_number_bytes(n / 256)
    }
}

/// The instruction that pushes a number that is not negative: the opcodes
/// for zero and for one to sixteen, and a data push of the script number
/// otherwise.
pub open spec fn script_int_push(n: nat) -> Seq<u8> {
    if n == 0 {
        seq![0x00u8]
    } else if n <= 16 {
        seq![(0x50 + n) as u8]
    } else {
        push_data(script_number_bytes(n))
    }
}

/// One signature check per key, in the order of the keys:
/// `<key> OP_CHECKSIGVERIFY`.
pub open spec fn n_of_n_checks(keys: Seq<Seq<u8>>) -> Seq<u8>
    decreases keys.len(),
{
    if keys.len() == 0 {
        Seq::empty()
    } else {
        n_of_n_checks(keys.drop_last()) + push_data(keys.last()) + seq![OP_CHECKSIGVERIFY]
    }
}

/// The script that every key must sign: the checks, then `OP_TRUE`.
pub open spec fn n_of_n_script(keys: Seq<Seq<u8>>) -> Seq<u8> {
    n_of_n_checks(keys) + seq![OP_TRUE]
}

/// The script that every key and the user must sign.
pub open spec fn n_of_n_with_user_script(keys: Seq<Seq<u8>>, user_pk: Seq<u8>) -> Seq<u8> {
    n_of_n_checks(keys) + push_data(user_pk) + seq![OP_CHECKSIGVERIFY, OP_TRUE]
}

/// The script that every key must sign and that asks for the preimage of
/// `hash` first: `OP_SHA256 <hash> OP_EQUALVERIFY`, then the checks.
pub open spec fn n_of_n_with_hash_script(keys: Seq<Seq<u8>>, hash: Seq<u8>) -> Seq<u8> {
    seq![OP_SHA256] + push_data(hash) + seq![OP_EQUALVERIFY] + n_of_n_script(keys)
}

/// `<blocks> OP_CSV OP_DROP <key> OP_CHECKSIG`: the key may sign once the
/// output is `blocks` blocks old.
pub open spec fn timelock_script(actor_pk: Seq<u8>, block_count: u32) -> Seq<u8> {
    script_int_push(block_count as nat) + seq![OP_CSV, OP_DROP] + push_data(actor_pk) + seq![
        OP_CHECKSIG,
    ]
}

/// `<height> OP_CLTV OP_DROP <key> OP_CHECKSIG`: the key may sign from the
/// given height on.
pub open spec fn absolute_timelock_script(actor_pk: Seq<u8>, block_count: u32) -> Seq<u8> {
    script_int_push(block_count as nat) + seq![OP_CLTV, OP_DROP] + push_data(actor_pk) + seq![
        OP_CHECKSIG,
    ]
}

/// The pushes of the chunks, one after the other.
pub open spec fn chunk_pushes(chunks: Seq<Seq<u8>>) -> Seq<u8>
    decreases chunks.len(),
{
    if chunks.len() == 0 {
        Seq::empty()
    } else {
        chunk_pushes(chunks.drop_last()) + push_data(chunks.last())
    }
}

/// The inscription envelope: `<key> OP_CHECKSIG OP_FALSE OP_IF`, one push
/// per chunk, `OP_ENDIF`.
pub open spec fn inscription_script(public_key: Seq<u8>, chunks: Seq<Seq<u8>>) -> Seq<u8> {
    push_data(public_key) + seq![OP_CHECKSIG, OP_FALSE, OP_IF] + chunk_pushes(chunks) + seq![
        OP_ENDIF,
    ]
}

/// `OP_SHA256 <hash> OP_EQUAL`.
pub open spec fn hash_script(hash: Seq<u8>) -> Seq<u8> {
    seq![OP_SHA256] + push_data(hash) + seq![OP_EQUAL]
}

/// `OP_RETURN <address>`.
pub open spec fn dust_script(evm_address: Seq<u8>) -> Seq<u8> {
    seq![OP_RETURN] + push_data(evm_address)
}

/// The output script that pays to the SHA-256 of a witness script:
/// version 0, then the 32-byte hash.
pub open spec fn p2wsh_script(witness_script: Seq<u8>) -> Seq<u8> {
    seq![0x00u8, 0x20u8] + sha256(witness_script)
}

/// Whether an output script is a witness program: a version, which is
/// `OP_0` or one of `OP_1` to `OP_16`, and one push of 2 to 40 bytes.
pub open spec fn is_witness_program(script_pubkey: Seq<u8>) -> bool {
    &&& 4 <= script_pubkey.len() <= 42
    &&& script_pubkey[0] == 0x00 || 0x51 <= script_pubkey[0] <= 0x60
    &&& 2 <= script_pubkey[1] <= 40
    &&& script_pubkey.len() - 2 == script_pubkey[1]
}

/// The number of bytes that a script of `n` bytes takes in an output: its
/// length, then the script.
pub open spec fn script_size_in_output(n: nat) -> nat {
    n + if n < 0xfd {
        1nat
    } else if n <= 0xffff {
        3nat
    } else if n <= 0xffff_ffff {
        5nat
    } else {
        9nat
    }
}

/// The least value, in satoshis, that an output with the given script
/// should hold to be relayed: three satoshis for every byte of the output
/// and of the input that will spend it, which is taken to be 67 bytes for a
/// witness program and 148 bytes otherwise; nothing for an output that
/// begins with `OP_RETURN`.
pub open spec fn dust_value(script_pubkey: Seq<u8>) -> nat {
    if script_pubkey.len() > 0 && script_pubkey[0] == OP_RETURN {
        0
    } else if is_witness_program(script_pubkey) {
        3 * (67 + 8 + script_size_in_output(script_pubkey.len()))
    } else {
        3 * (148 + 8 + script_size_in_output(script_pubkey.len()))
    }
}

/// An output that pays to the hash of a witness script should hold 330
/// satoshis.
pub proof fn lemma_p2wsh_dust_value(witness_script: Seq<u8>)
    requires
        sha256(witness_script).len() == 32,
    ensures
        dust_value(p2wsh_script(witness_script)) == 330,
{
    let script = p2wsh_script(witness_script);
    assert(script.len() == 34);
    assert(script[0] == 0x00 && script[1] == 0x20);
}

/// `bitcoin::script::Builder`, a script under construction. Nothing is
/// known of a builder but the bytes it has accumulated.
#[verifier::external_type_specification]
#[verifier::external_body]
pub struct ExBuilder(bitcoin::script::Builder);

/// The bytes of the script that a builder has accumulated so far.
pub uninterp spec fn builder_bytes(b: bitcoin::script::Builder) -> Seq<u8>;

/// Calls `bitcoin::script::Builder::new`: a builder holding the empty script.
#[verifier::external_body]
fn builder_new() -> (b: bitcoin::script::Builder)
    ensures
        builder_bytes(b) == Seq::<u8>::empty(),
{
    bitcoin::script::Builder::new()
}

/// Calls `bitcoin::script::Builder::push_opcode`, which appends the single
/// byte of the opcode.
#[verifier::external_body]
fn builder_push_opcode(b: bitcoin::script::Builder, opcode: u8) -> (r: bitcoin::script::Builder)
    ensures
        builder_bytes(r) == builder_bytes(b).push(opcode),
{
    b.push_opcode(bitcoin::opcodes::Opcode::from(opcode))
}

/// Calls `bitcoin::script::Builder::push_slice`. For data of under 76 bytes
/// it appends the length as one byte, then the data.
#[verifier::external_body]
fn builder_push_slice(b: bitcoin::script::Builder, data: &[u8]) -> (r: bitcoin::script::Builder)
    requires
        data@.len() < 76,
    ensures
        builder_bytes(r) == builder_bytes(b) + push_data(data@),
{
    let bytes: &bitcoin::script::PushBytes = data.try_into().expect("a short push");
    b.push_slice(bytes)
}

/// Calls `bitcoin::script::Builder::push_int` with a number that is not
/// negative. It appends `OP_0` for zero, `OP_1` to `OP_16` for one to
/// sixteen, and otherwise a push of the number as a script number.
#[verifier::external_body]
fn builder_push_int(b: bitcoin::script::Builder, value: u32) -> (r: bitcoin::script::Builder)
    ensures
        builder_bytes(r) == builder_bytes(b) + script_int_push(value as nat),
{
    b.push_int(i64::from(value))
}

/// Calls `bitcoin::script::Builder::into_bytes`, which hands out the
/// accumulated script unchanged.
#[verifier::external_body]
fn builder_into_bytes(b: bitcoin::script::Builder) -> (script: Vec<u8>)
    ensures
        script@ == builder_bytes(b),
{
    b.into_bytes()
}

/// Calls `bitcoin::Script::to_p2wsh`: the version-0 witness program of the
/// SHA-256 of the script, 34 bytes in all.
#[verifier::external_body]
fn script_to_p2wsh(witness_script: &[u8]) -> (script_pubkey: Vec<u8>)
    ensures
        script_pubkey@ == p2wsh_script(witness_script@),
        script_pubkey@.len() == 34,
{
    bitcoin::Script::from_bytes(witness_script).to_p2wsh().into_bytes()
}

/// Calls `bitcoin::Script::dust_value`, which charges three satoshis for
/// every byte of the output and of the input that will spend it: for the
/// input 67 bytes where the script is a witness program and 148 bytes
/// otherwise, and nothing at all where the script begins with `OP_RETURN`.
#[verifier::external_body]
fn script_dust_value(script_pubkey: &[u8]) -> (value: u64)
    ensures
        value == dust_value(script_pubkey@),
{
    bitcoin::Script::from_bytes(script_pubkey).dust_value().to_sat()
}

/// Appends `<key> OP_CHECKSIGVERIFY` for each key.
fn push_n_of_n_checks(b: bitcoin::script::Builder, keys: &Vec<[u8; 32]>) -> (r:
    bitcoin::script::Builder)
    ensures
        builder_bytes(r) == builder_bytes(b) + n_of_n_checks(keys.deep_view()),
{
    let ghost all = keys.deep_view();
    let ghost start = builder_bytes(b);
    let mut builder = b;
    let mut i: usize = 0;
    assert(all.take(0) == Seq::<Seq<u8>>::empty());
    assert(start + Seq::<u8>::empty() =~= start);
    while i < keys.len()
        invariant
            i <= keys@.len(),
            all == keys.deep_view(),
            all.len() == keys@.len(),
            builder_bytes(builder) == start + n_of_n_checks(all.take(i as int)),
        decreases keys@.len() - i,
    {
        proof {
            let front = all.take(i + 1);
            assert(front.drop_last() == all.take(i as int));
            assert(front.last() == keys@[i as int]@);
        }
        let ghost before = builder_bytes(builder);
        builder = builder_push_slice(builder, keys[i].as_slice());
        builder = builder_push_opcode(builder, OP_CHECKSIGVERIFY);
        i = i + 1;
        assert(builder_bytes(builder) =~= start + n_of_n_checks(all.take(i as int)));
    }
    assert(all.take(i as int) == all);
    builder
}

/// Builds the scripts of a fixed set of verifiers.
#[derive(Debug, Clone)]
pub struct ScriptBuilder {
    pub verifiers_pks: Vec<[u8; 32]>,
}

impl ScriptBuilder {
    /// A builder for the given verifier keys, in that order.
    pub fn new(verifiers_pks: Vec<[u8; 32]>) -> (builder: ScriptBuilder)
        ensures
            builder.verifiers_pks == verifiers_pks,
    {
        ScriptBuilder { verifiers_pks }
    }

    /// An output that anyone can spend: it pays the dust value to the
    /// witness script `OP_TRUE`.
    pub fn anyone_can_spend_txout() -> (txout: TxOut)
        ensures
            txout.script_pubkey@ == p2wsh_script(seq![OP_TRUE]),
            txout.value == dust_value(txout.script_pubkey@),
            txout.value == 330,
    {
        let builder = builder_push_opcode(builder_new(), OP_TRUE);
        let script = builder_into_bytes(builder);
        assert(script@ =~= seq![OP_TRUE]);
        let script_pubkey = script_to_p2wsh(script.as_slice());
        let value = script_dust_value(script_pubkey.as_slice());
        proof {
            lemma_p2wsh_dust_value(script@);
        }
        TxOut { script_pubkey, value }
    }

    /// An output that marks a transaction for the rollup with an address:
    /// it pays the dust value to the witness script `OP_RETURN <address>`.
    pub fn op_return_txout(evm_address: &[u8; 20]) -> (txout: TxOut)
        ensures
            txout.script_pubkey@ == p2wsh_script(dust_script(evm_address@)),
            txout.value == dust_value(txout.script_pubkey@),
            txout.value == 330,
    {
        let script = ScriptBuilder::generate_dust_script(evm_address);
        let script_pubkey = script_to_p2wsh(script.as_slice());
        let value = script_dust_value(script_pubkey.as_slice());
        proof {
            lemma_p2wsh_dust_value(script@);
        }
        TxOut { script_pubkey, value }
    }

    /// The script that every verifier must sign.
    pub fn generate_script_n_of_n(&self) -> (script: Vec<u8>)
        ensures
            script@ == n_of_n_script(self.verifiers_pks.deep_view()),
    {
        let builder = push_n_of_n_checks(builder_new(), &self.verifiers_pks);
        let builder = builder_push_opcode(builder, OP_TRUE);
        let script = builder_into_bytes(builder);
        assert(script@ =~= n_of_n_script(self.verifiers_pks.deep_view()));
        script
    }

    /// The script that every verifier and the user must sign.
    pub fn generate_script_n_of_n_with_user_pk(&self, user_pk: &[u8; 32]) -> (script: Vec<u8>)
        ensures
            script@ == n_of_n_with_user_script(self.verifiers_pks.deep_view(), user_pk@),
    {
        let builder = push_n_of_n_checks(builder_new(), &self.verifiers_pks);
        let builder = builder_push_slice(builder, user_pk.as_slice());
        let builder = builder_push_opcode(builder, OP_CHECKSIGVERIFY);
        let builder = builder_push_opcode(builder, OP_TRUE);
        let script = builder_into_bytes(builder);
        assert(script@ =~= n_of_n_with_user_script(self.verifiers_pks.deep_view(), user_pk@));
        script
    }

    /// The script that every verifier must sign and that asks for the
    /// preimage of `hash`.
    pub fn generate_script_n_of_n_with_hash(&self, hash: &[u8; 32]) -> (script: Vec<u8>)
        ensures
            script@ == n_of_n_with_hash_script(self.verifiers_pks.deep_view(), hash@),
    {
        let builder = builder_push_opcode(builder_new(), OP_SHA256);
        let builder = builder_push_slice(builder, hash.as_slice());
        let builder = builder_push_opcode(builder, OP_EQUALVERIFY);
        let builder = push_n_of_n_checks(builder, &self.verifiers_pks);
        let builder = builder_push_opcode(builder, OP_TRUE);
        let script = builder_into_bytes(builder);
        assert(script@ =~= n_of_n_with_hash_script(self.verifiers_pks.deep_view(), hash@));
        script
    }

    /// The inscription envelope that publishes `data` under a signature of
    /// `public_key`, each element as one 32-byte push.
    pub fn create_inscription_script_32_bytes(public_key: &[u8; 32], data: &Vec<[u8; 32]>) -> (script:
        Vec<u8>)
        ensures
            script@ == inscription_script(public_key@, data.deep_view()),
    {
        let ghost all = data.deep_view();
        let builder = builder_push_slice(builder_new(), public_key.as_slice());
        let builder = builder_push_opcode(builder, OP_CHECKSIG);
        let builder = builder_push_opcode(builder, OP_FALSE);
        let mut builder = builder_push_opcode(builder, OP_IF);
        let ghost start = builder_bytes(builder);
        assert(start =~= push_data(public_key@) + seq![OP_CHECKSIG, OP_FALSE, OP_IF]);
        let mut i: usize = 0;
        assert(all.take(0) == Seq::<Seq<u8>>::empty());
        assert(start + Seq::<u8>::empty() =~= start);
        while i < data.len()
            invariant
                i <= data@.len(),
                all == data.deep_view(),
                all.len() == data@.len(),
                builder_bytes(builder) == start + chunk_pushes(all.take(i as int)),
            decreases data@.len() - i,
        {
            proof {
                let front = all.take(i + 1);
                assert(front.drop_last() == all.take(i as int));
                assert(front.last() == data@[i as int]@);
            }
            builder = builder_push_slice(builder, data[i].as_slice());
            i = i + 1;
            assert(builder_bytes(builder) =~= start + chunk_pushes(all.take(i as int)));
        }
        assert(all.take(i as int) == all);
        let builder = builder_push_opcode(builder, OP_ENDIF);
        let script = builder_into_bytes(builder);
        assert(script@ =~= inscription_script(public_key@, all));
        script
    }

    /// The script under which `actor_pk` may spend an output once it is
    /// `block_count` blocks old. To spend, the input's sequence number must
    /// be at least `block_count` and the output at least as many blocks old.
    pub fn generate_timelock_script(actor_pk: &[u8; 32], block_count: u32) -> (script: Vec<u8>)
        ensures
            script@ == timelock_script(actor_pk@, block_count),
    {
        let builder = builder_push_int(builder_new(), block_count);
        let builder = builder_push_opcode(builder, OP_CSV);
        let builder = builder_push_opcode(builder, OP_DROP);
        let builder = builder_push_slice(builder, actor_pk.as_slice());
        let builder = builder_push_opcode(builder, OP_CHECKSIG);
        let script = builder_into_bytes(builder);
        assert(script@ =~= timelock_script(actor_pk@, block_count));
        script
    }

    /// The script under which `actor_pk` may spend an output from the
    /// height `block_count` on.
    pub fn generate_absolute_timelock_script(actor_pk: &[u8; 32], block_count: u32) -> (script: Vec<
        u8,
    >)
        ensures
            script@ == absolute_timelock_script(actor_pk@, block_count),
    {
        let builder = builder_push_int(builder_new(), block_count);
        let builder = builder_push_opcode(builder, OP_CLTV);
        let builder = builder_push_opcode(builder, OP_DROP);
        let builder = builder_push_slice(builder, actor_pk.as_slice());
        let builder = builder_push_opcode(builder, OP_CHECKSIG);
        let script = builder_into_bytes(builder);
        assert(script@ =~= absolute_timelock_script(actor_pk@, block_count));
        script
    }

    /// The script that the preimage of `hash` satisfies.
    pub fn generate_hash_script(hash: [u8; 32]) -> (script: Vec<u8>)
        ensures
            script@ == hash_script(hash@),
    {
        let builder = builder_push_opcode(builder_new(), OP_SHA256);
        let builder = builder_push_slice(builder, hash.as_slice());
        let builder = builder_push_opcode(builder, OP_EQUAL);
        let script = builder_into_bytes(builder);
        assert(script@ =~= hash_script(hash@));
        script
    }

    /// The script that carries an address of the rollup and can never be
    /// spent.
    pub fn generate_dust_script(evm_address: &[u8; 20]) -> (script: Vec<u8>)
        ensures
            script@ == dust_script(evm_address@),
    {
        let builder = builder_push_opcode(builder_new(), OP_RETURN);
        let builder = builder_push_slice(builder, evm_address.as_slice());
        let script = builder_into_bytes(builder);
        assert(script@ =~= dust_script(evm_address@));
        script
    }
}

/// Whether the script is an inscription envelope of 32-byte chunks under a
/// 32-byte key.
pub open spec fn is_inscription(script: Seq<u8>) -> bool {
    exists|public_key: Seq<u8>, chunks: Seq<Seq<u8>>| #[trigger]
        inscription_of(script, public_key, chunks)
}

/// Whether the script is the inscription of the 32-byte chunks under the
/// 32-byte key.
pub open spec fn inscription_of(script: Seq<u8>, public_key: Seq<u8>, chunks: Seq<Seq<u8>>) -> bool {
    &&& public_key.len() == 32
    &&& forall|i: int| 0 <= i < chunks.len() ==> (#[trigger] chunks[i]).len() == 32
    &&& script == inscription_script(public_key, chunks)
}

/// Whether the push of `chunk` stands at place `i` of a run of pushes of
/// 32-byte chunks: the length byte at `33 * i`, then the chunk.
pub open spec fn chunk_at(bytes: Seq<u8>, i: int, chunk: Seq<u8>) -> bool {
    bytes[33 * i] == 32 && bytes.subrange(33 * i + 1, 33 * i + 33) == chunk
}

/// The pushes of 32-byte chunks take 33 bytes each: the length, then the
/// chunk.
pub proof fn lemma_chunk_pushes_layout(chunks: Seq<Seq<u8>>)
    requires
        forall|i: int| 0 <= i < chunks.len() ==> (#[trigger] chunks[i]).len() == 32,
    ensures
        chunk_pushes(chunks).len() == 33 * chunks.len(),
        forall|i: int|
            0 <= i < chunks.len() ==> #[trigger] chunk_at(chunk_pushes(chunks), i, chunks[i]),
    decreases chunks.len(),
{
    if chunks.len() > 0 {
        let front = chunks.drop_last();
        assert forall|i: int| 0 <= i < front.len() implies (#[trigger] front[i]).len() == 32 by {
            assert(front[i] == chunks[i]);
        }
        lemma_chunk_pushes_layout(front);
        let pushes = chunk_pushes(chunks);
        let before = chunk_pushes(front);
        assert(chunks.last().len() == 32);
        assert(pushes == before + push_data(chunks.last()));
        assert forall|i: int| 0 <= i < chunks.len() implies #[trigger] chunk_at(
            pushes,
            i,
            chunks[i],
        ) by {
            if i < front.len() {
                assert(front[i] == chunks[i]);
                assert(chunk_at(before, i, front[i]));
                assert(pushes[33 * i] == before[33 * i]);
                assert(pushes.subrange(33 * i + 1, 33 * i + 33) =~= before.subrange(
                    33 * i + 1,
                    33 * i + 33,
                ));
            } else {
                assert(pushes.subrange(33 * i + 1, 33 * i + 33) =~= chunks.last());
            }
        }
    }
}

/// A byte string laid out as pushes of 32-byte chunks is the pushes of
/// those chunks.
pub proof fn lemma_layout_is_chunk_pushes(bytes: Seq<u8>, chunks: Seq<Seq<u8>>)
    requires
        bytes.len() == 33 * chunks.len(),
        forall|i: int| 0 <= i < chunks.len() ==> #[trigger] chunk_at(bytes, i, chunks[i]),
    ensures
        bytes == chunk_pushes(chunks),
    decreases chunks.len(),
{
    if chunks.len() == 0 {
        assert(bytes =~= chunk_pushes(chunks));
    } else {
        let front = chunks.drop_last();
        let n = front.len() as int;
        let before = bytes.take(33 * n);
        assert forall|i: int| 0 <= i < front.len() implies #[trigger] chunk_at(
            before,
            i,
            front[i],
        ) by {
            assert(chunks[i] == front[i]);
            assert(chunk_at(bytes, i, chunks[i]));
            assert(before.subrange(33 * i + 1, 33 * i + 33) =~= bytes.subrange(
                33 * i + 1,
                33 * i + 33,
            ));
        }
        lemma_layout_is_chunk_pushes(before, front);
        let last = chunks.last();
        assert(last == chunks[n]);
        assert(chunk_at(bytes, n, chunks[n]));
        assert(last.len() == 32);
        assert(bytes =~= before + push_data(last)) by {
            assert forall|j: int| 0 <= j < bytes.len() implies bytes[j] == (before + push_data(
                last,
            ))[j] by {
                if j > 33 * n {
                    assert(bytes.subrange(33 * n + 1, 33 * n + 33)[j - 33 * n - 1] == bytes[j]);
                }
            }
        }
    }
}

/// The key of an inscription envelope: the 32 bytes behind the first
/// length byte.
pub open spec fn inscribed_key(script: Seq<u8>) -> Seq<u8> {
    script.subrange(1, 33)
}

/// The chunks of an inscription envelope, read off its layout: behind the
/// 36 bytes of the heading each chunk takes 33 bytes, its length first.
pub open spec fn inscribed_chunks(script: Seq<u8>) -> Seq<Seq<u8>> {
    Seq::new(
        ((script.len() - 37) / 33) as nat,
        |i: int| script.subrange(37 + 33 * i, 69 + 33 * i),
    )
}

/// An inscription envelope is the inscription of one key and of one
/// sequence of chunks only: those that are read off its layout.
pub proof fn lemma_inscription_is_read_off(
    script: Seq<u8>,
    public_key: Seq<u8>,
    chunks: Seq<Seq<u8>>,
)
    requires
        inscription_of(script, public_key, chunks),
    ensures
        public_key == inscribed_key(script),
        chunks == inscribed_chunks(script),
{
    lemma_chunk_pushes_layout(chunks);
    let heading = push_data(public_key) + seq![OP_CHECKSIG, OP_FALSE, OP_IF];
    let pushes = chunk_pushes(chunks);
    let n = chunks.len() as int;
    assert(script == heading + pushes + seq![OP_ENDIF]);
    assert(heading.len() == 36);
    assert(script.len() == 37 + 33 * n);
    assert((script.len() - 37) / 33 == n) by (nonlinear_arith)
        requires
            script.len() - 37 == 33 * n,
    ;
    assert(public_key =~= inscribed_key(script));
    assert forall|i: int| 0 <= i < n implies chunks[i] == #[trigger] inscribed_chunks(script)[i] by {
        assert(chunk_at(pushes, i, chunks[i]));
        assert(pushes.subrange(33 * i + 1, 33 * i + 33) =~= script.subrange(
            37 + 33 * i,
            69 + 33 * i,
        ));
    }
    assert(chunks =~= inscribed_chunks(script));
}

/// Reads the chunks back from an inscription envelope: `None` exactly
/// where the script is no inscription of 32-byte chunks under a 32-byte
/// key.
#[verifier::rlimit(50)]
pub fn read_inscription(script: &[u8]) -> (r: Option<Vec<[u8; 32]>>)
    ensures
        r is Some <==> is_inscription(script@),
        r matches Some(chunks) ==> inscription_of(
            script@,
            inscribed_key(script@),
            chunks.deep_view(),
        ) && chunks.deep_view() == inscribed_chunks(script@),
{
    let len = script.len();
    let well_framed = len >= 37 && (len - 37) % 33 == 0 && script[0] == 32 && script[33]
        == OP_CHECKSIG && script[34] == OP_FALSE && script[35] == OP_IF && script[len - 1]
        == OP_ENDIF;
    if !well_framed {
        proof {
            assert forall|public_key: Seq<u8>, chunks: Seq<Seq<u8>>| !#[trigger] inscription_of(
                script@,
                public_key,
                chunks,
            ) by {
                if inscription_of(script@, public_key, chunks) {
                    lemma_chunk_pushes_layout(chunks);
                    let heading = push_data(public_key) + seq![OP_CHECKSIG, OP_FALSE, OP_IF];
                    assert(script@ == heading + chunk_pushes(chunks) + seq![OP_ENDIF]);
                    assert(heading.len() == 36);
                    assert(script@[0] == heading[0]);
                    assert(script@[33] == heading[33]);
                    assert(script@[34] == heading[34]);
                    assert(script@[35] == heading[35]);
                    assert(len == 37 + 33 * chunks.len());
                    assert((len - 37) % 33 == 0) by (nonlinear_arith)
                        requires
                            len - 37 == 33 * chunks.len(),
                    ;
                }
            }
        }
        return None;
    }
    let count: usize = (len - 37) / 33;
    let mut chunks: Vec<[u8; 32]> = Vec::new();
    let mut i: usize = 0;
    while i < count
        invariant
            i <= count,
            len == script@.len(),
            len == 37 + 33 * count,
            chunks@.len() == i,
            forall|k: int|
                0 <= k < i ==> #[trigger] chunk_at(script@.subrange(36, len - 1), k, chunks@[k]@),
        decreases count - i,
    {
        let at = 36 + 33 * i;
        if script[at] != 32 {
            proof {
                assert forall|public_key: Seq<u8>, all: Seq<Seq<u8>>| !#[trigger] inscription_of(
                    script@,
                    public_key,
                    all,
                ) by {
                    if inscription_of(script@, public_key, all) {
                        lemma_chunk_pushes_layout(all);
                        let heading = push_data(public_key) + seq![OP_CHECKSIG, OP_FALSE, OP_IF];
                        assert(script@ == heading + chunk_pushes(all) + seq![OP_ENDIF]);
                        assert(heading.len() == 36);
                        assert(all.len() == count);
                        assert(chunk_at(chunk_pushes(all), i as int, all[i as int]));
                        assert(script@[at as int] == chunk_pushes(all)[33 * i]);
                    }
                }
            }
            return None;
        }
        let mut chunk = [0u8; 32];
        let mut j: usize = 0;
        while j < 32
            invariant
                j <= 32,
                at + 33 <= len,
                len == script@.len(),
                forall|k: int| 0 <= k < j ==> chunk@[k] == script@[at + 1 + k],
            decreases 32 - j,
        {
            chunk[j] = script[at + 1 + j];
            j = j + 1;
        }
        proof {
            let middle = script@.subrange(36, len - 1);
            assert(middle[33 * i] == script@[at as int]);
            assert(chunk@ =~= middle.subrange(33 * i + 1, 33 * i + 33));
            assert(chunk_at(middle, i as int, chunk@));
        }
        chunks.push(chunk);
        i = i + 1;
    }
    proof {
        let public_key = script@.subrange(1, 33);
        let all = chunks.deep_view();
        let heading = push_data(public_key) + seq![OP_CHECKSIG, OP_FALSE, OP_IF];
        let middle = script@.subrange(36, len - 1);
        assert forall|k: int| 0 <= k < all.len() implies (#[trigger] all[k]).len() == 32 by {
            lemma_array_deep_view(chunks@[k]);
        }
        assert forall|k: int| 0 <= k < all.len() implies #[trigger] chunk_at(
            middle,
            k,
            all[k],
        ) by {
            lemma_array_deep_view(chunks@[k]);
            assert(chunk_at(middle, k, chunks@[k]@));
        }
        lemma_layout_is_chunk_pushes(middle, all);
        assert(script@ =~= heading + middle + seq![OP_ENDIF]);
        assert(inscription_of(script@, public_key, all));
        lemma_inscription_is_read_off(script@, public_key, all);
    }
    Some(chunks)
}

} // verus!
