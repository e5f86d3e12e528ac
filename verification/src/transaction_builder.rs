//! Assembly of the bridge's transactions and addresses.

use vstd::prelude::*;
use vstd::arithmetic::power2::{lemma2_to64, lemma_pow2_strictly_increases, lemma_pow2_unfold, pow2};
use crate::actor::{
    Actor, prevouts_bytes, signs, taproot_key_spend_sighash, taproot_script_spend_sighash,
};
use crate::config::{
    BRIDGE_AMOUNT_SATS, CONNECTOR_TREE_OPERATOR_TAKES_AFTER, DUST_VALUE, MIN_RELAY_FEE,
    USER_TAKES_AFTER,
};
use crate::errors::BridgeError;
use crate::script_builder::{
    absolute_timelock_script, inscription_script, n_of_n_script, n_of_n_with_hash_script, OP_TRUE,
    p2wsh_script, ScriptBuilder, timelock_script,
};
use crate::taproot::{
    INTERNAL_KEY, p2tr_script, p2tr_script_pubkey, taproot_control_block,
    taproot_key_spend_output_key, taproot_output_key, TaprootSpendInfo,
};
use crate::transaction::{
    copy_bytes, OutPoint, OutPointView, Transaction, TransactionView, txid_of, TxIn, TxInView,
    TxOut, TxOutView, wire_bytes,
};
use crate::utils::{
    connector_child_amount, connector_node_amount, connector_tree_shape, fees_covered,
    handle_taproot_witness, lemma_fees_covered_prefix, one_item, replace_witness,
    script_path_witness, with_witness,
};
use crate::views::{lemma_bytes_deep_view, lemma_empty_deep_view};

verus! {

/// The sequence number of an input that is bound by no relative timelock
/// and can be replaced.
pub const DEFAULT_SEQUENCE: u32 = 0xffff_fffd;

/// The version of every transaction of the bridge.
pub const TX_VERSION: i32 = 2;

/// An input that spends `utxo` and has no witness yet.
pub open spec fn plain_input(utxo: OutPoint, sequence: u32) -> TxInView {
    TxInView {
        previous_output: utxo@,
        script_sig: Seq::empty(),
        sequence,
        witness: Seq::empty(),
    }
}

/// An input that spends the outpoint and has no witness yet.
pub open spec fn plain_input_view(utxo: OutPointView, sequence: u32) -> TxInView {
    TxInView { previous_output: utxo, script_sig: Seq::empty(), sequence, witness: Seq::empty() }
}

/// One plain input per outpoint, all with the same sequence number.
pub open spec fn plain_inputs(utxos: Seq<OutPoint>, sequence: u32) -> Seq<TxInView> {
    Seq::new(utxos.len(), |i: int| plain_input(utxos[i], sequence))
}

/// One output per pair of a value and a script.
pub open spec fn outputs_of(pairs: Seq<(u64, Vec<u8>)>) -> Seq<TxOutView> {
    Seq::new(pairs.len(), |i: int| TxOutView { value: pairs[i].0, script_pubkey: pairs[i].1@ })
}

/// A transaction of the bridge's version with no lock time.
pub open spec fn bridge_tx(input: Seq<TxInView>, output: Seq<TxOutView>) -> TransactionView {
    TransactionView { version: TX_VERSION, lock_time: 0, input, output }
}

/// The scripts of a deposit address: the verifiers' script that asks for
/// the preimage of `hash`, and the script by which the depositor takes the
/// deposit back.
pub open spec fn deposit_scripts(verifiers: Seq<Seq<u8>>, return_key: Seq<u8>, hash: Seq<u8>) -> Seq<
    Seq<u8>,
> {
    seq![
        n_of_n_with_hash_script(verifiers, hash),
        absolute_timelock_script(return_key, USER_TAKES_AFTER),
    ]
}

/// The scripts of a connector node: the verifiers' script that asks for the
/// node's preimage, and the script by which the operator spends the node
/// after one block.
pub open spec fn connector_node_scripts(
    verifiers: Seq<Seq<u8>>,
    actor_pk: Seq<u8>,
    hash: Seq<u8>,
    timelock: u32,
) -> Seq<Seq<u8>> {
    seq![n_of_n_with_hash_script(verifiers, hash), timelock_script(actor_pk, timelock)]
}

/// The number of blocks that the operator waits before it spends a
/// connector node: one for a node that it splits, and its claim timelock
/// for a leaf.
pub open spec fn connector_timelock(depth: nat, level: nat) -> u32 {
    if level == depth {
        CONNECTOR_TREE_OPERATOR_TAKES_AFTER as u32
    } else {
        1
    }
}

/// The script that pays to the connector node in the given slot, where
/// there is one.
pub open spec fn connector_node_address(
    verifiers: Seq<Seq<u8>>,
    actor_pk: Seq<u8>,
    hashes: Seq<Seq<Seq<u8>>>,
    depth: nat,
    level: nat,
    index: nat,
) -> Option<Seq<u8>> {
    taproot_address_script(
        connector_node_scripts(
            verifiers,
            actor_pk,
            hashes[level as int][index as int],
            connector_timelock(depth, level),
        ),
    )
}

/// Whether every node below the root of a connector tree has an address.
pub open spec fn connector_addresses_exist(
    verifiers: Seq<Seq<u8>>,
    actor_pk: Seq<u8>,
    hashes: Seq<Seq<Seq<u8>>>,
    depth: nat,
) -> bool {
    forall|level: nat, index: nat|
        1 <= level <= depth && index < pow2(level) ==> (#[trigger] connector_node_address(
            verifiers,
            actor_pk,
            hashes,
            depth,
            level,
            index,
        )) is Some
}

/// The outpoint of the connector node in the given slot: the root's is
/// given, and a node below it is the output, first or second, of the
/// transaction that splits its parent between the node and its sibling.
pub open spec fn connector_utxo(
    verifiers: Seq<Seq<u8>>,
    actor_pk: Seq<u8>,
    root_utxo: OutPointView,
    root_value: nat,
    hashes: Seq<Seq<Seq<u8>>>,
    depth: nat,
    level: nat,
    index: nat,
) -> OutPointView
    decreases level,
{
    if level == 0 {
        root_utxo
    } else {
        let first = 2 * (index / 2);
        OutPointView {
            txid: txid_of(
                connector_tree_tx_view(
                    connector_utxo(
                        verifiers,
                        actor_pk,
                        root_utxo,
                        root_value,
                        hashes,
                        depth,
                        (level - 1) as nat,
                        index / 2,
                    ),
                    connector_node_amount(root_value, MIN_RELAY_FEE as nat, (level - 1) as nat) as u64,
                    connector_node_address(verifiers, actor_pk, hashes, depth, level, first)->0,
                    connector_node_address(verifiers, actor_pk, hashes, depth, level, first + 1)->0,
                ),
            ),
            vout: (index % 2) as u32,
        }
    }
}

/// The script that pays to the taproot address of the given leaf scripts
/// under the bridge's internal key, where there is one.
pub open spec fn taproot_address_script(scripts: Seq<Seq<u8>>) -> Option<Seq<u8>> {
    match taproot_output_key(INTERNAL_KEY@, scripts) {
        Some(output_key) => Some(p2tr_script(output_key)),
        None => None,
    }
}

/// The move transaction of a deposit: it spends the deposit and pays the
/// bridge amount, less the dust value and the fee, to the verifiers'
/// address, and the dust value to an output that anyone can spend.
pub open spec fn move_tx_spec(deposit_utxo: OutPoint, bridge_script: Seq<u8>) -> TransactionView {
    move_tx_view(deposit_utxo@, bridge_script)
}

/// The move transaction of the deposit at the given outpoint.
pub open spec fn move_tx_view(deposit_utxo: OutPointView, bridge_script: Seq<u8>) -> TransactionView {
    bridge_tx(
        seq![plain_input_view(deposit_utxo, DEFAULT_SEQUENCE)],
        seq![
            TxOutView {
                value: (BRIDGE_AMOUNT_SATS - DUST_VALUE - MIN_RELAY_FEE) as u64,
                script_pubkey: bridge_script,
            },
            TxOutView { value: DUST_VALUE, script_pubkey: p2wsh_script(seq![OP_TRUE]) },
        ],
    )
}

/// The claim transaction: it spends a moved deposit and, once the
/// operator's timelock has run out, the connector leaf, and pays the bridge
/// amount and the dust value, less two fees, to the operator.
pub open spec fn claim_tx_spec(
    fund_utxo: OutPoint,
    connector_utxo: OutPoint,
    operator_script: Seq<u8>,
) -> TransactionView {
    claim_tx_view(fund_utxo@, connector_utxo@, operator_script)
}

/// The claim transaction that spends the given outpoints.
pub open spec fn claim_tx_view(
    fund_utxo: OutPointView,
    connector_utxo: OutPointView,
    operator_script: Seq<u8>,
) -> TransactionView {
    bridge_tx(
        seq![
            plain_input_view(fund_utxo, DEFAULT_SEQUENCE),
            plain_input_view(connector_utxo, CONNECTOR_TREE_OPERATOR_TAKES_AFTER as u32),
        ],
        seq![
            TxOutView {
                value: (BRIDGE_AMOUNT_SATS + DUST_VALUE - 2 * MIN_RELAY_FEE) as u64,
                script_pubkey: operator_script,
            },
        ],
    )
}

/// The transaction that spends a connector node worth `parent_value`: each
/// of its two outputs gets half of what the fee leaves.
pub open spec fn connector_tree_tx_spec(
    utxo: OutPoint,
    parent_value: u64,
    first_script: Seq<u8>,
    second_script: Seq<u8>,
) -> TransactionView {
    connector_tree_tx_view(utxo@, parent_value, first_script, second_script)
}

/// The transaction that spends the connector node at the given outpoint.
pub open spec fn connector_tree_tx_view(
    utxo: OutPointView,
    parent_value: u64,
    first_script: Seq<u8>,
    second_script: Seq<u8>,
) -> TransactionView {
    bridge_tx(
        seq![plain_input_view(utxo, CONNECTOR_TREE_OPERATOR_TAKES_AFTER as u32)],
        seq![
            TxOutView {
                value: connector_child_amount(parent_value as nat, MIN_RELAY_FEE as nat) as u64,
                script_pubkey: first_script,
            },
            TxOutView {
                value: connector_child_amount(parent_value as nat, MIN_RELAY_FEE as nat) as u64,
                script_pubkey: second_script,
            },
        ],
    )
}

/// The transaction that commits to an inscription: it spends the funding
/// outpoint and pays the dust value to the inscription's address.
pub open spec fn commit_tx_spec(source: OutPoint, inscription_address: Seq<u8>) -> TransactionView {
    bridge_tx(
        seq![plain_input(source, DEFAULT_SEQUENCE)],
        seq![TxOutView { value: DUST_VALUE, script_pubkey: inscription_address }],
    )
}

/// The transaction that reveals an inscription: it spends the commitment
/// and pays what the fee leaves of the dust value to the inscriber.
pub open spec fn reveal_tx_spec(commit_txid: Seq<u8>, inscriber_address: Seq<u8>) -> TransactionView {
    bridge_tx(
        seq![plain_input_view(OutPointView { txid: commit_txid, vout: 0 }, DEFAULT_SEQUENCE)],
        seq![
            TxOutView {
                value: (DUST_VALUE - MIN_RELAY_FEE) as u64,
                script_pubkey: inscriber_address,
            },
        ],
    )
}

/// The output that funds an inscription: three times the dust value at the
/// inscriber's address.
pub open spec fn inscription_funding(inscriber_address: Seq<u8>) -> TxOutView {
    TxOutView { value: (3 * DUST_VALUE) as u64, script_pubkey: inscriber_address }
}

/// Whether `commit` is the transaction that commits to an inscription at
/// `address`, signed by the inscriber for the key path of its own address
/// with `signature`, which is valid under the key of that address.
pub open spec fn is_commit_tx(
    commit: TransactionView,
    source: OutPoint,
    address: Seq<u8>,
    public_key: Seq<u8>,
    inscriber_address: Seq<u8>,
    signature: Seq<u8>,
) -> bool {
    &&& commit == with_witness(commit_tx_spec(source, address), 0, seq![signature])
    &&& signs(
        signature,
        taproot_key_spend_sighash(
            wire_bytes(commit_tx_spec(source, address)),
            prevouts_bytes(seq![inscription_funding(inscriber_address)]),
            0,
        ),
        taproot_key_spend_output_key(public_key)->0,
    )
}

/// Why there is no commitment to the inscription, if there is none: the
/// inscription has no address, or there is nothing to sign.
pub open spec fn commit_error(
    source: OutPoint,
    public_key: Seq<u8>,
    inscriber_address: Seq<u8>,
    chunks: Seq<Seq<u8>>,
) -> Option<BridgeError> {
    match taproot_address_script(seq![inscription_script(public_key, chunks)]) {
        None => Some(BridgeError::ScriptBuildError),
        Some(address) => if taproot_key_spend_sighash(
            wire_bytes(commit_tx_spec(source, address)),
            prevouts_bytes(seq![inscription_funding(inscriber_address)]),
            0,
        ) is None {
            Some(BridgeError::WitnessAssemblyError)
        } else {
            None
        },
    }
}

/// Why there is no inscription, if there is none: there is no commitment,
/// or there is nothing to sign in the revealing transaction, or the
/// inscription's script has no control block.
pub open spec fn inscription_error(
    source: OutPoint,
    public_key: Seq<u8>,
    inscriber_address: Seq<u8>,
    chunks: Seq<Seq<u8>>,
) -> Option<BridgeError> {
    let script = inscription_script(public_key, chunks);
    match commit_error(source, public_key, inscriber_address, chunks) {
        Some(e) => Some(e),
        None => {
            let address = taproot_address_script(seq![script])->0;
            if taproot_script_spend_sighash(
                wire_bytes(
                    reveal_tx_spec(txid_of(commit_tx_spec(source, address)), inscriber_address),
                ),
                prevouts_bytes(seq![TxOutView { value: DUST_VALUE, script_pubkey: address }]),
                script,
                0,
            ) is None || taproot_control_block(INTERNAL_KEY@, seq![script], script) is None {
                Some(BridgeError::WitnessAssemblyError)
            } else {
                None
            }
        },
    }
}

/// Whether `commit` is the transaction that commits to an inscription at
/// `address`, for some valid signature of the inscriber.
pub open spec fn is_signed_commit_tx(
    commit: TransactionView,
    source: OutPoint,
    address: Seq<u8>,
    public_key: Seq<u8>,
    inscriber_address: Seq<u8>,
) -> bool {
    exists|signature: Seq<u8>| #[trigger]
        is_commit_tx(commit, source, address, public_key, inscriber_address, signature)
}

/// Whether `commit` and `reveal` are the two transactions of the
/// inscription of `chunks` by the party with the given key and address,
/// signed with `commit_signature` and `reveal_signature`, both valid.
pub open spec fn is_inscription_pair(
    commit: TransactionView,
    reveal: TransactionView,
    source: OutPoint,
    public_key: Seq<u8>,
    inscriber_address: Seq<u8>,
    chunks: Seq<Seq<u8>>,
    commit_signature: Seq<u8>,
    reveal_signature: Seq<u8>,
) -> bool {
    let script = inscription_script(public_key, chunks);
    &&& taproot_address_script(seq![script]) matches Some(address)
    &&& taproot_control_block(INTERNAL_KEY@, seq![script], script) matches Some(control_block)
    &&& is_commit_tx(commit, source, address, public_key, inscriber_address, commit_signature)
    &&& signs(
        reveal_signature,
        taproot_script_spend_sighash(
            wire_bytes(reveal_tx_spec(txid_of(commit), inscriber_address)),
            prevouts_bytes(seq![TxOutView { value: DUST_VALUE, script_pubkey: address }]),
            script,
            0,
        ),
        public_key,
    )
    &&& reveal == with_witness(
        reveal_tx_spec(txid_of(commit), inscriber_address),
        0,
        script_path_witness(seq![reveal_signature], script, control_block),
    )
}

/// Whether `commit` and `reveal` are the two transactions of the
/// inscription, for some signatures.
pub open spec fn is_signed_inscription_pair(
    commit: TransactionView,
    reveal: TransactionView,
    source: OutPoint,
    public_key: Seq<u8>,
    inscriber_address: Seq<u8>,
    chunks: Seq<Seq<u8>>,
) -> bool {
    exists|commit_signature: Seq<u8>, reveal_signature: Seq<u8>| #[trigger]
        is_inscription_pair(
            commit,
            reveal,
            source,
            public_key,
            inscriber_address,
            chunks,
            commit_signature,
            reveal_signature,
        )
}

/// Builds the transactions and addresses of a fixed set of verifiers.
#[derive(Debug, Clone)]
pub struct TransactionBuilder {
    pub script_builder: ScriptBuilder,
}

/// Whether `tree` holds the outpoint of every node of the connector tree
/// that hangs below `root_utxo`, level by level.
pub open spec fn is_connector_utxo_tree(
    tree: Seq<Vec<OutPoint>>,
    verifiers: Seq<Seq<u8>>,
    actor_pk: Seq<u8>,
    root_utxo: OutPointView,
    root_value: nat,
    hashes: Seq<Seq<Seq<u8>>>,
    depth: nat,
) -> bool {
    &&& tree.len() == depth + 1
    &&& forall|level: int| 0 <= level <= depth ==> (#[trigger] tree[level])@.len() == pow2(level as nat)
    &&& forall|level: int, index: int|
        0 <= level <= depth && 0 <= index < pow2(level as nat) ==> (#[trigger] tree[level]@[index])@
            == connector_utxo(
            verifiers,
            actor_pk,
            root_utxo,
            root_value,
            hashes,
            depth,
            level as nat,
            index as nat,
        )
}

impl TransactionBuilder {
    /// A builder for the given verifier keys, in that order.
    pub fn new(verifiers_pks: Vec<[u8; 32]>) -> (builder: TransactionBuilder)
        ensures
            builder.script_builder.verifiers_pks == verifiers_pks,
    {
        TransactionBuilder { script_builder: ScriptBuilder::new(verifiers_pks) }
    }

    /// The verifier keys as plain values.
    pub open spec fn verifiers(&self) -> Seq<Seq<u8>> {
        self.script_builder.verifiers_pks.deep_view()
    }

    /// The outpoint of output `vout` of the transaction `txid`.
    pub fn create_utxo(txid: [u8; 32], vout: u32) -> (utxo: OutPoint)
        ensures
            utxo == (OutPoint { txid, vout }),
    {
        OutPoint { txid, vout }
    }

    /// One input per outpoint, with the given sequence number and no
    /// witness.
    pub fn create_tx_ins_with(utxos: &Vec<OutPoint>, sequence: u32) -> (inputs: Vec<TxIn>)
        ensures
            inputs.deep_view() == plain_inputs(utxos@, sequence),
    {
        let mut inputs: Vec<TxIn> = Vec::new();
        let mut i: usize = 0;
        while i < utxos.len()
            invariant
                i <= utxos@.len(),
                inputs@.len() == i,
                forall|k: int|
                    0 <= k < i ==> (#[trigger] inputs@[k]).deep_view() == plain_input(
                        utxos@[k],
                        sequence,
                    ),
            decreases utxos@.len() - i,
        {
            let input = TxIn {
                previous_output: utxos[i],
                script_sig: Vec::new(),
                sequence,
                witness: Vec::new(),
            };
            proof {
                lemma_empty_deep_view(input.witness);
                assert(input.script_sig@ =~= Seq::<u8>::empty());
            }
            inputs.push(input);
            i = i + 1;
        }
        assert(inputs.deep_view() =~= plain_inputs(utxos@, sequence));
        inputs
    }

    /// One input per outpoint, bound by no relative timelock.
    pub fn create_tx_ins(utxos: &Vec<OutPoint>) -> (inputs: Vec<TxIn>)
        ensures
            inputs.deep_view() == plain_inputs(utxos@, DEFAULT_SEQUENCE),
    {
        TransactionBuilder::create_tx_ins_with(utxos, DEFAULT_SEQUENCE)
    }

    /// One input per outpoint, each spendable only once the output it
    /// spends is as old as the operator's timelock asks.
    pub fn create_tx_ins_with_sequence(utxos: &Vec<OutPoint>) -> (inputs: Vec<TxIn>)
        ensures
            inputs.deep_view() == plain_inputs(utxos@, CONNECTOR_TREE_OPERATOR_TAKES_AFTER as u32),
    {
        TransactionBuilder::create_tx_ins_with(utxos, CONNECTOR_TREE_OPERATOR_TAKES_AFTER as u32)
    }

    /// One output per pair of a value and a script.
    pub fn create_tx_outs(pairs: &Vec<(u64, Vec<u8>)>) -> (outputs: Vec<TxOut>)
        ensures
            outputs.deep_view() == outputs_of(pairs@),
    {
        let mut outputs: Vec<TxOut> = Vec::new();
        let mut i: usize = 0;
        while i < pairs.len()
            invariant
                i <= pairs@.len(),
                outputs@.len() == i,
                forall|k: int|
                    0 <= k < i ==> (#[trigger] outputs@[k]).deep_view() == (TxOutView {
                        value: pairs@[k].0,
                        script_pubkey: pairs@[k].1@,
                    }),
            decreases pairs@.len() - i,
        {
            let output = TxOut {
                value: pairs[i].0,
                script_pubkey: copy_bytes(pairs[i].1.as_slice()),
            };
            outputs.push(output);
            i = i + 1;
        }
        assert(outputs.deep_view() =~= outputs_of(pairs@));
        outputs
    }

    /// The transaction with the given inputs and outputs.
    pub fn create_btc_tx(tx_ins: Vec<TxIn>, tx_outs: Vec<TxOut>) -> (tx: Transaction)
        ensures
            tx.deep_view() == bridge_tx(tx_ins.deep_view(), tx_outs.deep_view()),
    {
        Transaction { version: TX_VERSION, lock_time: 0, input: tx_ins, output: tx_outs }
    }

    /// The taproot address, under the bridge's internal key, of the given
    /// leaf scripts, with what is needed to spend it. Fails with
    /// `ScriptBuildError` exactly where there is no such address.
    pub fn create_taproot_address(scripts: Vec<Vec<u8>>) -> (r: Result<
        (Vec<u8>, TaprootSpendInfo),
        BridgeError,
    >)
        ensures
            match r {
                Ok((address, info)) => taproot_address_script(scripts.deep_view()) == Some(address@)
                    && info.wf() && info.internal_key == INTERNAL_KEY && info.scripts == scripts,
                Err(e) => e == BridgeError::ScriptBuildError && taproot_address_script(
                    scripts.deep_view(),
                ) is None,
            },
    {
        match TaprootSpendInfo::new(INTERNAL_KEY, scripts) {
            Ok(info) => {
                let address = p2tr_script_pubkey(&info.output_key);
                Ok((address, info))
            },
            Err(e) => Err(e),
        }
    }

    /// The address that a deposit guarded by `hash` is paid to, from which
    /// the verifiers can move it with the preimage and the depositor can take
    /// it back later.
    pub fn generate_deposit_address(&self, return_address: &[u8; 32], hash: &[u8; 32]) -> (r: Result<
        (Vec<u8>, TaprootSpendInfo),
        BridgeError,
    >)
        ensures
            match r {
                Ok((address, info)) => taproot_address_script(
                    deposit_scripts(self.verifiers(), return_address@, hash@),
                ) == Some(address@) && info.wf() && info.internal_key == INTERNAL_KEY
                    && info.scripts.deep_view() == deposit_scripts(
                    self.verifiers(),
                    return_address@,
                    hash@,
                ),
                Err(e) => e == BridgeError::ScriptBuildError && taproot_address_script(
                    deposit_scripts(self.verifiers(), return_address@, hash@),
                ) is None,
            },
    {
        let first = self.script_builder.generate_script_n_of_n_with_hash(hash);
        let second = ScriptBuilder::generate_absolute_timelock_script(
            return_address,
            USER_TAKES_AFTER,
        );
        let scripts = two_scripts(first, second);
        TransactionBuilder::create_taproot_address(scripts)
    }

    /// The address of the connector node with the given hash, which the
    /// operator may spend once the node is `timelock` blocks old.
    pub fn create_connector_tree_node_address(
        &self,
        actor_pk: &[u8; 32],
        hash: &[u8; 32],
        timelock: u32,
    ) -> (r: Result<(Vec<u8>, TaprootSpendInfo), BridgeError>)
        ensures
            match r {
                Ok((address, info)) => taproot_address_script(
                    connector_node_scripts(self.verifiers(), actor_pk@, hash@, timelock),
                ) == Some(address@) && info.wf() && info.internal_key == INTERNAL_KEY
                    && info.scripts.deep_view() == connector_node_scripts(
                    self.verifiers(),
                    actor_pk@,
                    hash@,
                    timelock,
                ),
                Err(e) => e == BridgeError::ScriptBuildError && taproot_address_script(
                    connector_node_scripts(self.verifiers(), actor_pk@, hash@, timelock),
                ) is None,
            },
    {
        let first = self.script_builder.generate_script_n_of_n_with_hash(hash);
        let second = ScriptBuilder::generate_timelock_script(actor_pk, timelock);
        let scripts = two_scripts(first, second);
        TransactionBuilder::create_taproot_address(scripts)
    }

    /// The address of the bridge's pooled funds: the script that every
    /// verifier must sign.
    pub fn generate_bridge_address(&self) -> (r: Result<(Vec<u8>, TaprootSpendInfo), BridgeError>)
        ensures
            match r {
                Ok((address, info)) => taproot_address_script(seq![n_of_n_script(self.verifiers())])
                    == Some(address@) && info.wf() && info.internal_key == INTERNAL_KEY
                    && info.scripts.deep_view() == seq![n_of_n_script(self.verifiers())],
                Err(e) => e == BridgeError::ScriptBuildError && taproot_address_script(
                    seq![n_of_n_script(self.verifiers())],
                ) is None,
            },
    {
        let script = self.script_builder.generate_script_n_of_n();
        let scripts = one_script(script);
        TransactionBuilder::create_taproot_address(scripts)
    }

    /// The move transaction of a deposit, without witness.
    pub fn create_move_tx(deposit_utxo: OutPoint, bridge_address: &Vec<u8>) -> (tx: Transaction)
        ensures
            tx.deep_view() == move_tx_spec(deposit_utxo, bridge_address@),
    {
        let mut utxos: Vec<OutPoint> = Vec::new();
        utxos.push(deposit_utxo);
        let inputs = TransactionBuilder::create_tx_ins(&utxos);
        let anyone = ScriptBuilder::anyone_can_spend_txout();
        let mut outputs: Vec<TxOut> = Vec::new();
        outputs.push(
            TxOut {
                value: BRIDGE_AMOUNT_SATS - DUST_VALUE - MIN_RELAY_FEE,
                script_pubkey: copy_bytes(bridge_address.as_slice()),
            },
        );
        outputs.push(TxOut { value: DUST_VALUE, script_pubkey: anyone.script_pubkey });
        let tx = TransactionBuilder::create_btc_tx(inputs, outputs);
        assert(tx.deep_view().input =~= move_tx_spec(deposit_utxo, bridge_address@).input);
        assert(tx.deep_view().output =~= move_tx_spec(deposit_utxo, bridge_address@).output);
        tx
    }

    /// The claim transaction, without witnesses.
    pub fn create_claim_tx(fund_utxo: OutPoint, connector_utxo: OutPoint, operator_address: &Vec<u8>) -> (tx:
        Transaction)
        ensures
            tx.deep_view() == claim_tx_spec(fund_utxo, connector_utxo, operator_address@),
    {
        let mut funds: Vec<OutPoint> = Vec::new();
        funds.push(fund_utxo);
        let mut connectors: Vec<OutPoint> = Vec::new();
        connectors.push(connector_utxo);
        let mut inputs = TransactionBuilder::create_tx_ins(&funds);
        let mut timelocked = TransactionBuilder::create_tx_ins_with_sequence(&connectors);
        let ghost first = inputs.deep_view();
        let ghost second = timelocked.deep_view();
        inputs.append(&mut timelocked);
        let mut outputs: Vec<TxOut> = Vec::new();
        outputs.push(
            TxOut {
                value: BRIDGE_AMOUNT_SATS + DUST_VALUE - 2 * MIN_RELAY_FEE,
                script_pubkey: copy_bytes(operator_address.as_slice()),
            },
        );
        let tx = TransactionBuilder::create_btc_tx(inputs, outputs);
        assert(tx.deep_view().input =~= first + second);
        assert(tx.deep_view().input =~= claim_tx_spec(
            fund_utxo,
            connector_utxo,
            operator_address@,
        ).input);
        assert(tx.deep_view().output =~= claim_tx_spec(
            fund_utxo,
            connector_utxo,
            operator_address@,
        ).output);
        tx
    }

    /// The transaction that splits a connector node worth `parent_value`
    /// into its two children, without witness. Where what the fee leaves is
    /// even, the two outputs together are worth the parent less the fee.
    pub fn create_connector_tree_tx(
        utxo: &OutPoint,
        parent_value: u64,
        first_address: &Vec<u8>,
        second_address: &Vec<u8>,
    ) -> (tx: Transaction)
        requires
            parent_value >= MIN_RELAY_FEE,
        ensures
            tx.deep_view() == connector_tree_tx_spec(
                *utxo,
                parent_value,
                first_address@,
                second_address@,
            ),
            tx.output@.len() == 2,
            (parent_value - MIN_RELAY_FEE) % 2 == 0 ==> tx.output@[0].value + tx.output@[1].value
                == parent_value - MIN_RELAY_FEE,
    {
        let mut utxos: Vec<OutPoint> = Vec::new();
        utxos.push(*utxo);
        let inputs = TransactionBuilder::create_tx_ins_with_sequence(&utxos);
        let child_value: u64 = (parent_value - MIN_RELAY_FEE) / 2;
        let mut outputs: Vec<TxOut> = Vec::new();
        outputs.push(
            TxOut { value: child_value, script_pubkey: copy_bytes(first_address.as_slice()) },
        );
        outputs.push(
            TxOut { value: child_value, script_pubkey: copy_bytes(second_address.as_slice()) },
        );
        let tx = TransactionBuilder::create_btc_tx(inputs, outputs);
        assert(tx.deep_view().input =~= connector_tree_tx_spec(
            *utxo,
            parent_value,
            first_address@,
            second_address@,
        ).input);
        assert(tx.deep_view().output =~= connector_tree_tx_spec(
            *utxo,
            parent_value,
            first_address@,
            second_address@,
        ).output);
        tx
    }

    /// The transaction that commits to the inscription of `preimages` under
    /// the inscriber's key, signed, with the inscription's script, address
    /// and spend info.
    #[verifier::rlimit(50)]
    fn create_inscription_commit(actor: &Actor, utxo: OutPoint, preimages: &Vec<[u8; 32]>) -> (r:
        Result<(Transaction, Vec<u8>, Vec<u8>, TaprootSpendInfo), BridgeError>)
        requires
            actor.wf(),
        ensures
            r matches Ok((commit, script, address, info)) ==> {
                &&& script@ == inscription_script(
                    actor.spec_xonly_public_key(),
                    preimages.deep_view(),
                )
                &&& taproot_address_script(seq![script@]) == Some(address@)
                &&& info.internal_key == INTERNAL_KEY
                &&& info.scripts.deep_view() == seq![script@]
                &&& is_signed_commit_tx(
                    commit.deep_view(),
                    utxo,
                    address@,
                    actor.spec_xonly_public_key(),
                    actor.spec_address(),
                )
            },
            commit_error(
                utxo,
                actor.spec_xonly_public_key(),
                actor.spec_address(),
                preimages.deep_view(),
            ) == (match r {
                Ok(_) => None,
                Err(e) => Some(e),
            }),
    {
        let public_key = actor.xonly_public_key();
        let script = ScriptBuilder::create_inscription_script_32_bytes(&public_key, preimages);
        let scripts = one_script(copy_bytes(script.as_slice()));
        let (address, info) = match TransactionBuilder::create_taproot_address(scripts) {
            Ok(address) => address,
            Err(e) => {
                return Err(e);
            },
        };
        let mut utxos: Vec<OutPoint> = Vec::new();
        utxos.push(utxo);
        let inputs = TransactionBuilder::create_tx_ins(&utxos);
        let mut outputs: Vec<TxOut> = Vec::new();
        outputs.push(TxOut { value: DUST_VALUE, script_pubkey: copy_bytes(address.as_slice()) });
        let mut commit = TransactionBuilder::create_btc_tx(inputs, outputs);
        proof {
            assert(commit.deep_view().input =~= commit_tx_spec(utxo, address@).input);
            assert(commit.deep_view().output =~= commit_tx_spec(utxo, address@).output);
        }
        let mut prevouts: Vec<TxOut> = Vec::new();
        prevouts.push(TxOut { value: 3 * DUST_VALUE, script_pubkey: actor.address() });
        assert(prevouts.deep_view() =~= seq![inscription_funding(actor.spec_address())]);
        let signature = match actor.sign_taproot_pubkey_spend_tx(&commit, &prevouts, 0) {
            Ok(signature) => signature,
            Err(e) => {
                return Err(e);
            },
        };
        replace_witness(&mut commit, 0, one_item(signature.as_slice()));
        assert(is_commit_tx(
            commit.deep_view(),
            utxo,
            address@,
            actor.spec_xonly_public_key(),
            actor.spec_address(),
            signature@,
        ));
        Ok((commit, script, address, info))
    }

    /// The two transactions that publish `preimages` on chain: the first
    /// commits to their inscription under the inscriber's key, the second
    /// reveals it in its witness. `utxo` is an output of three times the
    /// dust value at the inscriber's address.
    #[verifier::rlimit(50)]
    pub fn create_inscription_transactions(actor: &Actor, utxo: OutPoint, preimages: &Vec<[u8; 32]>) -> (r:
        Result<(Transaction, Transaction), BridgeError>)
        requires
            actor.wf(),
        ensures
            r matches Ok((commit, reveal)) ==> is_signed_inscription_pair(
                commit.deep_view(),
                reveal.deep_view(),
                utxo,
                actor.spec_xonly_public_key(),
                actor.spec_address(),
                preimages.deep_view(),
            ),
            inscription_error(
                utxo,
                actor.spec_xonly_public_key(),
                actor.spec_address(),
                preimages.deep_view(),
            ) == (match r {
                Ok(_) => None,
                Err(e) => Some(e),
            }),
    {
        let (commit, script, address, info) = match TransactionBuilder::create_inscription_commit(
            actor,
            utxo,
            preimages,
        ) {
            Ok(parts) => parts,
            Err(e) => {
                return Err(e);
            },
        };
        let commit_txid = commit.txid();
        proof {
            let signature = choose|s: Seq<u8>| #[trigger]
                is_commit_tx(
                    commit.deep_view(),
                    utxo,
                    address@,
                    actor.spec_xonly_public_key(),
                    actor.spec_address(),
                    s,
                );
            crate::transaction::lemma_txid_ignores_witness(
                commit_tx_spec(utxo, address@),
                0,
                seq![signature],
            );
            assert(commit_txid@ == txid_of(commit_tx_spec(utxo, address@)));
        }
        let mut utxos: Vec<OutPoint> = Vec::new();
        utxos.push(TransactionBuilder::create_utxo(commit_txid, 0));
        let inputs = TransactionBuilder::create_tx_ins(&utxos);
        let mut outputs: Vec<TxOut> = Vec::new();
        outputs.push(TxOut { value: DUST_VALUE - MIN_RELAY_FEE, script_pubkey: actor.address() });
        let mut reveal = TransactionBuilder::create_btc_tx(inputs, outputs);
        let ghost unsigned = reveal_tx_spec(commit_txid@, actor.spec_address());
        proof {
            assert(reveal.deep_view().input =~= unsigned.input);
            assert(reveal.deep_view().output =~= unsigned.output);
        }
        let mut prevouts: Vec<TxOut> = Vec::new();
        let ghost address_script = address@;
        prevouts.push(TxOut { value: DUST_VALUE, script_pubkey: address });
        assert(prevouts.deep_view() =~= seq![
            TxOutView { value: DUST_VALUE, script_pubkey: address_script },
        ]);
        let signature = match actor.sign_taproot_script_spend_tx(
            &reveal,
            &prevouts,
            script.as_slice(),
            0,
        ) {
            Ok(signature) => signature,
            Err(e) => {
                return Err(e);
            },
        };
        let elements = one_item(signature.as_slice());
        match handle_taproot_witness(&mut reveal, 0, &elements, &script, &info) {
            Ok(()) => {},
            Err(e) => {
                return Err(e);
            },
        }
        proof {
            let control_block = taproot_control_block(INTERNAL_KEY@, seq![script@], script@)->0;
            assert(unsigned.input[0].witness + script_path_witness(
                seq![signature@],
                script@,
                control_block,
            ) =~= script_path_witness(seq![signature@], script@, control_block));
            let commit_signature = choose|s: Seq<u8>| #[trigger]
                is_commit_tx(
                    commit.deep_view(),
                    utxo,
                    address_script,
                    actor.spec_xonly_public_key(),
                    actor.spec_address(),
                    s,
                );
            assert(is_inscription_pair(
                commit.deep_view(),
                reveal.deep_view(),
                utxo,
                actor.spec_xonly_public_key(),
                actor.spec_address(),
                preimages.deep_view(),
                commit_signature,
                signature@,
            ));
        }
        Ok((commit, reveal))
    }

    /// The number of blocks that the operator waits before it spends a
    /// connector node of the given level.
    pub fn connector_timelock_of(depth: usize, level: usize) -> (timelock: u32)
        ensures
            timelock == connector_timelock(depth as nat, level as nat),
    {
        if level == depth {
            CONNECTOR_TREE_OPERATOR_TAKES_AFTER as u32
        } else {
            1
        }
    }

    /// The address of the connector node in the given slot.
    pub fn connector_address_at(
        &self,
        actor_pk: &[u8; 32],
        connector_tree_hashes: &Vec<Vec<[u8; 32]>>,
        depth: usize,
        level: usize,
        index: usize,
    ) -> (r: Result<(Vec<u8>, TaprootSpendInfo), BridgeError>)
        requires
            level < connector_tree_hashes@.len(),
            index < connector_tree_hashes@[level as int]@.len(),
        ensures
            match r {
                Ok((address, info)) => connector_node_address(
                    self.verifiers(),
                    actor_pk@,
                    connector_tree_hashes.deep_view(),
                    depth as nat,
                    level as nat,
                    index as nat,
                ) == Some(address@) && info.wf() && info.internal_key == INTERNAL_KEY
                    && info.scripts.deep_view() == connector_node_scripts(
                    self.verifiers(),
                    actor_pk@,
                    connector_tree_hashes.deep_view()[level as int][index as int],
                    connector_timelock(depth as nat, level as nat),
                ),
                Err(e) => e == BridgeError::ScriptBuildError && connector_node_address(
                    self.verifiers(),
                    actor_pk@,
                    connector_tree_hashes.deep_view(),
                    depth as nat,
                    level as nat,
                    index as nat,
                ) is None,
            },
    {
        let hash: [u8; 32] = connector_tree_hashes[level][index];
        proof {
            crate::views::lemma_array_deep_view(hash);
            assert(connector_tree_hashes.deep_view()[level as int][index as int] == hash@);
        }
        self.create_connector_tree_node_address(
            actor_pk,
            &hash,
            TransactionBuilder::connector_timelock_of(depth, level),
        )
    }

    /// The outpoints of the two children of every node of one level.
    #[verifier::rlimit(50)]
    fn connector_tree_level(
        &self,
        actor_pk: &[u8; 32],
        parents: &Vec<OutPoint>,
        parent_value: u64,
        root_utxo: OutPoint,
        root_value: u64,
        depth: usize,
        connector_tree_hashes: &Vec<Vec<[u8; 32]>>,
        level: usize,
    ) -> (r: Result<Vec<OutPoint>, BridgeError>)
        requires
            1 <= level <= depth < 32,
            connector_tree_shape(connector_tree_hashes.deep_view(), depth as nat),
            parent_value >= MIN_RELAY_FEE,
            parent_value == connector_node_amount(
                root_value as nat,
                MIN_RELAY_FEE as nat,
                (level - 1) as nat,
            ),
            parents@.len() == pow2((level - 1) as nat),
            forall|j: int|
                0 <= j < parents@.len() ==> (#[trigger] parents@[j])@ == connector_utxo(
                    self.verifiers(),
                    actor_pk@,
                    root_utxo@,
                    root_value as nat,
                    connector_tree_hashes.deep_view(),
                    depth as nat,
                    (level - 1) as nat,
                    j as nat,
                ),
        ensures
            match r {
                Ok(children) => {
                    &&& children@.len() == pow2(level as nat)
                    &&& forall|k: int|
                        0 <= k < children@.len() ==> (#[trigger] children@[k])@ == connector_utxo(
                            self.verifiers(),
                            actor_pk@,
                            root_utxo@,
                            root_value as nat,
                            connector_tree_hashes.deep_view(),
                            depth as nat,
                            level as nat,
                            k as nat,
                        )
                    &&& forall|k: nat|
                        k < pow2(level as nat) ==> (#[trigger] connector_node_address(
                            self.verifiers(),
                            actor_pk@,
                            connector_tree_hashes.deep_view(),
                            depth as nat,
                            level as nat,
                            k,
                        )) is Some
                },
                Err(e) => e == BridgeError::ScriptBuildError && !connector_addresses_exist(
                    self.verifiers(),
                    actor_pk@,
                    connector_tree_hashes.deep_view(),
                    depth as nat,
                ),
            },
    {
        let ghost hashes = connector_tree_hashes.deep_view();
        let ghost verifiers = self.verifiers();
        proof {
            lemma_pow2_unfold(level as nat);
            lemma2_to64();
            lemma_pow2_strictly_increases(level as nat, 32);
            assert(hashes[level as int].len() == pow2(level as nat));
            assert(connector_tree_hashes@[level as int]@.len() == hashes[level as int].len());
        }
        let mut children: Vec<OutPoint> = Vec::new();
        let mut j: usize = 0;
        while j < parents.len()
            invariant
                j <= parents@.len(),
                1 <= level <= depth < 32,
                hashes == connector_tree_hashes.deep_view(),
                verifiers == self.verifiers(),
                connector_tree_hashes@.len() == depth + 1,
                connector_tree_hashes@[level as int]@.len() == pow2(level as nat),
                pow2(level as nat) == 2 * parents@.len(),
                pow2(level as nat) < 0x1_0000_0000,
                parent_value >= MIN_RELAY_FEE,
                parent_value == connector_node_amount(
                    root_value as nat,
                    MIN_RELAY_FEE as nat,
                    (level - 1) as nat,
                ),
                forall|i: int|
                    0 <= i < parents@.len() ==> (#[trigger] parents@[i])@ == connector_utxo(
                        verifiers,
                        actor_pk@,
                        root_utxo@,
                        root_value as nat,
                        hashes,
                        depth as nat,
                        (level - 1) as nat,
                        i as nat,
                    ),
                children@.len() == 2 * j,
                forall|k: int|
                    0 <= k < children@.len() ==> (#[trigger] children@[k])@ == connector_utxo(
                        verifiers,
                        actor_pk@,
                        root_utxo@,
                        root_value as nat,
                        hashes,
                        depth as nat,
                        level as nat,
                        k as nat,
                    ),
                forall|k: nat|
                    k < 2 * j ==> (#[trigger] connector_node_address(
                        verifiers,
                        actor_pk@,
                        hashes,
                        depth as nat,
                        level as nat,
                        k,
                    )) is Some,
            decreases parents@.len() - j,
        {
            let (first_address, _) = match self.connector_address_at(
                actor_pk,
                connector_tree_hashes,
                depth,
                level,
                2 * j,
            ) {
                Ok(address) => address,
                Err(e) => {
                    return Err(e);
                },
            };
            let (second_address, _) = match self.connector_address_at(
                actor_pk,
                connector_tree_hashes,
                depth,
                level,
                2 * j + 1,
            ) {
                Ok(address) => address,
                Err(e) => {
                    return Err(e);
                },
            };
            let tx = TransactionBuilder::create_connector_tree_tx(
                &parents[j],
                parent_value,
                &first_address,
                &second_address,
            );
            let txid = tx.txid();
            let ghost before = children@;
            children.push(TransactionBuilder::create_utxo(txid, 0));
            children.push(TransactionBuilder::create_utxo(txid, 1));
            proof {
                assert((2 * j) / 2 == j && (2 * j + 1) / 2 == j);
                assert((2 * j) % 2 == 0 && (2 * j + 1) % 2 == 1);
                assert forall|k: int| 0 <= k < children@.len() implies (#[trigger] children@[k])@
                    == connector_utxo(
                    verifiers,
                    actor_pk@,
                    root_utxo@,
                    root_value as nat,
                    hashes,
                    depth as nat,
                    level as nat,
                    k as nat,
                ) by {
                    if k < 2 * j {
                        assert(children@[k] == before[k]);
                    }
                }
            }
            j = j + 1;
        }
        Ok(children)
    }

    /// The outpoints of every node of the connector tree that hangs below
    /// `root_utxo`, level by level. Fails with `ScriptBuildError` exactly
    /// where a node has no address.
    #[verifier::rlimit(50)]
    pub fn create_connector_binary_tree(
        &self,
        actor_pk: &[u8; 32],
        root_utxo: OutPoint,
        root_value: u64,
        depth: usize,
        connector_tree_hashes: &Vec<Vec<[u8; 32]>>,
    ) -> (r: Result<Vec<Vec<OutPoint>>, BridgeError>)
        requires
            depth < 32,
            connector_tree_shape(connector_tree_hashes.deep_view(), depth as nat),
            fees_covered(root_value as nat, MIN_RELAY_FEE as nat, depth as nat),
        ensures
            match r {
                Ok(tree) => {
                    &&& connector_addresses_exist(
                        self.verifiers(),
                        actor_pk@,
                        connector_tree_hashes.deep_view(),
                        depth as nat,
                    )
                    &&& is_connector_utxo_tree(
                        tree@,
                        self.verifiers(),
                        actor_pk@,
                        root_utxo@,
                        root_value as nat,
                        connector_tree_hashes.deep_view(),
                        depth as nat,
                    )
                },
                Err(e) => e == BridgeError::ScriptBuildError && !connector_addresses_exist(
                    self.verifiers(),
                    actor_pk@,
                    connector_tree_hashes.deep_view(),
                    depth as nat,
                ),
            },
    {
        let ghost hashes = connector_tree_hashes.deep_view();
        let ghost verifiers = self.verifiers();
        let mut tree: Vec<Vec<OutPoint>> = Vec::new();
        let mut roots: Vec<OutPoint> = Vec::new();
        roots.push(root_utxo);
        tree.push(roots);
        proof {
            lemma2_to64();
        }
        let mut value: u64 = root_value;
        let mut level: usize = 0;
        while level < depth
            invariant
                level <= depth < 32,
                hashes == connector_tree_hashes.deep_view(),
                verifiers == self.verifiers(),
                connector_tree_shape(hashes, depth as nat),
                fees_covered(root_value as nat, MIN_RELAY_FEE as nat, depth as nat),
                value == connector_node_amount(root_value as nat, MIN_RELAY_FEE as nat, level as nat),
                tree@.len() == level + 1,
                forall|l: int| 0 <= l <= level ==> (#[trigger] tree@[l])@.len() == pow2(l as nat),
                forall|l: int, index: int|
                    0 <= l <= level && 0 <= index < pow2(l as nat) ==> (#[trigger] tree@[l]@[index])@
                        == connector_utxo(
                        verifiers,
                        actor_pk@,
                        root_utxo@,
                        root_value as nat,
                        hashes,
                        depth as nat,
                        l as nat,
                        index as nat,
                    ),
                forall|l: nat, index: nat|
                    1 <= l <= level && index < pow2(l) ==> (#[trigger] connector_node_address(
                        verifiers,
                        actor_pk@,
                        hashes,
                        depth as nat,
                        l,
                        index,
                    )) is Some,
            decreases depth - level,
        {
            proof {
                lemma_fees_covered_prefix(
                    root_value as nat,
                    MIN_RELAY_FEE as nat,
                    (level + 1) as nat,
                    depth as nat,
                );
            }
            let children = match self.connector_tree_level(
                actor_pk,
                &tree[level],
                value,
                root_utxo,
                root_value,
                depth,
                connector_tree_hashes,
                level + 1,
            ) {
                Ok(children) => children,
                Err(e) => {
                    return Err(e);
                },
            };
            tree.push(children);
            value = (value - MIN_RELAY_FEE) / 2;
            level = level + 1;
        }
        Ok(tree)
    }
}

/// The list of one script.
pub fn one_script(script: Vec<u8>) -> (scripts: Vec<Vec<u8>>)
    ensures
        scripts.deep_view() == seq![script@],
        scripts@ == seq![script],
{
    let mut scripts: Vec<Vec<u8>> = Vec::new();
    scripts.push(script);
    proof {
        lemma_bytes_deep_view(script);
        assert(scripts.deep_view() =~= seq![script@]);
        assert(scripts@ =~= seq![script]);
    }
    scripts
}

/// The list of two scripts.
pub fn two_scripts(first: Vec<u8>, second: Vec<u8>) -> (scripts: Vec<Vec<u8>>)
    ensures
        scripts.deep_view() == seq![first@, second@],
        scripts@ == seq![first, second],
{
    let mut scripts: Vec<Vec<u8>> = Vec::new();
    scripts.push(first);
    scripts.push(second);
    proof {
        lemma_bytes_deep_view(first);
        lemma_bytes_deep_view(second);
        assert(scripts.deep_view() =~= seq![first@, second@]);
        assert(scripts@ =~= seq![first, second]);
    }
    scripts
}

} // verus!
