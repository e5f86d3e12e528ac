//! The operator: it takes deposits into the bridge, keeps the connector
//! tree, and claims what it has paid out.

use vstd::prelude::*;
use vstd::arithmetic::power2::{lemma2_to64, lemma_pow2_strictly_increases, lemma_pow2_unfold, pow2};
use crate::actor::{
    Actor, deposit_digest, ecdsa_recoverable_signature, evm_signature, prevouts_bytes,
    random_bytes32, signs, taproot_key_spend_sighash, taproot_script_spend_sighash,
};
use crate::config::{
    BRIDGE_AMOUNT_SATS, CONNECTOR_TREE_DEPTH, CONNECTOR_TREE_OPERATOR_TAKES_AFTER, DEPTH,
    DUST_VALUE, MIN_RELAY_FEE,
};
use crate::errors::BridgeError;
use crate::hash::{bytes32_eq, bytes_eq, hash_32, sha256};
use crate::merkle::IncrementalMerkleTree;
use crate::script_builder::{
    n_of_n_script, n_of_n_with_hash_script, OP_TRUE, p2wsh_script, ScriptBuilder, timelock_script,
};
use crate::taproot::{INTERNAL_KEY, taproot_control_block, taproot_key_spend_output_key};
use crate::transaction::{
    OutPointView,
    copy_bytes, OutPoint, Transaction, TransactionView, txid_of, TxOut, TxOutView, wire_bytes,
};
use crate::transaction_builder::{
    claim_tx_view, is_connector_utxo_tree, move_tx_view,
    bridge_tx, claim_tx_spec, connector_addresses_exist, connector_node_address,
    connector_node_scripts, connector_timelock, connector_tree_tx_spec, connector_utxo,
    DEFAULT_SEQUENCE, deposit_scripts, is_signed_inscription_pair, move_tx_spec, plain_input,
    plain_inputs, taproot_address_script, TransactionBuilder,
};
use crate::utils::{
    calculate_amount, connector_amount, connector_node_amount, connector_node_value,
    connector_tree_node_value, connector_tree_shape, get_claim_reveal_indices,
    handle_taproot_witness, indices_view, lemma_connector_amounts_bounded,
    lemma_connector_amounts_cover_fees, lemma_reveal_indices_in_tree, one_item, pow2_u64,
    replace_witness, reveal_indices, script_path_witness, with_witness,
};
use crate::views::{lemma_array_deep_view, lemma_bytes_deep_view, lemma_push_deep_view};

verus! {

/// What a verifier signs before a deposit is made: the credit on the
/// rollup, the move of the deposit into the bridge, and the operator's
/// later claim.
#[derive(Debug, Clone, Copy)]
pub struct DepositPresigns {
    pub rollup_sign: [u8; 65],
    pub move_sign: [u8; 64],
    pub operator_claim_sign: [u8; 64],
}

/// Whether `hashes` holds the SHA-256 of each preimage, slot by slot.
pub open spec fn hashes_match(preimages: Seq<Seq<Seq<u8>>>, hashes: Seq<Seq<Seq<u8>>>) -> bool {
    &&& hashes.len() == preimages.len()
    &&& forall|level: int|
        0 <= level < preimages.len() ==> (#[trigger] hashes[level]).len() == preimages[level].len()
    &&& forall|level: int, index: int|
        0 <= level < preimages.len() && 0 <= index < preimages[level].len() ==> (
        #[trigger] hashes[level][index]) == sha256(preimages[level][index])
}

/// The SHA-256 of each preimage of a level.
fn hash_level(preimages: &Vec<[u8; 32]>) -> (hashes: Vec<[u8; 32]>)
    ensures
        hashes@.len() == preimages@.len(),
        forall|i: int| 0 <= i < preimages@.len() ==> (#[trigger] hashes@[i])@ == sha256(preimages@[i]@),
{
    let mut hashes: Vec<[u8; 32]> = Vec::new();
    let mut i: usize = 0;
    while i < preimages.len()
        invariant
            i <= preimages@.len(),
            hashes@.len() == i,
            forall|k: int| 0 <= k < i ==> (#[trigger] hashes@[k])@ == sha256(preimages@[k]@),
        decreases preimages@.len() - i,
    {
        hashes.push(hash_32(&preimages[i]));
        i = i + 1;
    }
    hashes
}

/// The hashes that commit to the preimages of a connector tree.
pub fn hash_connector_tree_preimages(preimages: &Vec<Vec<[u8; 32]>>) -> (hashes: Vec<Vec<[u8; 32]>>)
    ensures
        hashes_match(preimages.deep_view(), hashes.deep_view()),
{
    let mut hashes: Vec<Vec<[u8; 32]>> = Vec::new();
    let mut level: usize = 0;
    while level < preimages.len()
        invariant
            level <= preimages@.len(),
            hashes@.len() == level,
            forall|l: int|
                0 <= l < level ==> (#[trigger] hashes@[l])@.len() == preimages@[l]@.len(),
            forall|l: int, i: int|
                0 <= l < level && 0 <= i < preimages@[l]@.len() ==> (#[trigger] hashes@[l]@[i])@
                    == sha256(preimages@[l]@[i]@),
        decreases preimages@.len() - level,
    {
        hashes.push(hash_level(&preimages[level]));
        level = level + 1;
    }
    proof {
        let p = preimages.deep_view();
        let h = hashes.deep_view();
        assert forall|l: int| 0 <= l < p.len() implies (#[trigger] h[l]).len() == p[l].len() by {}
        assert forall|l: int, i: int| 0 <= l < p.len() && 0 <= i < p[l].len() implies (
        #[trigger] h[l][i]) == sha256(p[l][i]) by {
            lemma_array_deep_view(hashes@[l]@[i]);
            lemma_array_deep_view(preimages@[l]@[i]);
            assert(hashes@[l]@[i]@ == sha256(preimages@[l]@[i]@));
        }
    }
    hashes
}

/// Draws a random preimage for every node of a connector tree of the given
/// depth.
pub fn create_connector_tree_preimages(depth: usize, rng: &mut secp256k1::rand::rngs::OsRng) -> (preimages:
    Vec<Vec<[u8; 32]>>)
    requires
        depth < 32,
    ensures
        connector_tree_shape(preimages.deep_view(), depth as nat),
{
    let mut preimages: Vec<Vec<[u8; 32]>> = Vec::new();
    let mut level: usize = 0;
    while level <= depth
        invariant
            level <= depth + 1,
            depth < 32,
            preimages@.len() == level,
            forall|l: int| 0 <= l < level ==> (#[trigger] preimages@[l])@.len() == pow2(l as nat),
        decreases depth + 1 - level,
    {
        proof {
            lemma2_to64();
            if level < 31 {
                lemma_pow2_strictly_increases(level as nat, 31);
            }
        }
        let width: u64 = pow2_u64(level);
        let mut current: Vec<[u8; 32]> = Vec::new();
        let mut i: u64 = 0;
        while i < width
            invariant
                i <= width,
                current@.len() == i,
            decreases width - i,
        {
            current.push(random_bytes32(rng));
            i = i + 1;
        }
        preimages.push(current);
        level = level + 1;
    }
    proof {
        let p = preimages.deep_view();
        assert forall|l: int| 0 <= l <= depth implies (#[trigger] p[l]).len() == pow2(l as nat) by {
            assert(preimages@[l]@.len() == pow2(l as nat));
        }
    }
    preimages
}

/// Draws the preimages of a connector tree of the given depth and commits
/// to them: every hash is the SHA-256 of the preimage in its slot.
pub fn create_connector_tree_preimages_and_hashes(
    depth: usize,
    rng: &mut secp256k1::rand::rngs::OsRng,
) -> (tree: (Vec<Vec<[u8; 32]>>, Vec<Vec<[u8; 32]>>))
    requires
        depth < 32,
    ensures
        connector_tree_shape(tree.0.deep_view(), depth as nat),
        connector_tree_shape(tree.1.deep_view(), depth as nat),
        hashes_match(tree.0.deep_view(), tree.1.deep_view()),
{
    let preimages = create_connector_tree_preimages(depth, rng);
    let hashes = hash_connector_tree_preimages(&preimages);
    (preimages, hashes)
}

/// A copy of a list of 32-byte values.
pub fn copy_keys(keys: &Vec<[u8; 32]>) -> (copy: Vec<[u8; 32]>)
    ensures
        copy@ == keys@,
{
    let mut copy: Vec<[u8; 32]> = Vec::new();
    let mut i: usize = 0;
    while i < keys.len()
        invariant
            i <= keys@.len(),
            copy@ == keys@.take(i as int),
        decreases keys@.len() - i,
    {
        copy.push(keys[i]);
        i = i + 1;
        assert(copy@ =~= keys@.take(i as int));
    }
    assert(keys@.take(i as int) =~= keys@);
    copy
}

/// The presignatures on record for a deposit: those of the latest entry
/// made under the deposit's transaction id.
pub open spec fn presigns_of(
    store: Seq<([u8; 32], Vec<DepositPresigns>)>,
    txid: Seq<u8>,
) -> Option<Seq<DepositPresigns>>
    decreases store.len(),
{
    if store.len() == 0 {
        None
    } else if store.last().0@ == txid {
        Some(store.last().1@)
    } else {
        presigns_of(store.drop_last(), txid)
    }
}

/// The rollup signatures of a list of presignatures, in order.
pub open spec fn rollup_signs(presigns: Seq<DepositPresigns>) -> Seq<[u8; 65]> {
    Seq::new(presigns.len(), |i: int| presigns[i].rollup_sign)
}

/// The move signatures of a list of presignatures, in order.
pub open spec fn move_signs(presigns: Seq<DepositPresigns>) -> Seq<Seq<u8>> {
    Seq::new(presigns.len(), |i: int| presigns[i].move_sign@)
}

/// The claim signatures of a list of presignatures, in order.
pub open spec fn claim_signs(presigns: Seq<DepositPresigns>) -> Seq<Seq<u8>> {
    Seq::new(presigns.len(), |i: int| presigns[i].operator_claim_sign@)
}

/// The operator of the bridge. The presignatures are a map from the
/// deposit's transaction id, written down as the list of its entries in the
/// order in which they were made: the latest entry under an id is the one
/// that counts, as `presigns_of` says.
pub struct Operator {
    pub signer: Actor,
    pub script_builder: ScriptBuilder,
    pub transaction_builder: TransactionBuilder,
    pub verifiers_pks: Vec<[u8; 32]>,
    pub verifier_evm_addresses: Vec<[u8; 20]>,
    pub deposit_presigns: Vec<([u8; 32], Vec<DepositPresigns>)>,
    pub deposit_merkle_tree: IncrementalMerkleTree,
    pub withdrawals_merkle_tree: IncrementalMerkleTree,
    pub withdrawals_payment_txids: Vec<[u8; 32]>,
    pub preimages: Vec<[u8; 32]>,
    pub connector_tree_utxos: Vec<Vec<OutPoint>>,
    pub connector_tree_preimages: Vec<Vec<[u8; 32]>>,
    pub connector_tree_hashes: Vec<Vec<[u8; 32]>>,
    pub deposit_utxos: Vec<OutPoint>,
    pub move_utxos: Vec<OutPoint>,
    pub current_preimage_for_deposit_requests: [u8; 32],
}

impl Operator {
    /// The keys that sign for the bridge: the verifiers', then the
    /// operator's own.
    pub open spec fn all_verifiers(&self) -> Seq<Seq<u8>> {
        self.verifiers_pks.deep_view().push(self.signer.spec_xonly_public_key())
    }

    /// The operator's invariant: its key material is sound, its builders
    /// are made for its own signing set, its accumulators are well formed,
    /// and its connector hashes commit to its connector preimages.
    pub open spec fn wf(&self) -> bool {
        &&& self.signer.wf()
        &&& self.script_builder.verifiers_pks.deep_view() == self.all_verifiers()
        &&& self.transaction_builder.script_builder.verifiers_pks.deep_view()
            == self.all_verifiers()
        &&& self.deposit_merkle_tree.wf()
        &&& self.withdrawals_merkle_tree.wf()
        &&& connector_tree_shape(
            self.connector_tree_preimages.deep_view(),
            CONNECTOR_TREE_DEPTH as nat,
        )
        &&& connector_tree_shape(self.connector_tree_hashes.deep_view(), CONNECTOR_TREE_DEPTH as nat)
        &&& hashes_match(
            self.connector_tree_preimages.deep_view(),
            self.connector_tree_hashes.deep_view(),
        )
    }

    /// What nothing changes once the operator is made: its keys, its
    /// signing set and its connector preimages and hashes.
    pub open spec fn same_keys(&self, other: &Operator) -> bool {
        &&& self.signer == other.signer
        &&& self.script_builder == other.script_builder
        &&& self.transaction_builder == other.transaction_builder
        &&& self.verifiers_pks == other.verifiers_pks
        &&& self.verifier_evm_addresses == other.verifier_evm_addresses
        &&& self.preimages == other.preimages
        &&& self.connector_tree_preimages == other.connector_tree_preimages
        &&& self.connector_tree_hashes == other.connector_tree_hashes
    }

    /// What only a deposit that is moved changes: the keys, and the
    /// preimage that the next deposit is locked with.
    pub open spec fn same_identity(&self, other: &Operator) -> bool {
        &&& self.same_keys(other)
        &&& self.current_preimage_for_deposit_requests
            == other.current_preimage_for_deposit_requests
    }

    /// A new operator with a fresh key, fresh connector preimages and a
    /// fresh preimage for the first deposit, for the given verifiers: there
    /// always is one. Its builders are made for the verifiers and itself,
    /// its connector hashes are those of its connector preimages, and its
    /// records and accumulators are empty.
    pub fn new(rng: &mut secp256k1::rand::rngs::OsRng, verifiers_pks: Vec<[u8; 32]>) -> (r: Option<
        Operator,
    >)
        ensures
            r matches Some(operator) && {
                &&& operator.wf()
                &&& operator.verifiers_pks == verifiers_pks
                &&& operator.verifier_evm_addresses@.len() == 0
                &&& operator.preimages@.len() == 0
                &&& operator.deposit_presigns@.len() == 0
                &&& operator.deposit_merkle_tree@.len() == 0
                &&& operator.deposit_merkle_tree.spec_depth() == DEPTH
                &&& operator.withdrawals_merkle_tree@.len() == 0
                &&& operator.withdrawals_merkle_tree.spec_depth() == DEPTH
                &&& operator.withdrawals_payment_txids@.len() == 0
                &&& operator.connector_tree_utxos@.len() == 0
                &&& operator.deposit_utxos@.len() == 0
                &&& operator.move_utxos@.len() == 0
            },
    {
        let signer = match Actor::new(rng) {
            Some(signer) => signer,
            None => {
                return None;
            },
        };
        let (connector_tree_preimages, connector_tree_hashes) =
            create_connector_tree_preimages_and_hashes(CONNECTOR_TREE_DEPTH, rng);
        let mut all_verifiers = copy_keys(&verifiers_pks);
        let ghost before = all_verifiers;
        let own_key = signer.xonly_public_key();
        all_verifiers.push(own_key);
        proof {
            lemma_push_deep_view(before, all_verifiers, own_key);
            lemma_array_deep_view(own_key);
            assert(before.deep_view() =~= verifiers_pks.deep_view());
        }
        let script_builder = ScriptBuilder::new(copy_keys(&all_verifiers));
        let transaction_builder = TransactionBuilder::new(all_verifiers);
        assert(script_builder.verifiers_pks.deep_view() =~= all_verifiers.deep_view());
        let deposit_merkle_tree = match IncrementalMerkleTree::new(DEPTH) {
            Ok(tree) => tree,
            Err(_) => {
                return None;
            },
        };
        let withdrawals_merkle_tree = match IncrementalMerkleTree::new(DEPTH) {
            Ok(tree) => tree,
            Err(_) => {
                return None;
            },
        };
        let current_preimage_for_deposit_requests = random_bytes32(rng);
        Some(
            Operator {
                signer,
                script_builder,
                transaction_builder,
                verifiers_pks,
                verifier_evm_addresses: Vec::new(),
                deposit_presigns: Vec::new(),
                deposit_merkle_tree,
                withdrawals_merkle_tree,
                withdrawals_payment_txids: Vec::new(),
                preimages: Vec::new(),
                connector_tree_utxos: Vec::new(),
                connector_tree_preimages,
                connector_tree_hashes,
                deposit_utxos: Vec::new(),
                move_utxos: Vec::new(),
                current_preimage_for_deposit_requests,
            },
        )
    }

    /// Draws a new preimage for the next deposit. Nothing is known of it:
    /// it is what the random number generator gave, and takes the place of
    /// the old one as `set_preimage_for_deposit_requests` says.
    pub fn change_preimage_for_deposit_requests(&mut self, rng: &mut secp256k1::rand::rngs::OsRng)
        requires
            old(self).wf(),
        ensures
            final(self).wf(),
            final(self).same_keys(old(self)),
            final(self).deposit_presigns == old(self).deposit_presigns,
            final(self).deposit_merkle_tree == old(self).deposit_merkle_tree,
            final(self).withdrawals_merkle_tree == old(self).withdrawals_merkle_tree,
            final(self).withdrawals_payment_txids == old(self).withdrawals_payment_txids,
            final(self).connector_tree_utxos == old(self).connector_tree_utxos,
            final(self).deposit_utxos == old(self).deposit_utxos,
            final(self).move_utxos == old(self).move_utxos,
    {
        let preimage = random_bytes32(rng);
        self.set_preimage_for_deposit_requests(preimage);
    }

    /// Makes `preimage` the preimage that the next deposit is locked with.
    /// Nothing else changes.
    pub fn set_preimage_for_deposit_requests(&mut self, preimage: [u8; 32])
        requires
            old(self).wf(),
        ensures
            final(self).wf(),
            final(self).current_preimage_for_deposit_requests == preimage,
            final(self).same_keys(old(self)),
            final(self).deposit_presigns == old(self).deposit_presigns,
            final(self).deposit_merkle_tree == old(self).deposit_merkle_tree,
            final(self).withdrawals_merkle_tree == old(self).withdrawals_merkle_tree,
            final(self).withdrawals_payment_txids == old(self).withdrawals_payment_txids,
            final(self).connector_tree_utxos == old(self).connector_tree_utxos,
            final(self).deposit_utxos == old(self).deposit_utxos,
            final(self).move_utxos == old(self).move_utxos,
    {
        self.current_preimage_for_deposit_requests = preimage;
    }

    /// Records the outpoint of a deposit.
    pub fn add_deposit_utxo(&mut self, utxo: OutPoint)
        ensures
            final(self).deposit_utxos@ == old(self).deposit_utxos@.push(utxo),
            final(self).same_identity(old(self)),
            final(self).deposit_presigns == old(self).deposit_presigns,
            final(self).deposit_merkle_tree == old(self).deposit_merkle_tree,
            final(self).withdrawals_merkle_tree == old(self).withdrawals_merkle_tree,
            final(self).withdrawals_payment_txids == old(self).withdrawals_payment_txids,
            final(self).connector_tree_utxos == old(self).connector_tree_utxos,
            final(self).move_utxos == old(self).move_utxos,
    {
        self.deposit_utxos.push(utxo);
    }

    /// The keys that sign for the bridge: the verifiers', then the
    /// operator's own.
    pub fn get_all_verifiers(&self) -> (all: Vec<[u8; 32]>)
        ensures
            all.deep_view() == self.all_verifiers(),
    {
        let mut all = copy_keys(&self.verifiers_pks);
        let ghost before = all;
        let own_key = self.signer.xonly_public_key();
        all.push(own_key);
        proof {
            lemma_push_deep_view(before, all, own_key);
            lemma_array_deep_view(own_key);
            assert(before.deep_view() =~= self.verifiers_pks.deep_view());
        }
        all
    }

    /// Replaces the outpoints of the connector tree.
    pub fn set_connector_tree_utxos(&mut self, connector_tree_utxos: Vec<Vec<OutPoint>>)
        ensures
            final(self).connector_tree_utxos == connector_tree_utxos,
            final(self).same_identity(old(self)),
            final(self).deposit_presigns == old(self).deposit_presigns,
            final(self).deposit_merkle_tree == old(self).deposit_merkle_tree,
            final(self).withdrawals_merkle_tree == old(self).withdrawals_merkle_tree,
            final(self).withdrawals_payment_txids == old(self).withdrawals_payment_txids,
            final(self).deposit_utxos == old(self).deposit_utxos,
            final(self).move_utxos == old(self).move_utxos,
    {
        self.connector_tree_utxos = connector_tree_utxos;
    }

    /// The presignatures on record for the deposit with the given
    /// transaction id.
    pub fn find_presigns(&self, txid: &[u8; 32]) -> (found: Option<usize>)
        ensures
            match found {
                Some(at) => at < self.deposit_presigns@.len() && presigns_of(
                    self.deposit_presigns@,
                    txid@,
                ) == Some(self.deposit_presigns@[at as int].1@),
                None => presigns_of(self.deposit_presigns@, txid@) is None,
            },
    {
        let mut i: usize = self.deposit_presigns.len();
        assert(self.deposit_presigns@.take(i as int) =~= self.deposit_presigns@);
        while i > 0
            invariant
                i <= self.deposit_presigns@.len(),
                presigns_of(self.deposit_presigns@.take(i as int), txid@) == presigns_of(
                    self.deposit_presigns@,
                    txid@,
                ),
            decreases i,
        {
            let ghost front = self.deposit_presigns@.take(i as int);
            assert(front.last() == self.deposit_presigns@[i - 1]);
            assert(front.drop_last() =~= self.deposit_presigns@.take(i - 1));
            if bytes32_eq(&self.deposit_presigns[i - 1].0, txid) {
                return Some(i - 1);
            }
            i = i - 1;
        }
        None
    }

    /// The end of the first period, in which the bridge's funds are moved
    /// on: nothing is done yet.
    pub fn period1_end(&self) {
    }

    /// The end of the second period, in which the proof is made: nothing is
    /// done yet.
    pub fn period2_end(&self) {
    }

    /// The end of the third period, in which the proof is sent: nothing is
    /// done yet.
    pub fn period3_end(&self) {
    }

    /// The answer to a verifier's challenge: nothing is done yet.
    pub fn challenge_received() {
    }
}

/// The transaction by which a depositor pays the bridge amount to the
/// deposit address.
pub open spec fn deposit_tx_spec(start_utxo: OutPoint, deposit_script: Seq<u8>) -> TransactionView {
    bridge_tx(
        seq![plain_input(start_utxo, DEFAULT_SEQUENCE)],
        seq![TxOutView { value: BRIDGE_AMOUNT_SATS, script_pubkey: deposit_script }],
    )
}

/// Whether a transaction is the deposit that was announced: it spends the
/// start outpoint first, it is the transaction the deposit outpoint names,
/// and that output pays the bridge amount to the deposit address.
pub open spec fn deposit_is_valid(
    tx: TransactionView,
    start_utxo: OutPoint,
    deposit_utxo: OutPoint,
    deposit_script: Seq<u8>,
) -> bool {
    &&& tx.input.len() > 0
    &&& tx.input[0].previous_output == start_utxo@
    &&& txid_of(tx) == deposit_utxo.txid@
    &&& deposit_utxo.vout < tx.output.len()
    &&& tx.output[deposit_utxo.vout as int].value == BRIDGE_AMOUNT_SATS
    &&& tx.output[deposit_utxo.vout as int].script_pubkey == deposit_script
}

/// Checks a deposit transaction against what was announced. Anything else
/// is an `InvalidDeposit`.
pub fn check_deposit(
    deposit_tx: &Transaction,
    start_utxo: OutPoint,
    deposit_utxo: OutPoint,
    deposit_address: &Vec<u8>,
) -> (r: Result<(), BridgeError>)
    ensures
        r is Ok <==> deposit_is_valid(
            deposit_tx.deep_view(),
            start_utxo,
            deposit_utxo,
            deposit_address@,
        ),
        r matches Err(e) ==> e == BridgeError::InvalidDeposit,
{
    if deposit_tx.input.len() == 0 {
        return Err(BridgeError::InvalidDeposit);
    }
    let spent = &deposit_tx.input[0].previous_output;
    if spent.vout != start_utxo.vout || !bytes32_eq(&spent.txid, &start_utxo.txid) {
        return Err(BridgeError::InvalidDeposit);
    }
    let txid = deposit_tx.txid();
    if !bytes32_eq(&txid, &deposit_utxo.txid) {
        return Err(BridgeError::InvalidDeposit);
    }
    if deposit_utxo.vout as usize >= deposit_tx.output.len() {
        return Err(BridgeError::InvalidDeposit);
    }
    let output = &deposit_tx.output[deposit_utxo.vout as usize];
    if output.value != BRIDGE_AMOUNT_SATS {
        return Err(BridgeError::InvalidDeposit);
    }
    if !bytes_eq(output.script_pubkey.as_slice(), deposit_address.as_slice()) {
        return Err(BridgeError::InvalidDeposit);
    }
    Ok(())
}

/// Why a deposit request is refused, if it is: there is no deposit address
/// for it, no verifier has presigned, or not every verifier has.
pub open spec fn new_deposit_error(address: Option<Seq<u8>>, presigns: nat, verifiers: nat) -> Option<
    BridgeError,
> {
    if address is None {
        Some(BridgeError::ScriptBuildError)
    } else if presigns == verifiers {
        None
    } else if presigns == 0 {
        Some(BridgeError::PresignMissing)
    } else {
        Some(BridgeError::PresignMalformed)
    }
}

/// The elements that satisfy the verifiers' script with a preimage: the
/// preimage is pushed, then the signatures in the order of the keys, and the
/// whole is reversed, so that the preimage comes off the stack first and
/// the signatures after it in the order of the keys.
pub open spec fn move_witness_elements(preimage: Seq<u8>, signatures: Seq<Seq<u8>>) -> Seq<Seq<u8>> {
    (seq![preimage] + signatures).reverse()
}

/// The elements that satisfy the verifiers' script: the signatures in the
/// reverse of the order of the keys.
pub open spec fn claim_witness_elements(signatures: Seq<Seq<u8>>) -> Seq<Seq<u8>> {
    signatures.reverse()
}

/// The signatures of the verifiers and the operator's own, last, in the
/// reverse of that order.
fn reversed_signatures(presigned: &Vec<[u8; 64]>, own: &[u8; 64]) -> (elements: Vec<Vec<u8>>)
    ensures
        elements.deep_view() == Seq::new(presigned@.len(), |i: int| presigned@[i]@).push(
            own@,
        ).reverse(),
{
    let ghost signatures = Seq::new(presigned@.len(), |i: int| presigned@[i]@).push(own@);
    let mut elements: Vec<Vec<u8>> = Vec::new();
    elements.push(copy_bytes(own.as_slice()));
    let mut i: usize = presigned.len();
    while i > 0
        invariant
            i <= presigned@.len(),
            signatures == Seq::new(presigned@.len(), |i: int| presigned@[i]@).push(own@),
            elements@.len() == presigned@.len() - i + 1,
            forall|k: int|
                0 <= k < elements@.len() ==> (#[trigger] elements@[k])@ == signatures[signatures.len()
                    - 1 - k],
        decreases i,
    {
        i = i - 1;
        elements.push(copy_bytes(presigned[i].as_slice()));
    }
    proof {
        assert forall|k: int| 0 <= k < elements@.len() implies (#[trigger] elements.deep_view()[k])
            == signatures.reverse()[k] by {
            lemma_bytes_deep_view(elements@[k]);
        }
        assert(elements.deep_view() =~= signatures.reverse());
    }
    elements
}

/// The move signatures of the presignatures, in order.
fn collect_move_signs(presigns: &Vec<DepositPresigns>) -> (signs: Vec<[u8; 64]>)
    ensures
        Seq::new(signs@.len(), |i: int| signs@[i]@) == move_signs(presigns@),
{
    let mut signs: Vec<[u8; 64]> = Vec::new();
    let mut i: usize = 0;
    while i < presigns.len()
        invariant
            i <= presigns@.len(),
            signs@.len() == i,
            forall|k: int| 0 <= k < i ==> (#[trigger] signs@[k]) == presigns@[k].move_sign,
        decreases presigns@.len() - i,
    {
        signs.push(presigns[i].move_sign);
        i = i + 1;
    }
    assert(Seq::new(signs@.len(), |i: int| signs@[i]@) =~= move_signs(presigns@));
    signs
}

/// The claim signatures of the presignatures, in order.
fn collect_claim_signs(presigns: &Vec<DepositPresigns>) -> (signs: Vec<[u8; 64]>)
    ensures
        Seq::new(signs@.len(), |i: int| signs@[i]@) == claim_signs(presigns@),
{
    let mut signs: Vec<[u8; 64]> = Vec::new();
    let mut i: usize = 0;
    while i < presigns.len()
        invariant
            i <= presigns@.len(),
            signs@.len() == i,
            forall|k: int| 0 <= k < i ==> (#[trigger] signs@[k]) == presigns@[k].operator_claim_sign,
        decreases presigns@.len() - i,
    {
        signs.push(presigns[i].operator_claim_sign);
        i = i + 1;
    }
    assert(Seq::new(signs@.len(), |i: int| signs@[i]@) =~= claim_signs(presigns@));
    signs
}

/// The witness elements of a move transaction: the verifiers' move
/// signatures and the operator's own, reversed, then the preimage.
pub fn build_move_witness_elements(
    preimage: &[u8; 32],
    presigns: &Vec<DepositPresigns>,
    own_signature: &[u8; 64],
) -> (elements: Vec<Vec<u8>>)
    ensures
        elements.deep_view() == move_witness_elements(
            preimage@,
            move_signs(presigns@).push(own_signature@),
        ),
{
    let signs = collect_move_signs(presigns);
    let mut elements = reversed_signatures(&signs, own_signature);
    let ghost before = elements;
    let copy = copy_bytes(preimage.as_slice());
    elements.push(copy);
    proof {
        lemma_push_deep_view(before, elements, copy);
        lemma_bytes_deep_view(copy);
        let signatures = move_signs(presigns@).push(own_signature@);
        assert(elements.deep_view() =~= move_witness_elements(preimage@, signatures));
    }
    elements
}

/// The witness elements of the claim of a moved deposit: the verifiers'
/// claim signatures and the operator's own, reversed.
pub fn build_claim_witness_elements(presigns: &Vec<DepositPresigns>, own_signature: &[u8; 64]) -> (elements:
    Vec<Vec<u8>>)
    ensures
        elements.deep_view() == claim_witness_elements(
            claim_signs(presigns@).push(own_signature@),
        ),
{
    let signs = collect_claim_signs(presigns);
    reversed_signatures(&signs, own_signature)
}

/// The script that pays to a taproot address, read as such: the x-only key
/// behind the two bytes that mark a pay-to-taproot output.
pub open spec fn taproot_key_of(script_pubkey: Seq<u8>) -> Seq<u8> {
    script_pubkey.skip(2)
}

impl Operator {
    /// What no deposit request changes.
    pub open spec fn same_ledger(&self, other: &Operator) -> bool {
        &&& self.same_identity(other)
        &&& self.deposit_merkle_tree == other.deposit_merkle_tree
        &&& self.withdrawals_merkle_tree == other.withdrawals_merkle_tree
        &&& self.withdrawals_payment_txids == other.withdrawals_payment_txids
        &&& self.connector_tree_utxos == other.connector_tree_utxos
        &&& self.deposit_utxos == other.deposit_utxos
        &&& self.move_utxos == other.move_utxos
    }

    /// Takes a deposit request for which every verifier has presigned, in
    /// the order of the verifiers. The presignatures are put on record under
    /// the id of the deposit transaction, and the rollup signatures of the
    /// verifiers are returned with the operator's own behind them. The
    /// request is refused, and nothing recorded, where there is no deposit
    /// address for it or the presignatures are not one per verifier.
    #[verifier::rlimit(50)]
    pub fn new_deposit(
        &mut self,
        start_utxo: OutPoint,
        index: u32,
        hash: [u8; 32],
        return_address: [u8; 32],
        evm_address: [u8; 20],
        presigns_from_all_verifiers: Vec<DepositPresigns>,
    ) -> (r: Result<Vec<[u8; 65]>, BridgeError>)
        requires
            old(self).wf(),
        ensures
            final(self).wf(),
            final(self).same_ledger(old(self)),
            new_deposit_error(
                taproot_address_script(
                    deposit_scripts(old(self).all_verifiers(), return_address@, hash@),
                ),
                presigns_from_all_verifiers@.len(),
                old(self).verifiers_pks@.len(),
            ) == (match r {
                Ok(_) => None,
                Err(e) => Some(e),
            }),
            r is Err ==> final(self).deposit_presigns == old(self).deposit_presigns,
            r matches Ok(signs) ==> {
                &&& taproot_address_script(
                    deposit_scripts(old(self).all_verifiers(), return_address@, hash@),
                ) matches Some(deposit_script)
                &&& final(self).deposit_presigns@.len() == old(self).deposit_presigns@.len() + 1
                &&& final(self).deposit_presigns@.drop_last() == old(self).deposit_presigns@
                &&& final(self).deposit_presigns@.last().0@ == txid_of(
                    deposit_tx_spec(start_utxo, deposit_script),
                )
                &&& final(self).deposit_presigns@.last().1 == presigns_from_all_verifiers
                &&& signs@.drop_last() == rollup_signs(presigns_from_all_verifiers@)
                &&& ecdsa_recoverable_signature(
                    old(self).signer.spec_secret_key(),
                    deposit_digest(
                        txid_of(deposit_tx_spec(start_utxo, deposit_script)),
                        evm_address@,
                        hash@,
                    ),
                ) matches Some((id, compact))
                &&& signs@.len() > 0
                &&& signs@.last()@ == evm_signature(id, compact)
            },
    {
        let (deposit_address, _) = match self.transaction_builder.generate_deposit_address(
            &return_address,
            &hash,
        ) {
            Ok(address) => address,
            Err(e) => {
                return Err(e);
            },
        };
        if presigns_from_all_verifiers.len() != self.verifiers_pks.len() {
            if presigns_from_all_verifiers.len() == 0 {
                return Err(BridgeError::PresignMissing);
            }
            return Err(BridgeError::PresignMalformed);
        }
        let mut utxos: Vec<OutPoint> = Vec::new();
        utxos.push(start_utxo);
        let deposit_tx_ins = TransactionBuilder::create_tx_ins(&utxos);
        let mut deposit_tx_outs: Vec<TxOut> = Vec::new();
        deposit_tx_outs.push(TxOut { value: BRIDGE_AMOUNT_SATS, script_pubkey: deposit_address });
        let deposit_tx = TransactionBuilder::create_btc_tx(deposit_tx_ins, deposit_tx_outs);
        proof {
            let expected = deposit_tx_spec(start_utxo, deposit_address@);
            assert(deposit_tx.deep_view().input =~= expected.input);
            assert(deposit_tx.deep_view().output =~= expected.output);
        }
        let deposit_txid = deposit_tx.txid();
        let rollup_sign = self.signer.sign_deposit(&deposit_txid, &evm_address, &hash);
        let mut all_rollup_signs: Vec<[u8; 65]> = Vec::new();
        let mut i: usize = 0;
        while i < presigns_from_all_verifiers.len()
            invariant
                i <= presigns_from_all_verifiers@.len(),
                all_rollup_signs@.len() == i,
                forall|k: int|
                    0 <= k < i ==> #[trigger] all_rollup_signs@[k]
                        == presigns_from_all_verifiers@[k].rollup_sign,
            decreases presigns_from_all_verifiers@.len() - i,
        {
            all_rollup_signs.push(presigns_from_all_verifiers[i].rollup_sign);
            i = i + 1;
        }
        all_rollup_signs.push(rollup_sign);
        assert(all_rollup_signs@.drop_last() =~= rollup_signs(presigns_from_all_verifiers@));
        self.deposit_presigns.push((deposit_txid, presigns_from_all_verifiers));
        assert(self.deposit_presigns@.drop_last() =~= old(self).deposit_presigns@);
        Ok(all_rollup_signs)
    }

    /// Takes a withdrawal to a taproot address: the address's key is added
    /// to the withdrawal accumulator. The caller pays the address and hands
    /// the payment to `record_withdrawal_payment`. Fails with `TreeFull`,
    /// changing nothing, when the accumulator is full.
    pub fn new_withdrawal(&mut self, withdrawal_address: &Vec<u8>) -> (r: Result<(), BridgeError>)
        requires
            old(self).wf(),
            withdrawal_address@.len() == 34,
        ensures
            final(self).wf(),
            final(self).same_identity(old(self)),
            final(self).deposit_presigns == old(self).deposit_presigns,
            final(self).deposit_merkle_tree == old(self).deposit_merkle_tree,
            final(self).withdrawals_payment_txids == old(self).withdrawals_payment_txids,
            final(self).connector_tree_utxos == old(self).connector_tree_utxos,
            final(self).deposit_utxos == old(self).deposit_utxos,
            final(self).move_utxos == old(self).move_utxos,
            final(self).withdrawals_merkle_tree.spec_depth() == old(self).withdrawals_merkle_tree.spec_depth(),
            old(self).withdrawals_merkle_tree@.len() < pow2(
                old(self).withdrawals_merkle_tree.spec_depth(),
            ) <==> r is Ok,
            r is Ok ==> final(self).withdrawals_merkle_tree@ == old(
                self,
            ).withdrawals_merkle_tree@.push(taproot_key_of(withdrawal_address@)),
            r matches Err(e) ==> e == BridgeError::TreeFull && final(self).withdrawals_merkle_tree
                == old(self).withdrawals_merkle_tree,
    {
        let mut key = [0u8; 32];
        let mut i: usize = 0;
        while i < 32
            invariant
                i <= 32,
                withdrawal_address@.len() == 34,
                forall|k: int| 0 <= k < i ==> key@[k] == withdrawal_address@[k + 2],
            decreases 32 - i,
        {
            key[i] = withdrawal_address[i + 2];
            i = i + 1;
        }
        assert(key@ =~= taproot_key_of(withdrawal_address@));
        self.withdrawals_merkle_tree.add(key)
    }

    /// Records the id of the transaction that paid a withdrawal.
    pub fn record_withdrawal_payment(&mut self, txid: [u8; 32])
        ensures
            final(self).withdrawals_payment_txids@ == old(self).withdrawals_payment_txids@.push(txid),
            final(self).same_identity(old(self)),
            final(self).deposit_presigns == old(self).deposit_presigns,
            final(self).deposit_merkle_tree == old(self).deposit_merkle_tree,
            final(self).withdrawals_merkle_tree == old(self).withdrawals_merkle_tree,
            final(self).connector_tree_utxos == old(self).connector_tree_utxos,
            final(self).deposit_utxos == old(self).deposit_utxos,
            final(self).move_utxos == old(self).move_utxos,
    {
        self.withdrawals_payment_txids.push(txid);
    }
}

/// Whether the two signatures are valid under `signer_key` for the move and
/// the claim of the deposit that pays to `deposit_script` from `start_utxo`:
/// the move spends the first output of the deposit transaction by the
/// verifiers' script with the hash, and the claim spends the first output of
/// the move, by the verifiers' script, together with the connector leaf
/// `connector_utxo` at `leaf_script`.
pub open spec fn presigned_for(
    move_sign: Seq<u8>,
    claim_sign: Seq<u8>,
    signer_key: Seq<u8>,
    verifiers: Seq<Seq<u8>>,
    start_utxo: OutPoint,
    deposit_script: Seq<u8>,
    bridge_script: Seq<u8>,
    hash: Seq<u8>,
    connector_utxo: OutPointView,
    leaf_script: Seq<u8>,
    operator_address: Seq<u8>,
) -> bool {
    let deposit = OutPointView {
        txid: txid_of(deposit_tx_spec(start_utxo, deposit_script)),
        vout: 0,
    };
    let move_tx = move_tx_view(deposit, bridge_script);
    let fund = OutPointView { txid: txid_of(move_tx), vout: 0 };
    &&& signs(
        move_sign,
        taproot_script_spend_sighash(
            wire_bytes(move_tx),
            prevouts_bytes(seq![deposit_output(deposit_script)]),
            n_of_n_with_hash_script(verifiers, hash),
            0,
        ),
        signer_key,
    )
    &&& signs(
        claim_sign,
        taproot_script_spend_sighash(
            wire_bytes(claim_tx_view(fund, connector_utxo, operator_address)),
            prevouts_bytes(
                claim_prevouts(
                    bridge_script,
                    Operator::connector_leaf_amount() as u64,
                    leaf_script,
                ),
            ),
            n_of_n_script(verifiers),
            0,
        ),
        signer_key,
    )
}

/// The output that a deposit is held in.
pub open spec fn deposit_output(deposit_script: Seq<u8>) -> TxOutView {
    TxOutView { value: BRIDGE_AMOUNT_SATS, script_pubkey: deposit_script }
}

/// Whether `tx` is the move transaction of the deposit with its witness
/// complete: the verifiers' move signatures and `own_signature`, reversed,
/// then the preimage, the verifiers' script and its control block.
pub open spec fn is_signed_move_tx(
    tx: TransactionView,
    verifiers: Seq<Seq<u8>>,
    deposit_utxo: OutPoint,
    bridge_script: Seq<u8>,
    preimage: Seq<u8>,
    presigns: Seq<DepositPresigns>,
    control_block: Seq<u8>,
    own_signature: Seq<u8>,
) -> bool {
    tx == with_witness(
        move_tx_spec(deposit_utxo, bridge_script),
        0,
        script_path_witness(
            move_witness_elements(preimage, move_signs(presigns).push(own_signature)),
            n_of_n_with_hash_script(verifiers, sha256(preimage)),
            control_block,
        ),
    )
}

/// The hash that a signer of the move transaction of a deposit signs.
pub open spec fn move_sighash(
    verifiers: Seq<Seq<u8>>,
    deposit_utxo: OutPoint,
    bridge_script: Seq<u8>,
    deposit_script: Seq<u8>,
    hash: Seq<u8>,
) -> Option<Seq<u8>> {
    taproot_script_spend_sighash(
        wire_bytes(move_tx_spec(deposit_utxo, bridge_script)),
        prevouts_bytes(seq![deposit_output(deposit_script)]),
        n_of_n_with_hash_script(verifiers, hash),
        0,
    )
}

/// Whether `tx` is the move transaction of the deposit with its witness
/// complete, for some signature of the operator's own that is valid for the
/// move transaction under the last of the keys, the operator's.
pub open spec fn is_move_tx_with_witness(
    tx: TransactionView,
    verifiers: Seq<Seq<u8>>,
    deposit_utxo: OutPoint,
    bridge_script: Seq<u8>,
    deposit_script: Seq<u8>,
    preimage: Seq<u8>,
    presigns: Seq<DepositPresigns>,
    control_block: Seq<u8>,
) -> bool {
    exists|own_signature: Seq<u8>| #[trigger]
        is_signed_move_tx(
            tx,
            verifiers,
            deposit_utxo,
            bridge_script,
            preimage,
            presigns,
            control_block,
            own_signature,
        ) && signs(
            own_signature,
            move_sighash(verifiers, deposit_utxo, bridge_script, deposit_script, sha256(preimage)),
            verifiers.last(),
        )
}

impl Operator {
    /// Why the operator cannot build the move transaction of a deposit, if
    /// it cannot. In this order: the hash is not that of the operator's
    /// current preimage; there is no deposit address; the transaction is not
    /// the announced deposit; no presignatures are on record; there is no
    /// bridge address; there is nothing to sign or no control block.
    pub open spec fn move_tx_error(
        &self,
        start_utxo: OutPoint,
        hash: Seq<u8>,
        deposit_utxo: OutPoint,
        return_address: Seq<u8>,
        deposit_tx: TransactionView,
    ) -> Option<BridgeError> {
        let all = self.all_verifiers();
        let script = n_of_n_with_hash_script(all, hash);
        if hash != sha256(self.current_preimage_for_deposit_requests@) {
            Some(BridgeError::InvalidDeposit)
        } else {
            match taproot_address_script(deposit_scripts(all, return_address, hash)) {
                None => Some(BridgeError::ScriptBuildError),
                Some(deposit_script) => if !deposit_is_valid(
                    deposit_tx,
                    start_utxo,
                    deposit_utxo,
                    deposit_script,
                ) {
                    Some(BridgeError::InvalidDeposit)
                } else if presigns_of(self.deposit_presigns@, deposit_utxo.txid@) is None {
                    Some(BridgeError::PresignMissing)
                } else {
                    match taproot_address_script(seq![n_of_n_script(all)]) {
                        None => Some(BridgeError::ScriptBuildError),
                        Some(bridge_script) => if taproot_script_spend_sighash(
                            wire_bytes(move_tx_spec(deposit_utxo, bridge_script)),
                            prevouts_bytes(seq![deposit_output(deposit_script)]),
                            script,
                            0,
                        ) is None || taproot_control_block(
                            INTERNAL_KEY@,
                            deposit_scripts(all, return_address, hash),
                            script,
                        ) is None {
                            Some(BridgeError::WitnessAssemblyError)
                        } else {
                            None
                        },
                    }
                },
            }
        }
    }

    /// Whether `move_tx` is a move transaction of the deposit as this
    /// operator builds it: with the bridge's address, the presignatures on
    /// record, some signature of the operator's own, the operator's current
    /// preimage and the control block of the verifiers' script.
    pub open spec fn is_move_tx_of(
        &self,
        move_tx: TransactionView,
        hash: Seq<u8>,
        deposit_utxo: OutPoint,
        return_address: Seq<u8>,
    ) -> bool {
        &&& taproot_address_script(seq![n_of_n_script(self.all_verifiers())]) matches Some(
            bridge_script,
        )
        &&& presigns_of(self.deposit_presigns@, deposit_utxo.txid@) matches Some(presigns)
        &&& taproot_control_block(
            INTERNAL_KEY@,
            deposit_scripts(self.all_verifiers(), return_address, hash),
            n_of_n_with_hash_script(self.all_verifiers(), hash),
        ) matches Some(control_block)
        &&& taproot_address_script(deposit_scripts(self.all_verifiers(), return_address, hash))
            matches Some(deposit_script)
        &&& is_move_tx_with_witness(
            move_tx,
            self.all_verifiers(),
            deposit_utxo,
            bridge_script,
            deposit_script,
            self.current_preimage_for_deposit_requests@,
            presigns,
            control_block,
        )
    }

    /// Signs the move transaction of a deposit and completes its witness.
    #[verifier::rlimit(50)]
    fn sign_move_tx(
        &self,
        hash: &[u8; 32],
        deposit_utxo: OutPoint,
        return_address: &[u8; 32],
        deposit_address: Vec<u8>,
        deposit_taproot_info: &crate::taproot::TaprootSpendInfo,
        bridge_address: &Vec<u8>,
        presigns: &Vec<DepositPresigns>,
    ) -> (r: Result<Transaction, BridgeError>)
        requires
            self.wf(),
            hash@ == sha256(self.current_preimage_for_deposit_requests@),
            deposit_taproot_info.internal_key == INTERNAL_KEY,
            deposit_taproot_info.scripts.deep_view() == deposit_scripts(
                self.all_verifiers(),
                return_address@,
                hash@,
            ),
        ensures
            r is Ok <==> taproot_script_spend_sighash(
                wire_bytes(move_tx_spec(deposit_utxo, bridge_address@)),
                prevouts_bytes(seq![deposit_output(deposit_address@)]),
                n_of_n_with_hash_script(self.all_verifiers(), hash@),
                0,
            ) is Some && taproot_control_block(
                INTERNAL_KEY@,
                deposit_scripts(self.all_verifiers(), return_address@, hash@),
                n_of_n_with_hash_script(self.all_verifiers(), hash@),
            ) is Some,
            r matches Err(e) ==> e == BridgeError::WitnessAssemblyError,
            r matches Ok(move_tx) ==> is_move_tx_with_witness(
                move_tx.deep_view(),
                self.all_verifiers(),
                deposit_utxo,
                bridge_address@,
                deposit_address@,
                self.current_preimage_for_deposit_requests@,
                presigns@,
                taproot_control_block(
                    INTERNAL_KEY@,
                    deposit_scripts(self.all_verifiers(), return_address@, hash@),
                    n_of_n_with_hash_script(self.all_verifiers(), hash@),
                )->0,
            ),
    {
        let preimage = self.current_preimage_for_deposit_requests;
        let mut move_tx = TransactionBuilder::create_move_tx(deposit_utxo, bridge_address);
        let ghost unsigned = move_tx.deep_view();
        let mut prevouts: Vec<TxOut> = Vec::new();
        prevouts.push(TxOut { value: BRIDGE_AMOUNT_SATS, script_pubkey: deposit_address });
        assert(prevouts.deep_view() =~= seq![deposit_output(deposit_address@)]);
        let script_n_of_n = self.script_builder.generate_script_n_of_n_with_hash(hash);
        let signature = match self.signer.sign_taproot_script_spend_tx(
            &move_tx,
            &prevouts,
            script_n_of_n.as_slice(),
            0,
        ) {
            Ok(signature) => signature,
            Err(e) => {
                return Err(e);
            },
        };
        let witness_elements = build_move_witness_elements(&preimage, presigns, &signature);
        match handle_taproot_witness(
            &mut move_tx,
            0,
            &witness_elements,
            &script_n_of_n,
            deposit_taproot_info,
        ) {
            Ok(()) => {},
            Err(e) => {
                return Err(e);
            },
        }
        proof {
            let all = self.all_verifiers();
            let control_block = taproot_control_block(
                INTERNAL_KEY@,
                deposit_scripts(all, return_address@, hash@),
                n_of_n_with_hash_script(all, hash@),
            )->0;
            assert(unsigned.input[0].witness + script_path_witness(
                witness_elements.deep_view(),
                script_n_of_n@,
                control_block,
            ) =~= script_path_witness(witness_elements.deep_view(), script_n_of_n@, control_block));
            assert(is_signed_move_tx(
                move_tx.deep_view(),
                all,
                deposit_utxo,
                bridge_address@,
                preimage@,
                presigns@,
                control_block,
                signature@,
            ));
        }
        Ok(move_tx)
    }

    /// Builds the move transaction of a deposit that has been made, with
    /// its witness complete. `deposit_tx` is the transaction that the
    /// deposit outpoint names, as the node gave it.
    #[verifier::rlimit(50)]
    pub fn build_move_tx(
        &self,
        start_utxo: OutPoint,
        hash: [u8; 32],
        deposit_utxo: OutPoint,
        return_address: [u8; 32],
        deposit_tx: &Transaction,
    ) -> (r: Result<Transaction, BridgeError>)
        requires
            self.wf(),
        ensures
            self.move_tx_error(
                start_utxo,
                hash@,
                deposit_utxo,
                return_address@,
                deposit_tx.deep_view(),
            ) == (match r {
                Ok(_) => None,
                Err(e) => Some(e),
            }),
            r matches Ok(move_tx) ==> self.is_move_tx_of(
                move_tx.deep_view(),
                hash@,
                deposit_utxo,
                return_address@,
            ),
    {
        let own_hash = hash_32(&self.current_preimage_for_deposit_requests);
        if !bytes32_eq(&hash, &own_hash) {
            return Err(BridgeError::InvalidDeposit);
        }
        let (deposit_address, deposit_taproot_info) =
            match self.transaction_builder.generate_deposit_address(&return_address, &hash) {
            Ok(address) => address,
            Err(e) => {
                return Err(e);
            },
        };
        match check_deposit(deposit_tx, start_utxo, deposit_utxo, &deposit_address) {
            Ok(()) => {},
            Err(e) => {
                return Err(e);
            },
        }
        let at = match self.find_presigns(&deposit_utxo.txid) {
            Some(at) => at,
            None => {
                return Err(BridgeError::PresignMissing);
            },
        };
        let (bridge_address, _) = match self.transaction_builder.generate_bridge_address() {
            Ok(address) => address,
            Err(e) => {
                return Err(e);
            },
        };
        self.sign_move_tx(
            &hash,
            deposit_utxo,
            &return_address,
            deposit_address,
            &deposit_taproot_info,
            &bridge_address,
            &self.deposit_presigns[at].1,
        )
    }

    /// Why the operator does not move a deposit, if it does not: it cannot
    /// build the move transaction, or the deposit accumulator is full.
    pub open spec fn deposit_happened_error(
        &self,
        start_utxo: OutPoint,
        hash: Seq<u8>,
        deposit_utxo: OutPoint,
        return_address: Seq<u8>,
        deposit_tx: TransactionView,
    ) -> Option<BridgeError> {
        match self.move_tx_error(start_utxo, hash, deposit_utxo, return_address, deposit_tx) {
            Some(e) => Some(e),
            None => if self.deposit_merkle_tree@.len() >= pow2(
                self.deposit_merkle_tree.spec_depth(),
            ) {
                Some(BridgeError::TreeFull)
            } else {
                None
            },
        }
    }

    /// Moves a deposit that has been made into the bridge. `deposit_tx` is
    /// the transaction that the deposit outpoint names, as the node gave it.
    /// The move transaction is returned with its witness complete, for the
    /// caller to send, together with the outpoint of the moved funds; the
    /// deposit is added to the deposit accumulator, both outpoints are
    /// recorded, and a new preimage is drawn for the next deposit, of which
    /// nothing is known. After an error nothing has changed.
    pub fn deposit_happened(
        &mut self,
        rng: &mut secp256k1::rand::rngs::OsRng,
        start_utxo: OutPoint,
        hash: [u8; 32],
        deposit_utxo: OutPoint,
        return_address: [u8; 32],
        deposit_tx: &Transaction,
    ) -> (r: Result<(Transaction, OutPoint), BridgeError>)
        requires
            old(self).wf(),
        ensures
            final(self).wf(),
            final(self).same_keys(old(self)),
            final(self).deposit_presigns == old(self).deposit_presigns,
            final(self).withdrawals_merkle_tree == old(self).withdrawals_merkle_tree,
            final(self).withdrawals_payment_txids == old(self).withdrawals_payment_txids,
            final(self).connector_tree_utxos == old(self).connector_tree_utxos,
            final(self).deposit_merkle_tree.spec_depth() == old(self).deposit_merkle_tree.spec_depth(),
            old(self).deposit_happened_error(
                start_utxo,
                hash@,
                deposit_utxo,
                return_address@,
                deposit_tx.deep_view(),
            ) == (match r {
                Ok(_) => None,
                Err(e) => Some(e),
            }),
            r is Err ==> {
                &&& final(self).same_identity(old(self))
                &&& final(self).deposit_merkle_tree == old(self).deposit_merkle_tree
                &&& final(self).deposit_utxos == old(self).deposit_utxos
                &&& final(self).move_utxos == old(self).move_utxos
            },
            r matches Ok((move_tx, move_utxo)) ==> {
                &&& final(self).deposit_merkle_tree@ == old(self).deposit_merkle_tree@.push(
                    deposit_utxo.txid@,
                )
                &&& final(self).deposit_utxos@ == old(self).deposit_utxos@.push(deposit_utxo)
                &&& final(self).move_utxos@ == old(self).move_utxos@.push(move_utxo)
                &&& move_utxo.txid@ == txid_of(move_tx.deep_view())
                &&& move_utxo.vout == 0
                &&& old(self).is_move_tx_of(
                    move_tx.deep_view(),
                    hash@,
                    deposit_utxo,
                    return_address@,
                )
            },
    {
        let move_tx = match self.build_move_tx(
            start_utxo,
            hash,
            deposit_utxo,
            return_address,
            deposit_tx,
        ) {
            Ok(move_tx) => move_tx,
            Err(e) => {
                return Err(e);
            },
        };
        match self.deposit_merkle_tree.add(deposit_utxo.txid) {
            Ok(()) => {},
            Err(e) => {
                return Err(e);
            },
        }
        self.deposit_utxos.push(deposit_utxo);
        let move_utxo = TransactionBuilder::create_utxo(move_tx.txid(), 0);
        self.move_utxos.push(move_utxo);
        self.current_preimage_for_deposit_requests = random_bytes32(rng);
        Ok((move_tx, move_utxo))
    }
}

/// The preimages in the given slots, in order.
pub open spec fn revealed_preimages(nodes: Seq<(nat, nat)>, preimages: Seq<Seq<Seq<u8>>>) -> Seq<
    Seq<u8>,
> {
    Seq::new(nodes.len(), |i: int| preimages[nodes[i].0 as int][nodes[i].1 as int])
}

/// The largest `e` with `2^e <= x`.
pub fn floor_log2(x: u64) -> (e: u32)
    requires
        x >= 1,
    ensures
        pow2(e as nat) <= x < pow2((e + 1) as nat),
        e < 64,
{
    let mut e: u32 = 0;
    let mut rest: u64 = x;
    proof {
        lemma2_to64();
    }
    while rest > 1
        invariant
            rest >= 1,
            e < 64,
            rest * pow2(e as nat) <= x < (rest + 1) * pow2(e as nat),
            pow2(e as nat) <= x,
        decreases rest,
    {
        proof {
            lemma_pow2_unfold((e + 1) as nat);
            let p = pow2(e as nat);
            let half = (rest / 2) as int;
            assert(half * (2 * p) <= rest * p) by (nonlinear_arith)
                requires
                    2 * half <= rest,
                    p >= 0,
            ;
            assert((rest + 1) * p <= (half + 1) * (2 * p)) by (nonlinear_arith)
                requires
                    rest + 1 <= 2 * (half + 1),
                    p >= 0,
            ;
            assert(2 * p <= half * (2 * p)) by (nonlinear_arith)
                requires
                    half >= 1,
                    p >= 0,
            ;
            if e >= 63 {
                lemma2_to64();
                vstd::arithmetic::power2::lemma2_to64_rest();
                assert(false);
            }
        }
        rest = rest / 2;
        e = e + 1;
    }
    proof {
        let p = pow2(e as nat);
        assert(1 * p == p && 2 * p == p + p) by (nonlinear_arith);
        lemma_pow2_unfold((e + 1) as nat);
    }
    e
}

/// Whether `tx` splits the connector node at `utxo`, worth `value` at the
/// script `spent_script` and standing at `level` and `index`, into its two
/// children, with the operator's signature `signature` for the node's
/// timelock script, valid under the operator's key.
pub open spec fn is_connector_spend(
    tx: TransactionView,
    verifiers: Seq<Seq<u8>>,
    actor_pk: Seq<u8>,
    hashes: Seq<Seq<Seq<u8>>>,
    depth: nat,
    utxo: OutPoint,
    value: u64,
    spent_script: Seq<u8>,
    level: nat,
    index: nat,
    signature: Seq<u8>,
) -> bool {
    let script = timelock_script(actor_pk, connector_timelock(depth, level));
    &&& connector_node_address(verifiers, actor_pk, hashes, depth, level + 1, 2 * index)
        matches Some(first)
    &&& connector_node_address(verifiers, actor_pk, hashes, depth, level + 1, 2 * index + 1)
        matches Some(second)
    &&& signs(
        signature,
        taproot_script_spend_sighash(
            wire_bytes(connector_tree_tx_spec(utxo, value, first, second)),
            prevouts_bytes(seq![TxOutView { value, script_pubkey: spent_script }]),
            script,
            0,
        ),
        actor_pk,
    )
    &&& taproot_control_block(
        INTERNAL_KEY@,
        connector_node_scripts(
            verifiers,
            actor_pk,
            hashes[level as int][index as int],
            connector_timelock(depth, level),
        ),
        script,
    ) matches Some(control_block)
    &&& tx == with_witness(
        connector_tree_tx_spec(utxo, value, first, second),
        0,
        script_path_witness(seq![signature], script, control_block),
    )
}

/// Whether `tx` splits the connector node, for some signature of the
/// operator.
pub open spec fn is_signed_connector_spend(
    tx: TransactionView,
    verifiers: Seq<Seq<u8>>,
    actor_pk: Seq<u8>,
    hashes: Seq<Seq<Seq<u8>>>,
    depth: nat,
    utxo: OutPoint,
    value: u64,
    spent_script: Seq<u8>,
    level: nat,
    index: nat,
) -> bool {
    exists|signature: Seq<u8>| #[trigger]
        is_connector_spend(
            tx,
            verifiers,
            actor_pk,
            hashes,
            depth,
            utxo,
            value,
            spent_script,
            level,
            index,
            signature,
        )
}

impl Operator {
    /// The preimages of the connector nodes that are revealed once
    /// `number_of_funds_claim` leaves have been claimed, in the order of the
    /// nodes. Fails with `TreeIndexOutOfRange` exactly where the tree has
    /// fewer leaves than claims.
    pub fn reveal_connector_tree_preimages(&self, number_of_funds_claim: u32) -> (r: Result<
        Vec<[u8; 32]>,
        BridgeError,
    >)
        requires
            self.wf(),
        ensures
            number_of_funds_claim <= pow2(CONNECTOR_TREE_DEPTH as nat) <==> r is Ok,
            r matches Ok(preimages) ==> preimages.deep_view() == revealed_preimages(
                reveal_indices(CONNECTOR_TREE_DEPTH as nat, number_of_funds_claim as nat),
                self.connector_tree_preimages.deep_view(),
            ),
            r matches Err(e) ==> e == BridgeError::TreeIndexOutOfRange,
    {
        let indices = match get_claim_reveal_indices(CONNECTOR_TREE_DEPTH, number_of_funds_claim) {
            Ok(indices) => indices,
            Err(e) => {
                return Err(e);
            },
        };
        let ghost nodes = reveal_indices(CONNECTOR_TREE_DEPTH as nat, number_of_funds_claim as nat);
        let ghost all = self.connector_tree_preimages.deep_view();
        let mut preimages: Vec<[u8; 32]> = Vec::new();
        let mut i: usize = 0;
        while i < indices.len()
            invariant
                i <= indices@.len(),
                number_of_funds_claim <= pow2(CONNECTOR_TREE_DEPTH as nat),
                nodes == reveal_indices(CONNECTOR_TREE_DEPTH as nat, number_of_funds_claim as nat),
                indices_view(indices@) == nodes,
                all == self.connector_tree_preimages.deep_view(),
                connector_tree_shape(all, CONNECTOR_TREE_DEPTH as nat),
                preimages@.len() == i,
                forall|k: int|
                    0 <= k < i ==> (#[trigger] preimages@[k])@ == all[nodes[k].0 as int][nodes[k].1 as int],
            decreases indices@.len() - i,
        {
            let (level, index) = indices[i];
            proof {
                lemma_reveal_indices_in_tree(
                    CONNECTOR_TREE_DEPTH as nat,
                    number_of_funds_claim as nat,
                    i as int,
                );
                assert(nodes[i as int] == (level as nat, index as nat));
                assert(all[level as int].len() == pow2(level as nat));
                assert(self.connector_tree_preimages@[level as int].deep_view() == all[level as int]);
            }
            let preimage: [u8; 32] = self.connector_tree_preimages[level][index];
            proof {
                lemma_array_deep_view(preimage);
            }
            preimages.push(preimage);
            i = i + 1;
        }
        proof {
            assert forall|k: int| 0 <= k < preimages@.len() implies (
            #[trigger] preimages.deep_view()[k]) == revealed_preimages(nodes, all)[k] by {
                lemma_array_deep_view(preimages@[k]);
            }
            assert(preimages.deep_view() =~= revealed_preimages(nodes, all));
        }
        Ok(preimages)
    }

    /// Why the operator does not inscribe the preimages revealed for a
    /// number of claims, if it does not: the tree has fewer leaves than
    /// claims, or there is no inscription.
    pub open spec fn inscribe_error(
        &self,
        number_of_funds_claim: u32,
        inscription_source_utxo: OutPoint,
    ) -> Option<BridgeError> {
        if number_of_funds_claim > pow2(CONNECTOR_TREE_DEPTH as nat) {
            Some(BridgeError::TreeIndexOutOfRange)
        } else {
            crate::transaction_builder::inscription_error(
                inscription_source_utxo,
                self.signer.spec_xonly_public_key(),
                self.signer.spec_address(),
                revealed_preimages(
                    reveal_indices(CONNECTOR_TREE_DEPTH as nat, number_of_funds_claim as nat),
                    self.connector_tree_preimages.deep_view(),
                ),
            )
        }
    }

    /// The two transactions that publish the preimages revealed for
    /// `number_of_funds_claim` claims. `inscription_source_utxo` is an output
    /// of three times the dust value at the operator's address. Fails with
    /// `TreeIndexOutOfRange` where the tree has fewer leaves than claims.
    pub fn inscribe_connector_tree_preimages(
        &self,
        number_of_funds_claim: u32,
        inscription_source_utxo: OutPoint,
    ) -> (r: Result<(Transaction, Transaction), BridgeError>)
        requires
            self.wf(),
        ensures
            r matches Ok((commit, reveal)) ==> is_signed_inscription_pair(
                commit.deep_view(),
                reveal.deep_view(),
                inscription_source_utxo,
                self.signer.spec_xonly_public_key(),
                self.signer.spec_address(),
                revealed_preimages(
                    reveal_indices(CONNECTOR_TREE_DEPTH as nat, number_of_funds_claim as nat),
                    self.connector_tree_preimages.deep_view(),
                ),
            ),
            self.inscribe_error(number_of_funds_claim, inscription_source_utxo) == (match r {
                Ok(_) => None,
                Err(e) => Some(e),
            }),
    {
        let preimages = match self.reveal_connector_tree_preimages(number_of_funds_claim) {
            Ok(preimages) => preimages,
            Err(e) => {
                return Err(e);
            },
        };
        TransactionBuilder::create_inscription_transactions(
            &self.signer,
            inscription_source_utxo,
            &preimages,
        )
    }

    /// The address that funds the connector tree, and the amount it is
    /// funded with: one dust value and one fee for every leaf.
    pub fn connector_root_funding(&self) -> (r: Result<(Vec<u8>, u64), BridgeError>)
        requires
            self.wf(),
        ensures
            match r {
                Ok((address, amount)) => connector_node_address(
                    self.all_verifiers(),
                    self.signer.spec_xonly_public_key(),
                    self.connector_tree_hashes.deep_view(),
                    CONNECTOR_TREE_DEPTH as nat,
                    0,
                    0,
                ) == Some(address@) && amount == connector_amount(
                    CONNECTOR_TREE_DEPTH as nat,
                    DUST_VALUE as nat,
                    MIN_RELAY_FEE as nat,
                ),
                Err(e) => e == BridgeError::ScriptBuildError && connector_node_address(
                    self.all_verifiers(),
                    self.signer.spec_xonly_public_key(),
                    self.connector_tree_hashes.deep_view(),
                    CONNECTOR_TREE_DEPTH as nat,
                    0,
                    0,
                ) is None,
            },
    {
        proof {
            lemma2_to64();
            assert(self.connector_tree_hashes.deep_view()[0].len() == pow2(0));
            assert(self.connector_tree_hashes@[0].deep_view()
                == self.connector_tree_hashes.deep_view()[0]);
        }
        let total_amount = calculate_amount(CONNECTOR_TREE_DEPTH, DUST_VALUE, MIN_RELAY_FEE);
        let public_key = self.signer.xonly_public_key();
        match self.transaction_builder.connector_address_at(
            &public_key,
            &self.connector_tree_hashes,
            CONNECTOR_TREE_DEPTH,
            0,
            0,
        ) {
            Ok((address, _)) => Ok((address, total_amount)),
            Err(e) => Err(e),
        }
    }

    /// Lays out the connector tree below the output `root_utxo`, which
    /// holds the funding amount at the root's address, and records the
    /// outpoint of every node. Fails with `ScriptBuildError`, recording
    /// nothing, exactly where a node has no address.
    #[verifier::rlimit(50)]
    pub fn create_connector_root(&mut self, root_utxo: OutPoint) -> (r: Result<OutPoint, BridgeError>)
        requires
            old(self).wf(),
        ensures
            final(self).wf(),
            final(self).same_identity(old(self)),
            final(self).deposit_presigns == old(self).deposit_presigns,
            final(self).deposit_merkle_tree == old(self).deposit_merkle_tree,
            final(self).withdrawals_merkle_tree == old(self).withdrawals_merkle_tree,
            final(self).withdrawals_payment_txids == old(self).withdrawals_payment_txids,
            final(self).deposit_utxos == old(self).deposit_utxos,
            final(self).move_utxos == old(self).move_utxos,
            connector_addresses_exist(
                old(self).all_verifiers(),
                old(self).signer.spec_xonly_public_key(),
                old(self).connector_tree_hashes.deep_view(),
                CONNECTOR_TREE_DEPTH as nat,
            ) <==> r is Ok,
            r matches Err(e) ==> {
                &&& e == BridgeError::ScriptBuildError
                &&& final(self).connector_tree_utxos == old(self).connector_tree_utxos
            },
            r matches Ok(returned) ==> {
                &&& returned == root_utxo
                &&& is_connector_utxo_tree(
                    final(self).connector_tree_utxos@,
                    old(self).all_verifiers(),
                    old(self).signer.spec_xonly_public_key(),
                    root_utxo@,
                    connector_amount(
                        CONNECTOR_TREE_DEPTH as nat,
                        DUST_VALUE as nat,
                        MIN_RELAY_FEE as nat,
                    ),
                    old(self).connector_tree_hashes.deep_view(),
                    CONNECTOR_TREE_DEPTH as nat,
                )
            },
    {
        proof {
            lemma2_to64();
            lemma_connector_amounts_cover_fees(
                DUST_VALUE as nat,
                MIN_RELAY_FEE as nat,
                CONNECTOR_TREE_DEPTH as nat,
                CONNECTOR_TREE_DEPTH as nat,
            );
        }
        let total_amount = calculate_amount(CONNECTOR_TREE_DEPTH, DUST_VALUE, MIN_RELAY_FEE);
        let public_key = self.signer.xonly_public_key();
        let utxo_tree = match self.transaction_builder.create_connector_binary_tree(
            &public_key,
            root_utxo,
            total_amount,
            CONNECTOR_TREE_DEPTH,
            &self.connector_tree_hashes,
        ) {
            Ok(tree) => tree,
            Err(e) => {
                return Err(e);
            },
        };
        self.connector_tree_utxos = utxo_tree;
        Ok(root_utxo)
    }
}

/// The value of the node `level` levels down in a connector tree of depth
/// `tree_depth` that is funded with one dust value and one fee for every
/// leaf.
pub open spec fn tree_node_amount(tree_depth: nat, level: nat) -> nat {
    connector_node_amount(
        connector_amount(tree_depth, DUST_VALUE as nat, MIN_RELAY_FEE as nat),
        MIN_RELAY_FEE as nat,
        level,
    )
}

/// Whether a connector node worth `value` stands at `level` in a tree of
/// depth `tree_depth`: `value` is what a node of that level is worth, to
/// the satoshi. The level is found from the number of leaves under the
/// node, which is how many times its value and a fee hold one dust value and
/// a fee: `2^(tree_depth - level)`, once rounded down to a power of two.
pub open spec fn stands_at_level(value: u64, tree_depth: nat, level: nat) -> bool {
    &&& level <= tree_depth
    &&& pow2((tree_depth - level) as nat) <= leaves_under(value)
    &&& leaves_under(value) < pow2((tree_depth - level + 1) as nat)
    &&& value == tree_node_amount(tree_depth, level)
}

/// Every node of a connector tree stands at its level: from what a node of
/// a level is worth, the level is found again.
pub proof fn lemma_node_stands_at_its_level(value: u64, tree_depth: nat, level: nat)
    requires
        level <= tree_depth,
        value == tree_node_amount(tree_depth, level),
    ensures
        stands_at_level(value, tree_depth, level),
{
    let unit = (DUST_VALUE + MIN_RELAY_FEE) as int;
    let leaves = pow2((tree_depth - level) as nat) as int;
    lemma_connector_amounts_cover_fees(
        DUST_VALUE as nat,
        MIN_RELAY_FEE as nat,
        tree_depth,
        level,
    );
    lemma_connector_amounts_bounded(DUST_VALUE as nat, MIN_RELAY_FEE as nat, tree_depth, level);
    lemma_pow2_unfold((tree_depth - level + 1) as nat);
    vstd::arithmetic::power2::lemma_pow2_pos((tree_depth - level) as nat);
    let held = value + MIN_RELAY_FEE;
    assert(unit * leaves <= held < unit * leaves + unit);
    assert(held / unit == leaves) by (nonlinear_arith)
        requires
            unit * leaves <= held < unit * leaves + unit,
            unit > 0,
    ;
}

/// A node of the bridge's own connector tree that is split gives each of
/// its two children half of what the fee leaves: together they are worth
/// the node less the fee.
pub proof fn lemma_bridge_node_splits_into_halves(level: nat)
    requires
        level < CONNECTOR_TREE_DEPTH,
    ensures
        tree_node_amount(CONNECTOR_TREE_DEPTH as nat, level) >= MIN_RELAY_FEE,
        2 * crate::utils::connector_child_amount(
            tree_node_amount(CONNECTOR_TREE_DEPTH as nat, level),
            MIN_RELAY_FEE as nat,
        ) == tree_node_amount(CONNECTOR_TREE_DEPTH as nat, level) - MIN_RELAY_FEE,
{
    lemma2_to64();
    reveal_with_fuel(connector_node_amount, 4);
    assert(connector_amount(3, 1000, 400) == 11200) by (nonlinear_arith)
        requires
            pow2(3) == 8,
            connector_amount(3, 1000, 400) == (1000 + 400) * pow2(3),
    ;
}

/// The bridge's own connector tree splits exactly at every level: no
/// satoshi is lost where a node is split.
pub proof fn lemma_bridge_tree_splits_exactly()
    ensures
        crate::utils::splits_exactly(
            connector_amount(CONNECTOR_TREE_DEPTH as nat, DUST_VALUE as nat, MIN_RELAY_FEE as nat),
            MIN_RELAY_FEE as nat,
            CONNECTOR_TREE_DEPTH as nat,
        ),
{
    lemma2_to64();
    reveal_with_fuel(crate::utils::splits_exactly, 4);
    assert(connector_amount(3, 1000, 400) == 11200) by (nonlinear_arith)
        requires
            pow2(3) == 8,
            connector_amount(3, 1000, 400) == (1000 + 400) * pow2(3),
    ;
}

/// How many times the value of a connector node and a fee hold one dust
/// value and a fee.
pub open spec fn leaves_under(value: u64) -> nat {
    ((value + MIN_RELAY_FEE) / ((DUST_VALUE + MIN_RELAY_FEE) as int)) as nat
}

/// Whether `preimage` stands at `index` of the level and nowhere before.
pub open spec fn first_at(level_preimages: Seq<Seq<u8>>, preimage: Seq<u8>, index: nat) -> bool {
    &&& index < level_preimages.len()
    &&& level_preimages[index as int] == preimage
    &&& forall|j: int| 0 <= j < index ==> level_preimages[j] != preimage
}

/// Whether `slot`, a level and an index, is where the connector node
/// stands that is worth `value` and has the given preimage: an inner level
/// that holds nodes of that value, and the first place of the preimage in it.
pub open spec fn is_slot_of(
    preimages: Seq<Seq<Seq<u8>>>,
    value: u64,
    preimage: Seq<u8>,
    tree_depth: nat,
    slot: (nat, nat),
) -> bool {
    &&& stands_at_level(value, tree_depth, slot.0)
    &&& slot.0 < CONNECTOR_TREE_DEPTH
    &&& first_at(preimages[slot.0 as int], preimage, slot.1)
}

/// Whether an inner level of the tree holds nodes worth `value`.
pub open spec fn has_level(value: u64, tree_depth: nat) -> bool {
    exists|level: nat| level < CONNECTOR_TREE_DEPTH && #[trigger] stands_at_level(
        value,
        tree_depth,
        level,
    )
}

/// The inner level of the tree that holds nodes worth `value`.
pub open spec fn level_of(value: u64, tree_depth: nat) -> nat {
    choose|level: nat| level < CONNECTOR_TREE_DEPTH && #[trigger] stands_at_level(
        value,
        tree_depth,
        level,
    )
}

/// Whether the level holds the preimage.
pub open spec fn level_holds(level_preimages: Seq<Seq<u8>>, preimage: Seq<u8>) -> bool {
    exists|index: nat| #[trigger] first_at(level_preimages, preimage, index)
}

/// The first place of the preimage in the level.
pub open spec fn place_of(level_preimages: Seq<Seq<u8>>, preimage: Seq<u8>) -> nat {
    choose|index: nat| #[trigger] first_at(level_preimages, preimage, index)
}

/// A value belongs to one level only, and a preimage has one first place.
pub proof fn lemma_slot_is_unique(
    preimages: Seq<Seq<Seq<u8>>>,
    value: u64,
    preimage: Seq<u8>,
    tree_depth: nat,
    slot: (nat, nat),
)
    requires
        is_slot_of(preimages, value, preimage, tree_depth, slot),
    ensures
        has_level(value, tree_depth),
        level_of(value, tree_depth) == slot.0,
        level_holds(preimages[slot.0 as int], preimage),
        place_of(preimages[slot.0 as int], preimage) == slot.1,
{
    let level = level_of(value, tree_depth);
    lemma_log_unique(
        leaves_under(value),
        (tree_depth - slot.0) as nat,
        (tree_depth - level) as nat,
    );
    let place = place_of(preimages[slot.0 as int], preimage);
    assert(first_at(preimages[slot.0 as int], preimage, place));
    if place < slot.1 {
        assert(preimages[slot.0 as int][place as int] != preimage);
    } else if slot.1 < place {
        assert(preimages[slot.0 as int][slot.1 as int] != preimage);
    }
}

/// Why no connector node is found for the value and the preimage, if none
/// is: no inner level of the tree holds nodes of that value, or the level
/// that does holds no such preimage.
pub open spec fn locate_error(
    preimages: Seq<Seq<Seq<u8>>>,
    value: u64,
    preimage: Seq<u8>,
    tree_depth: nat,
) -> Option<BridgeError> {
    if !has_level(value, tree_depth) {
        Some(BridgeError::TreeIndexOutOfRange)
    } else if !level_holds(preimages[level_of(value, tree_depth) as int], preimage) {
        Some(BridgeError::ProtocolViolation)
    } else {
        None
    }
}

impl Operator {
    /// Finds the connector node that is worth `value` and has the given
    /// preimage: its level follows from the value, its index is the first
    /// place of the preimage in that level. Fails with `TreeIndexOutOfRange`
    /// where no inner node of the tree is worth `value` to the satoshi, and
    /// with `ProtocolViolation` where the level does not hold the preimage.
    #[verifier::rlimit(50)]
    pub fn locate_connector_node(&self, value: u64, preimage: &[u8; 32], tree_depth: usize) -> (r:
        Result<(usize, usize), BridgeError>)
        requires
            self.wf(),
        ensures
            locate_error(
                self.connector_tree_preimages.deep_view(),
                value,
                preimage@,
                tree_depth as nat,
            ) == (match r {
                Ok(_) => None,
                Err(e) => Some(e),
            }),
            r matches Ok((level, index)) ==> {
                &&& level == level_of(value, tree_depth as nat)
                &&& index == place_of(
                    self.connector_tree_preimages.deep_view()[level as int],
                    preimage@,
                )
                &&& is_slot_of(
                    self.connector_tree_preimages.deep_view(),
                    value,
                    preimage@,
                    tree_depth as nat,
                    (level as nat, index as nat),
                )
            },
    {
        let leaves: u64 = ((value as u128 + MIN_RELAY_FEE as u128) / (DUST_VALUE as u128
            + MIN_RELAY_FEE as u128)) as u64;
        assert(leaves == leaves_under(value));
        if leaves == 0 {
            proof {
                assert forall|level: nat| level < CONNECTOR_TREE_DEPTH implies !#[trigger] stands_at_level(
                    value,
                    tree_depth as nat,
                    level,
                ) by {
                    vstd::arithmetic::power2::lemma_pow2_pos((tree_depth - level) as nat);
                }
            }
            return Err(BridgeError::TreeIndexOutOfRange);
        }
        let remaining = floor_log2(leaves) as usize;
        if remaining > tree_depth || tree_depth - remaining >= CONNECTOR_TREE_DEPTH {
            proof {
                assert forall|level: nat| level < CONNECTOR_TREE_DEPTH implies !#[trigger] stands_at_level(
                    value,
                    tree_depth as nat,
                    level,
                ) by {
                    if stands_at_level(value, tree_depth as nat, level) {
                        lemma_log_unique(
                            leaves as nat,
                            remaining as nat,
                            (tree_depth - level) as nat,
                        );
                    }
                }
            }
            return Err(BridgeError::TreeIndexOutOfRange);
        }
        let level: usize = tree_depth - remaining;
        if connector_tree_node_value(tree_depth, level) != value as u128 {
            proof {
                assert forall|other: nat| other < CONNECTOR_TREE_DEPTH implies !#[trigger] stands_at_level(
                    value,
                    tree_depth as nat,
                    other,
                ) by {
                    if stands_at_level(value, tree_depth as nat, other) {
                        lemma_log_unique(
                            leaves as nat,
                            remaining as nat,
                            (tree_depth - other) as nat,
                        );
                    }
                }
            }
            return Err(BridgeError::TreeIndexOutOfRange);
        }
        let ghost all = self.connector_tree_preimages.deep_view();
        proof {
            assert(all[level as int].len() == pow2(level as nat));
            assert(self.connector_tree_preimages@[level as int].deep_view() == all[level as int]);
        }
        let candidates = &self.connector_tree_preimages[level];
        assert(stands_at_level(value, tree_depth as nat, level as nat));
        let mut index: usize = 0;
        while index < candidates.len()
            invariant
                index <= candidates@.len(),
                level < CONNECTOR_TREE_DEPTH,
                stands_at_level(value, tree_depth as nat, level as nat),
                all == self.connector_tree_preimages.deep_view(),
                connector_tree_shape(all, CONNECTOR_TREE_DEPTH as nat),
                candidates.deep_view() == all[level as int],
                candidates@.len() == pow2(level as nat),
                forall|j: int| 0 <= j < index ==> all[level as int][j] != preimage@,
            decreases candidates@.len() - index,
        {
            proof {
                lemma_array_deep_view(candidates@[index as int]);
            }
            if bytes32_eq(&candidates[index], preimage) {
                proof {
                    lemma_slot_is_unique(
                        all,
                        value,
                        preimage@,
                        tree_depth as nat,
                        (level as nat, index as nat),
                    );
                }
                return Ok((level, index));
            }
            index = index + 1;
        }
        proof {
            let found = level_of(value, tree_depth as nat);
            lemma_log_unique(
                leaves_under(value),
                (tree_depth - level) as nat,
                (tree_depth - found) as nat,
            );
            if level_holds(all[level as int], preimage@) {
                let place = place_of(all[level as int], preimage@);
                assert(first_at(all[level as int], preimage@, place));
                assert(all[level as int][place as int] != preimage@);
            }
        }
        Err(BridgeError::ProtocolViolation)
    }
}

/// A number lies between two consecutive powers of two for one exponent
/// only.
pub proof fn lemma_log_unique(x: nat, a: nat, b: nat)
    requires
        pow2(a) <= x < pow2(a + 1),
        pow2(b) <= x < pow2(b + 1),
    ensures
        a == b,
{
    if a < b {
        if a + 1 < b {
            lemma_pow2_strictly_increases(a + 1, b);
        }
    } else if b < a {
        if b + 1 < a {
            lemma_pow2_strictly_increases(b + 1, a);
        }
    }
}

/// The outputs that a claim transaction spends: the moved deposit at
/// the bridge's address and the connector leaf at its own.
pub open spec fn claim_prevouts(bridge_script: Seq<u8>, leaf_value: u64, leaf_script: Seq<u8>) -> Seq<
    TxOutView,
> {
    seq![
        TxOutView {
            value: (BRIDGE_AMOUNT_SATS - DUST_VALUE - MIN_RELAY_FEE) as u64,
            script_pubkey: bridge_script,
        },
        TxOutView { value: leaf_value, script_pubkey: leaf_script },
    ]
}

/// The hash that a signer of input `input_index` of the claim transaction
/// signs for the given script: the claim spends the moved deposit at the
/// bridge's address and a connector leaf of the tree's leaf value at the
/// leaf's address.
pub open spec fn claim_sighash(
    verifiers: Seq<Seq<u8>>,
    actor_pk: Seq<u8>,
    operator_script: Seq<u8>,
    leaf_hash: Seq<u8>,
    fund_utxo: OutPoint,
    connector_utxo: OutPoint,
    script: Seq<u8>,
    input_index: nat,
) -> Option<Seq<u8>> {
    match (
        taproot_address_script(seq![n_of_n_script(verifiers)]),
        taproot_address_script(
            connector_node_scripts(
                verifiers,
                actor_pk,
                leaf_hash,
                CONNECTOR_TREE_OPERATOR_TAKES_AFTER as u32,
            ),
        ),
    ) {
        (Some(bridge_script), Some(leaf_script)) => taproot_script_spend_sighash(
            wire_bytes(claim_tx_spec(fund_utxo, connector_utxo, operator_script)),
            prevouts_bytes(
                claim_prevouts(
                    bridge_script,
                    Operator::connector_leaf_amount() as u64,
                    leaf_script,
                ),
            ),
            script,
            input_index,
        ),
        _ => None,
    }
}

/// Whether `tx` is the claim of the moved deposit `fund_utxo` with the
/// connector leaf number `index`, both witnesses complete: for the deposit
/// the verifiers' claim signatures and `fund_signature`, reversed, under
/// the verifiers' script; for the leaf `leaf_signature` under the
/// operator's timelock script. Both signatures are valid for the claim
/// under the operator's key.
pub open spec fn is_claim_tx(
    tx: TransactionView,
    verifiers: Seq<Seq<u8>>,
    actor_pk: Seq<u8>,
    operator_script: Seq<u8>,
    leaf_hash: Seq<u8>,
    fund_utxo: OutPoint,
    connector_utxo: OutPoint,
    presigns: Seq<DepositPresigns>,
    fund_signature: Seq<u8>,
    leaf_signature: Seq<u8>,
) -> bool {
    let timelock = CONNECTOR_TREE_OPERATOR_TAKES_AFTER as u32;
    &&& signs(
        fund_signature,
        claim_sighash(
            verifiers,
            actor_pk,
            operator_script,
            leaf_hash,
            fund_utxo,
            connector_utxo,
            n_of_n_script(verifiers),
            0,
        ),
        actor_pk,
    )
    &&& signs(
        leaf_signature,
        claim_sighash(
            verifiers,
            actor_pk,
            operator_script,
            leaf_hash,
            fund_utxo,
            connector_utxo,
            timelock_script(actor_pk, timelock),
            1,
        ),
        actor_pk,
    )
    &&& taproot_control_block(
        INTERNAL_KEY@,
        seq![n_of_n_script(verifiers)],
        n_of_n_script(verifiers),
    ) matches Some(fund_block)
    &&& taproot_control_block(
        INTERNAL_KEY@,
        connector_node_scripts(verifiers, actor_pk, leaf_hash, timelock),
        timelock_script(actor_pk, timelock),
    ) matches Some(leaf_block)
    &&& tx == with_witness(
        with_witness(
            claim_tx_spec(fund_utxo, connector_utxo, operator_script),
            0,
            script_path_witness(
                claim_witness_elements(claim_signs(presigns).push(fund_signature)),
                n_of_n_script(verifiers),
                fund_block,
            ),
        ),
        1,
        script_path_witness(seq![leaf_signature], timelock_script(actor_pk, timelock), leaf_block),
    )
}

/// Whether the claim can be signed and its witnesses completed: there is a
/// hash to sign for both inputs, and both scripts have a control block.
pub open spec fn claim_can_be_signed(
    verifiers: Seq<Seq<u8>>,
    actor_pk: Seq<u8>,
    operator_script: Seq<u8>,
    leaf_hash: Seq<u8>,
    fund_utxo: OutPoint,
    connector_utxo: OutPoint,
) -> bool {
    let timelock = CONNECTOR_TREE_OPERATOR_TAKES_AFTER as u32;
    &&& claim_sighash(
        verifiers,
        actor_pk,
        operator_script,
        leaf_hash,
        fund_utxo,
        connector_utxo,
        n_of_n_script(verifiers),
        0,
    ) is Some
    &&& claim_sighash(
        verifiers,
        actor_pk,
        operator_script,
        leaf_hash,
        fund_utxo,
        connector_utxo,
        timelock_script(actor_pk, timelock),
        1,
    ) is Some
    &&& taproot_control_block(
        INTERNAL_KEY@,
        seq![n_of_n_script(verifiers)],
        n_of_n_script(verifiers),
    ) is Some
    &&& taproot_control_block(
        INTERNAL_KEY@,
        connector_node_scripts(verifiers, actor_pk, leaf_hash, timelock),
        timelock_script(actor_pk, timelock),
    ) is Some
}

/// Whether `tx` is the claim, for some signatures of the operator.
pub open spec fn is_signed_claim_tx(
    tx: TransactionView,
    verifiers: Seq<Seq<u8>>,
    actor_pk: Seq<u8>,
    operator_script: Seq<u8>,
    leaf_hash: Seq<u8>,
    fund_utxo: OutPoint,
    connector_utxo: OutPoint,
    presigns: Seq<DepositPresigns>,
) -> bool {
    exists|fund_signature: Seq<u8>, leaf_signature: Seq<u8>| #[trigger]
        is_claim_tx(
            tx,
            verifiers,
            actor_pk,
            operator_script,
            leaf_hash,
            fund_utxo,
            connector_utxo,
            presigns,
            fund_signature,
            leaf_signature,
        )
}

/// The transaction that pays the fee of a move transaction: it spends the
/// move's anchor output and an output of the operator, and pays the bridge
/// amount, less the dust value and the fee, to the bridge, and the dust
/// value to a new anchor.
pub open spec fn child_pays_for_parent_spec(
    parent_outpoint: OutPoint,
    resource_utxo: OutPoint,
    bridge_script: Seq<u8>,
) -> TransactionView {
    bridge_tx(
        plain_inputs(seq![parent_outpoint, resource_utxo], DEFAULT_SEQUENCE),
        seq![
            TxOutView {
                value: (BRIDGE_AMOUNT_SATS - DUST_VALUE - MIN_RELAY_FEE) as u64,
                script_pubkey: bridge_script,
            },
            TxOutView { value: DUST_VALUE, script_pubkey: p2wsh_script(seq![OP_TRUE]) },
        ],
    )
}

/// Whether `tx` is the fee-paying child with both witnesses: the anchor's
/// witness script `OP_TRUE`, and `signature` for the operator's output,
/// valid under the key of the operator's address.
pub open spec fn is_child_pays_for_parent(
    tx: TransactionView,
    parent_outpoint: OutPoint,
    resource_utxo: OutPoint,
    bridge_script: Seq<u8>,
    operator_script: Seq<u8>,
    signature: Seq<u8>,
) -> bool {
    let anchored = with_witness(
        child_pays_for_parent_spec(parent_outpoint, resource_utxo, bridge_script),
        0,
        seq![seq![OP_TRUE]],
    );
    &&& tx == with_witness(anchored, 1, seq![signature])
    &&& signs(
        signature,
        taproot_key_spend_sighash(
            wire_bytes(anchored),
            prevouts_bytes(
                seq![
                    TxOutView { value: DUST_VALUE, script_pubkey: p2wsh_script(seq![OP_TRUE]) },
                    TxOutView { value: BRIDGE_AMOUNT_SATS, script_pubkey: operator_script },
                ],
            ),
            1,
        ),
        taproot_key_of(operator_script),
    )
}

/// Why there is no fee-paying child, if there is none: the bridge has no
/// address, or there is nothing to sign.
pub open spec fn child_pays_for_parent_error(
    verifiers: Seq<Seq<u8>>,
    operator_script: Seq<u8>,
    parent_outpoint: OutPoint,
    resource_utxo: OutPoint,
) -> Option<BridgeError> {
    match taproot_address_script(seq![n_of_n_script(verifiers)]) {
        None => Some(BridgeError::ScriptBuildError),
        Some(bridge_script) => if taproot_key_spend_sighash(
            wire_bytes(
                with_witness(
                    child_pays_for_parent_spec(parent_outpoint, resource_utxo, bridge_script),
                    0,
                    seq![seq![OP_TRUE]],
                ),
            ),
            prevouts_bytes(
                seq![
                    TxOutView { value: DUST_VALUE, script_pubkey: p2wsh_script(seq![OP_TRUE]) },
                    TxOutView { value: BRIDGE_AMOUNT_SATS, script_pubkey: operator_script },
                ],
            ),
            1,
        ) is None {
            Some(BridgeError::WitnessAssemblyError)
        } else {
            None
        },
    }
}

/// Whether `tx` is the fee-paying child, for some signature of the
/// operator.
pub open spec fn is_signed_child_pays_for_parent(
    tx: TransactionView,
    parent_outpoint: OutPoint,
    resource_utxo: OutPoint,
    bridge_script: Seq<u8>,
    operator_script: Seq<u8>,
) -> bool {
    exists|signature: Seq<u8>| #[trigger]
        is_child_pays_for_parent(
            tx,
            parent_outpoint,
            resource_utxo,
            bridge_script,
            operator_script,
            signature,
        )
}

/// Whether the spend of the connector node in the slot can be signed and
/// its witness completed.
pub open spec fn connector_spend_can_be_signed(
    verifiers: Seq<Seq<u8>>,
    actor_pk: Seq<u8>,
    hashes: Seq<Seq<Seq<u8>>>,
    depth: nat,
    utxo: OutPoint,
    value: u64,
    spent_script: Seq<u8>,
    level: nat,
    index: nat,
) -> bool {
    let script = timelock_script(actor_pk, connector_timelock(depth, level));
    &&& connector_node_address(verifiers, actor_pk, hashes, depth, level + 1, 2 * index)
        matches Some(first)
    &&& connector_node_address(verifiers, actor_pk, hashes, depth, level + 1, 2 * index + 1)
        matches Some(second)
    &&& taproot_script_spend_sighash(
        wire_bytes(connector_tree_tx_spec(utxo, value, first, second)),
        prevouts_bytes(seq![TxOutView { value, script_pubkey: spent_script }]),
        script,
        0,
    ) is Some
    &&& taproot_control_block(
        INTERNAL_KEY@,
        connector_node_scripts(
            verifiers,
            actor_pk,
            hashes[level as int][index as int],
            connector_timelock(depth, level),
        ),
        script,
    ) is Some
}

impl Operator {
    /// Why the operator cannot spend a connector node, if it cannot. In
    /// this order: the transaction is not the one that the outpoint names;
    /// it has no such output; no node is found for the output's value and
    /// the preimage; the node cannot pay the fee; the node or one of its
    /// children has no address; the spend cannot be signed.
    pub open spec fn spend_error(
        &self,
        utxo: OutPoint,
        utxo_tx: TransactionView,
        preimage: Seq<u8>,
        tree_depth: nat,
    ) -> Option<BridgeError> {
        let verifiers = self.all_verifiers();
        let actor_pk = self.signer.spec_xonly_public_key();
        let preimages = self.connector_tree_preimages.deep_view();
        let hashes = self.connector_tree_hashes.deep_view();
        let depth = CONNECTOR_TREE_DEPTH as nat;
        if txid_of(utxo_tx) != utxo.txid@ {
            Some(BridgeError::InvalidDeposit)
        } else if utxo.vout >= utxo_tx.output.len() {
            Some(BridgeError::TreeIndexOutOfRange)
        } else {
            let value = utxo_tx.output[utxo.vout as int].value;
            let level = level_of(value, tree_depth);
            let index = place_of(preimages[level as int], preimage);
            match locate_error(preimages, value, preimage, tree_depth) {
                Some(e) => Some(e),
                None => if value < MIN_RELAY_FEE {
                    Some(BridgeError::TreeIndexOutOfRange)
                } else if connector_node_address(verifiers, actor_pk, hashes, depth, level, index)
                    is None || connector_node_address(
                    verifiers,
                    actor_pk,
                    hashes,
                    depth,
                    level + 1,
                    2 * index,
                ) is None || connector_node_address(
                    verifiers,
                    actor_pk,
                    hashes,
                    depth,
                    level + 1,
                    2 * index + 1,
                ) is None {
                    Some(BridgeError::ScriptBuildError)
                } else if !connector_spend_can_be_signed(
                    verifiers,
                    actor_pk,
                    hashes,
                    depth,
                    utxo,
                    value,
                    utxo_tx.output[utxo.vout as int].script_pubkey,
                    level,
                    index,
                ) {
                    Some(BridgeError::WitnessAssemblyError)
                } else {
                    None
                },
            }
        }
    }

    /// The transaction that splits the connector node at `utxo` into its
    /// two children, with its witness complete, for the caller to send.
    /// `utxo_tx` is the transaction that `utxo` names, as the node gave it;
    /// `preimage` is the node's preimage.
    #[verifier::rlimit(50)]
    pub fn spend_connector_tree_utxo(
        &self,
        utxo: OutPoint,
        utxo_tx: &Transaction,
        preimage: [u8; 32],
        tree_depth: usize,
    ) -> (r: Result<Transaction, BridgeError>)
        requires
            self.wf(),
        ensures
            self.spend_error(utxo, utxo_tx.deep_view(), preimage@, tree_depth as nat) == (match r {
                Ok(_) => None,
                Err(e) => Some(e),
            }),
            r matches Ok(tx) ==> is_signed_connector_spend(
                tx.deep_view(),
                self.all_verifiers(),
                self.signer.spec_xonly_public_key(),
                self.connector_tree_hashes.deep_view(),
                CONNECTOR_TREE_DEPTH as nat,
                utxo,
                utxo_tx.output@[utxo.vout as int].value,
                utxo_tx.output@[utxo.vout as int].script_pubkey@,
                level_of(utxo_tx.output@[utxo.vout as int].value, tree_depth as nat),
                place_of(
                    self.connector_tree_preimages.deep_view()[level_of(
                        utxo_tx.output@[utxo.vout as int].value,
                        tree_depth as nat,
                    ) as int],
                    preimage@,
                ),
            ),
    {
        if !bytes32_eq(&utxo_tx.txid(), &utxo.txid) {
            return Err(BridgeError::InvalidDeposit);
        }
        if utxo.vout as usize >= utxo_tx.output.len() {
            return Err(BridgeError::TreeIndexOutOfRange);
        }
        let spent = &utxo_tx.output[utxo.vout as usize];
        let value = spent.value;
        let (level, index) = match self.locate_connector_node(value, &preimage, tree_depth) {
            Ok(slot) => slot,
            Err(e) => {
                return Err(e);
            },
        };
        if value < MIN_RELAY_FEE {
            return Err(BridgeError::TreeIndexOutOfRange);
        }
        let ghost hashes = self.connector_tree_hashes.deep_view();
        proof {
            lemma_pow2_unfold((level + 1) as nat);
            assert(hashes[level as int].len() == pow2(level as nat));
            assert(hashes[level + 1].len() == pow2((level + 1) as nat));
            assert(self.connector_tree_hashes@[level as int].deep_view() == hashes[level as int]);
            assert(self.connector_tree_hashes@[level + 1].deep_view() == hashes[level + 1]);
            lemma2_to64();
            lemma_pow2_strictly_increases((level + 1) as nat, 32);
        }
        let public_key = self.signer.xonly_public_key();
        let (_, tree_info) = match self.transaction_builder.connector_address_at(
            &public_key,
            &self.connector_tree_hashes,
            CONNECTOR_TREE_DEPTH,
            level,
            index,
        ) {
            Ok(address) => address,
            Err(e) => {
                return Err(e);
            },
        };
        let (first_address, _) = match self.transaction_builder.connector_address_at(
            &public_key,
            &self.connector_tree_hashes,
            CONNECTOR_TREE_DEPTH,
            level + 1,
            2 * index,
        ) {
            Ok(address) => address,
            Err(e) => {
                return Err(e);
            },
        };
        let (second_address, _) = match self.transaction_builder.connector_address_at(
            &public_key,
            &self.connector_tree_hashes,
            CONNECTOR_TREE_DEPTH,
            level + 1,
            2 * index + 1,
        ) {
            Ok(address) => address,
            Err(e) => {
                return Err(e);
            },
        };
        let mut tx = TransactionBuilder::create_connector_tree_tx(
            &utxo,
            value,
            &first_address,
            &second_address,
        );
        let ghost unsigned = tx.deep_view();
        let timelock_script = ScriptBuilder::generate_timelock_script(
            &public_key,
            TransactionBuilder::connector_timelock_of(CONNECTOR_TREE_DEPTH, level),
        );
        let mut prevouts: Vec<TxOut> = Vec::new();
        prevouts.push(
            TxOut { value, script_pubkey: copy_bytes(spent.script_pubkey.as_slice()) },
        );
        assert(prevouts.deep_view() =~= seq![
            TxOutView { value, script_pubkey: spent.script_pubkey@ },
        ]);
        let signature = match self.signer.sign_taproot_script_spend_tx(
            &tx,
            &prevouts,
            timelock_script.as_slice(),
            0,
        ) {
            Ok(signature) => signature,
            Err(e) => {
                return Err(e);
            },
        };
        let elements = one_item(signature.as_slice());
        match handle_taproot_witness(&mut tx, 0, &elements, &timelock_script, &tree_info) {
            Ok(()) => {},
            Err(e) => {
                return Err(e);
            },
        }
        proof {
            let control_block = taproot_control_block(
                INTERNAL_KEY@,
                tree_info.scripts.deep_view(),
                timelock_script@,
            )->0;
            assert(unsigned.input[0].witness + script_path_witness(
                seq![signature@],
                timelock_script@,
                control_block,
            ) =~= script_path_witness(seq![signature@], timelock_script@, control_block));
            assert(is_connector_spend(
                tx.deep_view(),
                self.all_verifiers(),
                self.signer.spec_xonly_public_key(),
                hashes,
                CONNECTOR_TREE_DEPTH as nat,
                utxo,
                value,
                spent.script_pubkey@,
                level as nat,
                index as nat,
                signature@,
            ));
        }
        Ok(tx)
    }

    /// The transaction that pays the fee of a move transaction that is
    /// stuck: it spends the move's anchor output `parent_outpoint` and
    /// `resource_utxo`, an output of the bridge amount at the operator's
    /// address, with both witnesses complete.
    #[verifier::rlimit(50)]
    pub fn create_child_pays_for_parent(&self, parent_outpoint: OutPoint, resource_utxo: OutPoint) -> (r:
        Result<Transaction, BridgeError>)
        requires
            self.wf(),
        ensures
            r matches Ok(tx) ==> {
                &&& taproot_address_script(seq![n_of_n_script(self.all_verifiers())]) matches Some(
                    bridge_script,
                )
                &&& is_signed_child_pays_for_parent(
                    tx.deep_view(),
                    parent_outpoint,
                    resource_utxo,
                    bridge_script,
                    self.signer.spec_address(),
                )
            },
            child_pays_for_parent_error(
                self.all_verifiers(),
                self.signer.spec_address(),
                parent_outpoint,
                resource_utxo,
            ) == (match r {
                Ok(_) => None,
                Err(e) => Some(e),
            }),
    {
        let (address, _) = match self.transaction_builder.generate_bridge_address() {
            Ok(address) => address,
            Err(e) => {
                return Err(e);
            },
        };
        let anyone = ScriptBuilder::anyone_can_spend_txout();
        let mut utxos: Vec<OutPoint> = Vec::new();
        utxos.push(parent_outpoint);
        utxos.push(resource_utxo);
        assert(utxos@ =~= seq![parent_outpoint, resource_utxo]);
        let child_tx_ins = TransactionBuilder::create_tx_ins(&utxos);
        let mut child_tx_outs: Vec<TxOut> = Vec::new();
        child_tx_outs.push(
            TxOut {
                value: BRIDGE_AMOUNT_SATS - DUST_VALUE - MIN_RELAY_FEE,
                script_pubkey: copy_bytes(address.as_slice()),
            },
        );
        child_tx_outs.push(
            TxOut {
                value: DUST_VALUE,
                script_pubkey: copy_bytes(anyone.script_pubkey.as_slice()),
            },
        );
        let mut child_tx = TransactionBuilder::create_btc_tx(child_tx_ins, child_tx_outs);
        let ghost unsigned = child_pays_for_parent_spec(parent_outpoint, resource_utxo, address@);
        proof {
            assert(child_tx.deep_view().output =~= unsigned.output);
            assert(child_tx.deep_view().input =~= unsigned.input);
            assert(child_tx.input@.len() == child_tx.deep_view().input.len());
        }
        let mut witness_script: Vec<u8> = Vec::new();
        witness_script.push(OP_TRUE);
        assert(witness_script@ =~= seq![OP_TRUE]);
        replace_witness(&mut child_tx, 0, one_item(witness_script.as_slice()));
        let mut prevouts: Vec<TxOut> = Vec::new();
        prevouts.push(TxOut { value: DUST_VALUE, script_pubkey: anyone.script_pubkey });
        prevouts.push(TxOut { value: BRIDGE_AMOUNT_SATS, script_pubkey: self.signer.address() });
        proof {
            assert(prevouts.deep_view() =~= seq![
                TxOutView { value: DUST_VALUE, script_pubkey: p2wsh_script(seq![OP_TRUE]) },
                TxOutView { value: BRIDGE_AMOUNT_SATS, script_pubkey: self.signer.spec_address() },
            ]);
            let output_key = taproot_key_spend_output_key(self.signer.spec_xonly_public_key())->0;
            assert(taproot_key_of(crate::taproot::p2tr_script(output_key)) =~= output_key);
        }
        let signature = match self.signer.sign_taproot_pubkey_spend_tx(&child_tx, &prevouts, 1) {
            Ok(signature) => signature,
            Err(e) => {
                return Err(e);
            },
        };
        assert(child_tx.input@.len() == child_tx.deep_view().input.len());
        replace_witness(&mut child_tx, 1, one_item(signature.as_slice()));
        proof {
            assert(is_child_pays_for_parent(
                child_tx.deep_view(),
                parent_outpoint,
                resource_utxo,
                address@,
                self.signer.spec_address(),
                signature@,
            ));
        }
        Ok(child_tx)
    }
}

impl Operator {
    /// Whether the operator holds what the claim number `index` needs: a
    /// connector leaf, a deposit and its moved funds under that number.
    pub open spec fn claim_slot_exists(&self, index: nat) -> bool {
        &&& index < pow2(CONNECTOR_TREE_DEPTH as nat)
        &&& index < self.deposit_utxos@.len()
        &&& index < self.move_utxos@.len()
        &&& self.connector_tree_utxos@.len() == CONNECTOR_TREE_DEPTH + 1
        &&& index < self.connector_tree_utxos@[CONNECTOR_TREE_DEPTH as int]@.len()
    }

    /// Why the operator cannot claim the deposit number `index`, if it
    /// cannot. In this order: it holds no leaf, deposit or moved funds under
    /// that number; it has no presignatures for the deposit; the leaf or the
    /// bridge has no address; the claim cannot be signed.
    pub open spec fn claim_error(&self, index: nat) -> Option<BridgeError> {
        let verifiers = self.all_verifiers();
        let actor_pk = self.signer.spec_xonly_public_key();
        let leaf_hash =
            self.connector_tree_hashes.deep_view()[CONNECTOR_TREE_DEPTH as int][index as int];
        if !self.claim_slot_exists(index) {
            Some(BridgeError::TreeIndexOutOfRange)
        } else if presigns_of(self.deposit_presigns@, self.deposit_utxos@[index as int].txid@)
            is None {
            Some(BridgeError::PresignMissing)
        } else if taproot_address_script(
            connector_node_scripts(
                verifiers,
                actor_pk,
                leaf_hash,
                CONNECTOR_TREE_OPERATOR_TAKES_AFTER as u32,
            ),
        ) is None || taproot_address_script(seq![n_of_n_script(verifiers)]) is None {
            Some(BridgeError::ScriptBuildError)
        } else if !claim_can_be_signed(
            verifiers,
            actor_pk,
            self.signer.spec_address(),
            leaf_hash,
            self.move_utxos@[index as int],
            self.connector_tree_utxos@[CONNECTOR_TREE_DEPTH as int]@[index as int],
        ) {
            Some(BridgeError::WitnessAssemblyError)
        } else {
            None
        }
    }

    /// The value of each leaf of the operator's connector tree.
    pub open spec fn connector_leaf_amount() -> nat {
        connector_node_amount(
            connector_amount(CONNECTOR_TREE_DEPTH as nat, DUST_VALUE as nat, MIN_RELAY_FEE as nat),
            MIN_RELAY_FEE as nat,
            CONNECTOR_TREE_DEPTH as nat,
        )
    }

    /// The value of each leaf of the operator's connector tree.
    pub fn connector_leaf_value() -> (value: u64)
        ensures
            value == Operator::connector_leaf_amount(),
            value >= DUST_VALUE,
    {
        proof {
            lemma2_to64();
            lemma_connector_amounts_cover_fees(
                DUST_VALUE as nat,
                MIN_RELAY_FEE as nat,
                CONNECTOR_TREE_DEPTH as nat,
                CONNECTOR_TREE_DEPTH as nat,
            );
        }
        let root = calculate_amount(CONNECTOR_TREE_DEPTH, DUST_VALUE, MIN_RELAY_FEE);
        match connector_node_value(root, MIN_RELAY_FEE, CONNECTOR_TREE_DEPTH) {
            Some(value) => value,
            None => DUST_VALUE,
        }
    }

    /// Signs the claim transaction and completes both witnesses.
    #[verifier::rlimit(50)]
    fn sign_claim_tx(
        &self,
        fund_utxo: OutPoint,
        connector_utxo: OutPoint,
        leaf_hash: &[u8; 32],
        presigns: &Vec<DepositPresigns>,
        bridge_address: Vec<u8>,
        bridge_info: &crate::taproot::TaprootSpendInfo,
        leaf_address: Vec<u8>,
        leaf_info: &crate::taproot::TaprootSpendInfo,
    ) -> (r: Result<Transaction, BridgeError>)
        requires
            self.wf(),
            taproot_address_script(seq![n_of_n_script(self.all_verifiers())]) == Some(
                bridge_address@,
            ),
            taproot_address_script(
                connector_node_scripts(
                    self.all_verifiers(),
                    self.signer.spec_xonly_public_key(),
                    leaf_hash@,
                    CONNECTOR_TREE_OPERATOR_TAKES_AFTER as u32,
                ),
            ) == Some(leaf_address@),
            bridge_info.internal_key == INTERNAL_KEY,
            bridge_info.scripts.deep_view() == seq![n_of_n_script(self.all_verifiers())],
            leaf_info.internal_key == INTERNAL_KEY,
            leaf_info.scripts.deep_view() == connector_node_scripts(
                self.all_verifiers(),
                self.signer.spec_xonly_public_key(),
                leaf_hash@,
                CONNECTOR_TREE_OPERATOR_TAKES_AFTER as u32,
            ),
        ensures
            r matches Ok(tx) ==> is_signed_claim_tx(
                tx.deep_view(),
                self.all_verifiers(),
                self.signer.spec_xonly_public_key(),
                self.signer.spec_address(),
                leaf_hash@,
                fund_utxo,
                connector_utxo,
                presigns@,
            ),
            r matches Err(e) ==> e == BridgeError::WitnessAssemblyError,
            r is Ok <==> claim_can_be_signed(
                self.all_verifiers(),
                self.signer.spec_xonly_public_key(),
                self.signer.spec_address(),
                leaf_hash@,
                fund_utxo,
                connector_utxo,
            ),
    {
        let operator_address = self.signer.address();
        let public_key = self.signer.xonly_public_key();
        let mut claim_tx = TransactionBuilder::create_claim_tx(
            fund_utxo,
            connector_utxo,
            &operator_address,
        );
        let ghost unsigned = claim_tx.deep_view();
        let script_n_of_n = self.script_builder.generate_script_n_of_n();
        let timelock_script = ScriptBuilder::generate_timelock_script(
            &public_key,
            CONNECTOR_TREE_OPERATOR_TAKES_AFTER as u32,
        );
        let mut prevouts: Vec<TxOut> = Vec::new();
        prevouts.push(
            TxOut {
                value: BRIDGE_AMOUNT_SATS - DUST_VALUE - MIN_RELAY_FEE,
                script_pubkey: bridge_address,
            },
        );
        prevouts.push(
            TxOut { value: Operator::connector_leaf_value(), script_pubkey: leaf_address },
        );
        assert(prevouts.deep_view() =~= claim_prevouts(
            bridge_address@,
            Operator::connector_leaf_amount() as u64,
            leaf_address@,
        ));
        let fund_signature = match self.signer.sign_taproot_script_spend_tx(
            &claim_tx,
            &prevouts,
            script_n_of_n.as_slice(),
            0,
        ) {
            Ok(signature) => signature,
            Err(e) => {
                return Err(e);
            },
        };
        let leaf_signature = match self.signer.sign_taproot_script_spend_tx(
            &claim_tx,
            &prevouts,
            timelock_script.as_slice(),
            1,
        ) {
            Ok(signature) => signature,
            Err(e) => {
                return Err(e);
            },
        };
        let fund_elements = build_claim_witness_elements(presigns, &fund_signature);
        assert(claim_tx.input@.len() == claim_tx.deep_view().input.len());
        match handle_taproot_witness(&mut claim_tx, 0, &fund_elements, &script_n_of_n, bridge_info) {
            Ok(()) => {},
            Err(e) => {
                return Err(e);
            },
        }
        let ghost half_signed = claim_tx.deep_view();
        assert(claim_tx.input@.len() == half_signed.input.len());
        let leaf_elements = one_item(leaf_signature.as_slice());
        match handle_taproot_witness(
            &mut claim_tx,
            1,
            &leaf_elements,
            &timelock_script,
            leaf_info,
        ) {
            Ok(()) => {},
            Err(e) => {
                return Err(e);
            },
        }
        proof {
            let fund_block = taproot_control_block(
                INTERNAL_KEY@,
                bridge_info.scripts.deep_view(),
                script_n_of_n@,
            )->0;
            let leaf_block = taproot_control_block(
                INTERNAL_KEY@,
                leaf_info.scripts.deep_view(),
                timelock_script@,
            )->0;
            assert(unsigned.input[0].witness + script_path_witness(
                fund_elements.deep_view(),
                script_n_of_n@,
                fund_block,
            ) =~= script_path_witness(fund_elements.deep_view(), script_n_of_n@, fund_block));
            assert(half_signed.input[1].witness + script_path_witness(
                seq![leaf_signature@],
                timelock_script@,
                leaf_block,
            ) =~= script_path_witness(seq![leaf_signature@], timelock_script@, leaf_block));
            assert(is_claim_tx(
                claim_tx.deep_view(),
                self.all_verifiers(),
                self.signer.spec_xonly_public_key(),
                self.signer.spec_address(),
                leaf_hash@,
                fund_utxo,
                connector_utxo,
                presigns@,
                fund_signature@,
                leaf_signature@,
            ));
        }
        Ok(claim_tx)
    }

    /// The claim of the deposit number `index`: the transaction that spends
    /// the moved deposit and the connector leaf of that number to the
    /// operator, with both witnesses complete, for the caller to send.
    #[verifier::rlimit(50)]
    pub fn claim_deposit(&self, index: usize) -> (r: Result<Transaction, BridgeError>)
        requires
            self.wf(),
        ensures
            self.claim_error(index as nat) == (match r {
                Ok(_) => None,
                Err(e) => Some(e),
            }),
            r matches Ok(tx) ==> {
                &&& presigns_of(self.deposit_presigns@, self.deposit_utxos@[index as int].txid@)
                    matches Some(presigns)
                &&& is_signed_claim_tx(
                    tx.deep_view(),
                    self.all_verifiers(),
                    self.signer.spec_xonly_public_key(),
                    self.signer.spec_address(),
                    self.connector_tree_hashes.deep_view()[CONNECTOR_TREE_DEPTH as int][index as int],
                    self.move_utxos@[index as int],
                    self.connector_tree_utxos@[CONNECTOR_TREE_DEPTH as int]@[index as int],
                    presigns,
                )
            },
    {
        let ghost hashes = self.connector_tree_hashes.deep_view();
        proof {
            lemma2_to64();
            assert(hashes[CONNECTOR_TREE_DEPTH as int].len() == pow2(CONNECTOR_TREE_DEPTH as nat));
            assert(self.connector_tree_hashes@[CONNECTOR_TREE_DEPTH as int].deep_view()
                == hashes[CONNECTOR_TREE_DEPTH as int]);
        }
        if index >= self.connector_tree_hashes[CONNECTOR_TREE_DEPTH].len() || index
            >= self.deposit_utxos.len() || index >= self.move_utxos.len()
            || self.connector_tree_utxos.len() != CONNECTOR_TREE_DEPTH + 1 {
            return Err(BridgeError::TreeIndexOutOfRange);
        }
        if index >= self.connector_tree_utxos[CONNECTOR_TREE_DEPTH].len() {
            return Err(BridgeError::TreeIndexOutOfRange);
        }
        let deposit_utxo = self.deposit_utxos[index];
        let fund_utxo = self.move_utxos[index];
        let connector_utxo = self.connector_tree_utxos[CONNECTOR_TREE_DEPTH][index];
        let at = match self.find_presigns(&deposit_utxo.txid) {
            Some(at) => at,
            None => {
                return Err(BridgeError::PresignMissing);
            },
        };
        let public_key = self.signer.xonly_public_key();
        let leaf_hash: [u8; 32] = self.connector_tree_hashes[CONNECTOR_TREE_DEPTH][index];
        proof {
            lemma_array_deep_view(leaf_hash);
        }
        let (leaf_address, leaf_info) = match self.transaction_builder.connector_address_at(
            &public_key,
            &self.connector_tree_hashes,
            CONNECTOR_TREE_DEPTH,
            CONNECTOR_TREE_DEPTH,
            index,
        ) {
            Ok(address) => address,
            Err(e) => {
                return Err(e);
            },
        };
        let (bridge_address, bridge_info) = match self.transaction_builder.generate_bridge_address() {
            Ok(address) => address,
            Err(e) => {
                return Err(e);
            },
        };
        self.sign_claim_tx(
            fund_utxo,
            connector_utxo,
            &leaf_hash,
            &self.deposit_presigns[at].1,
            bridge_address,
            &bridge_info,
            leaf_address,
            &leaf_info,
        )
    }
}

} // verus!
