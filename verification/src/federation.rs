//! A verifier of the federation: it presigns deposits, and it watches the
//! connector tree for the preimages that the operator reveals.

use vstd::prelude::*;
use vstd::arithmetic::power2::{lemma2_to64, pow2};
use crate::actor::{
    Actor, deposit_digest, ecdsa_recoverable_signature, evm_signature, prevouts_bytes, signs,
    taproot_script_spend_sighash,
};
use crate::config::{BRIDGE_AMOUNT_SATS, CONNECTOR_TREE_DEPTH, DUST_VALUE, MIN_RELAY_FEE};
use crate::errors::BridgeError;
use crate::hash::{bytes32_eq, bytes_eq, hash_32, sha256};
use crate::operator::{
    claim_prevouts, copy_keys, deposit_output, deposit_tx_spec, DepositPresigns, Operator,
    presigned_for,
};
use crate::script_builder::{
    inscribed_chunks, inscribed_key, is_inscription, n_of_n_script, n_of_n_with_hash_script,
    read_inscription,
};
use crate::transaction::{
    copy_bytes, OutPoint, OutPointView, Transaction, txid_of, TxIn, TxOut, wire_bytes,
};
use crate::transaction_builder::{
    claim_tx_view, connector_addresses_exist, connector_node_address, deposit_scripts,
    is_connector_utxo_tree, move_tx_view, taproot_address_script, TransactionBuilder,
};
use crate::utils::{
    calculate_amount, connector_amount, connector_tree_shape, has_tree_shape, indices_view,
    reveal_indices_within,
    lemma_connector_amounts_cover_fees, lemma_reveal_indices_in_tree, reveal_indices,
};
use crate::views::lemma_array_deep_view;

verus! {

/// A preimage that was seen on chain, with the slot of the connector tree
/// that it was revealed for.
#[derive(Debug, Clone, Copy)]
pub struct ObservedPreimage {
    pub level: usize,
    pub index: usize,
    pub preimage: [u8; 32],
}

/// A preimage that was seen, as plain values.
pub struct Observation {
    pub level: nat,
    pub index: nat,
    pub preimage: Seq<u8>,
}

impl View for ObservedPreimage {
    type V = Observation;

    open spec fn view(&self) -> Observation {
        Observation {
            level: self.level as nat,
            index: self.index as nat,
            preimage: self.preimage@,
        }
    }
}

/// A verifier of the federation. What it has observed is a set of slots
/// with the preimage seen for each, written down as a list in the order in
/// which the preimages were seen; its invariant says that no slot is in it
/// twice.
pub struct Verifier {
    pub signer: Actor,
    pub transaction_builder: TransactionBuilder,
    pub operator_pk: [u8; 32],
    pub connector_tree_utxos: Vec<Vec<OutPoint>>,
    pub connector_tree_hashes: Vec<Vec<[u8; 32]>>,
    pub presigned: Vec<OutPoint>,
    pub observed: Vec<ObservedPreimage>,
}

/// Whether the slot lies in the announced tree.
pub open spec fn slot_in_tree(hashes: Seq<Seq<Seq<u8>>>, level: nat, index: nat) -> bool {
    level < hashes.len() && index < hashes[level as int].len()
}

/// Whether the preimage hashes to what was announced for its slot.
pub open spec fn observation_sound(hashes: Seq<Seq<Seq<u8>>>, seen: ObservedPreimage) -> bool {
    slot_in_tree(hashes, seen.level as nat, seen.index as nat) && sha256(seen.preimage@)
        == hashes[seen.level as int][seen.index as int]
}

/// Whether a preimage has been seen for the slot.
pub open spec fn slot_observed(observed: Seq<ObservedPreimage>, level: nat, index: nat) -> bool {
    exists|k: int|
        0 <= k < observed.len() && (#[trigger] observed[k]).level == level && observed[k].index
            == index
}

/// What was seen, in the order in which it was seen, as plain values.
pub open spec fn observations(observed: Seq<ObservedPreimage>) -> Seq<Observation> {
    Seq::new(observed.len(), |k: int| observed[k]@)
}

/// Whether a preimage is among `seen` for the slot.
pub open spec fn slot_seen(seen: Seq<Observation>, level: nat, index: nat) -> bool {
    exists|k: int| 0 <= k < seen.len() && (#[trigger] seen[k]).level == level && seen[k].index == index
}

/// What has been seen once a preimage is registered for a slot: it stands
/// behind what was seen before, unless one was seen for the slot already.
pub open spec fn with_observation(
    seen: Seq<Observation>,
    level: nat,
    index: nat,
    preimage: Seq<u8>,
) -> Seq<Observation> {
    if slot_seen(seen, level, index) {
        seen
    } else {
        seen.push(Observation { level, index, preimage })
    }
}

/// What has been seen once the preimages are registered for the slots, one
/// after the other.
pub open spec fn with_observations(
    seen: Seq<Observation>,
    nodes: Seq<(nat, nat)>,
    preimages: Seq<Seq<u8>>,
) -> Seq<Observation>
    decreases nodes.len(),
{
    if nodes.len() == 0 || preimages.len() == 0 {
        seen
    } else {
        with_observations(
            with_observation(seen, nodes[0].0, nodes[0].1, preimages[0]),
            nodes.skip(1),
            preimages.skip(1),
        )
    }
}

/// The preimage that was seen first for the slot, if one was.
pub open spec fn preimage_seen(observed: Seq<ObservedPreimage>, level: nat, index: nat) -> Option<
    [u8; 32],
>
    decreases observed.len(),
{
    if observed.len() == 0 {
        None
    } else if observed[0].level == level && observed[0].index == index {
        Some(observed[0].preimage)
    } else {
        preimage_seen(observed.skip(1), level, index)
    }
}

/// Whether no slot has two preimages among what was observed: the list is
/// a set of slots.
pub open spec fn observed_once(observed: Seq<ObservedPreimage>) -> bool {
    forall|j: int, k: int|
        0 <= j < k < observed.len() ==> !((#[trigger] observed[j]).level == (
        #[trigger] observed[k]).level && observed[j].index == observed[k].index)
}

/// A slot is observed exactly when it is seen among the plain values.
pub proof fn lemma_slot_seen(observed: Seq<ObservedPreimage>, level: nat, index: nat)
    ensures
        slot_observed(observed, level, index) == slot_seen(observations(observed), level, index),
{
    let seen = observations(observed);
    if slot_observed(observed, level, index) {
        let k = choose|k: int|
            0 <= k < observed.len() && (#[trigger] observed[k]).level == level && observed[k].index
                == index;
        assert(seen[k].level == level && seen[k].index == index);
    }
    if slot_seen(seen, level, index) {
        let k = choose|k: int|
            0 <= k < seen.len() && (#[trigger] seen[k]).level == level && seen[k].index == index;
        assert(observed[k].level == level && observed[k].index == index);
    }
}

impl Verifier {
    /// The verifier's invariant: its key material is sound, it knows an
    /// outpoint for every node that a hash was announced for, every
    /// preimage it has seen hashes to what the operator announced for the
    /// preimage's slot, and it has seen no more than one for any slot.
    pub open spec fn wf(&self) -> bool {
        &&& self.signer.wf()
        &&& self.connector_tree_utxos@.len() == self.connector_tree_hashes.deep_view().len()
        &&& forall|level: int|
            0 <= level < self.connector_tree_utxos@.len() ==> (
            #[trigger] self.connector_tree_utxos@[level])@.len()
                == self.connector_tree_hashes.deep_view()[level].len()
        &&& forall|k: int|
            0 <= k < self.observed@.len() ==> observation_sound(
                self.connector_tree_hashes.deep_view(),
                #[trigger] self.observed@[k],
            )
        &&& observed_once(self.observed@)
    }

    /// A new verifier with a fresh key, for the given operator: there
    /// always is one. It knows no other signer and no connector tree yet,
    /// and has presigned and seen nothing.
    pub fn new(rng: &mut secp256k1::rand::rngs::OsRng, operator_pk: [u8; 32]) -> (r: Option<Verifier>)
        ensures
            r matches Some(verifier) && {
                &&& verifier.wf()
                &&& verifier.operator_pk == operator_pk
                &&& verifier.transaction_builder.verifiers() == Seq::<Seq<u8>>::empty()
                &&& verifier.connector_tree_utxos@.len() == 0
                &&& verifier.connector_tree_hashes@.len() == 0
                &&& verifier.presigned@.len() == 0
                &&& verifier.observed@.len() == 0
            },
    {
        let signer = match Actor::new(rng) {
            Some(signer) => signer,
            None => {
                return None;
            },
        };
        Some(Verifier::from_signer(signer, operator_pk, Vec::new()))
    }

    /// The verifier with the given key, for the given operator and the
    /// given keys that sign for the bridge. It knows no connector tree yet,
    /// and has presigned and seen nothing.
    pub fn from_signer(signer: Actor, operator_pk: [u8; 32], verifiers: Vec<[u8; 32]>) -> (verifier:
        Verifier)
        requires
            signer.wf(),
        ensures
            verifier.wf(),
            verifier.signer == signer,
            verifier.operator_pk == operator_pk,
            verifier.transaction_builder.script_builder.verifiers_pks == verifiers,
            verifier.connector_tree_utxos@.len() == 0,
            verifier.connector_tree_hashes@.len() == 0,
            verifier.presigned@.len() == 0,
            verifier.observed@.len() == 0,
    {
        Verifier {
            signer,
            transaction_builder: TransactionBuilder::new(verifiers),
            operator_pk,
            connector_tree_utxos: Vec::new(),
            connector_tree_hashes: Vec::new(),
            presigned: Vec::new(),
            observed: Vec::new(),
        }
    }

    /// Tells the verifier who the operator is. The connector tree of
    /// another operator, and what was seen of it, is forgotten; what the
    /// verifier has presigned stays on record.
    pub fn set_operator(&mut self, operator_pk: [u8; 32])
        requires
            old(self).wf(),
        ensures
            final(self).wf(),
            final(self).operator_pk == operator_pk,
            final(self).signer == old(self).signer,
            final(self).transaction_builder == old(self).transaction_builder,
            final(self).presigned == old(self).presigned,
            final(self).connector_tree_utxos@.len() == 0,
            final(self).connector_tree_hashes@.len() == 0,
            final(self).observed@.len() == 0,
    {
        self.operator_pk = operator_pk;
        self.connector_tree_utxos = Vec::new();
        self.connector_tree_hashes = Vec::new();
        self.observed = Vec::new();
    }

    /// Tells the verifier which keys sign for the bridge, in order.
    pub fn set_verifiers(&mut self, verifiers: Vec<[u8; 32]>)
        requires
            old(self).wf(),
        ensures
            final(self).wf(),
            final(self).transaction_builder.script_builder.verifiers_pks == verifiers,
            final(self).signer == old(self).signer,
            final(self).operator_pk == old(self).operator_pk,
            final(self).connector_tree_utxos == old(self).connector_tree_utxos,
            final(self).connector_tree_hashes == old(self).connector_tree_hashes,
            final(self).presigned == old(self).presigned,
            final(self).observed == old(self).observed,
    {
        self.transaction_builder = TransactionBuilder::new(verifiers);
    }

    /// Takes the operator's announcement of a connector tree: the hashes of
    /// its nodes and the outpoint of its root. The verifier lays out the
    /// tree for itself, as the operator does, and forgets what it saw of an
    /// earlier tree. Fails with `TreeIndexOutOfRange` where the hashes do not
    /// have the shape of the tree, and with `ScriptBuildError` where a node
    /// has no address; nothing changes then.
    #[verifier::rlimit(50)]
    pub fn connector_root_utxo_created(
        &mut self,
        connector_tree_hashes: Vec<Vec<[u8; 32]>>,
        root_utxo: OutPoint,
    ) -> (r: Result<(), BridgeError>)
        requires
            old(self).wf(),
        ensures
            final(self).wf(),
            final(self).signer == old(self).signer,
            final(self).transaction_builder == old(self).transaction_builder,
            final(self).operator_pk == old(self).operator_pk,
            final(self).presigned == old(self).presigned,
            connector_tree_shape(connector_tree_hashes.deep_view(), CONNECTOR_TREE_DEPTH as nat)
                && connector_addresses_exist(
                old(self).transaction_builder.verifiers(),
                old(self).operator_pk@,
                connector_tree_hashes.deep_view(),
                CONNECTOR_TREE_DEPTH as nat,
            ) <==> r is Ok,
            r is Ok ==> {
                &&& final(self).connector_tree_hashes == connector_tree_hashes
                &&& final(self).observed@.len() == 0
                &&& final(self).connector_tree_utxos@[0]@ == seq![root_utxo]
                &&& is_connector_utxo_tree(
                    final(self).connector_tree_utxos@,
                    old(self).transaction_builder.verifiers(),
                    old(self).operator_pk@,
                    root_utxo@,
                    connector_amount(
                        CONNECTOR_TREE_DEPTH as nat,
                        DUST_VALUE as nat,
                        MIN_RELAY_FEE as nat,
                    ),
                    connector_tree_hashes.deep_view(),
                    CONNECTOR_TREE_DEPTH as nat,
                )
            },
            r matches Err(e) ==> {
                &&& e == BridgeError::TreeIndexOutOfRange <==> !connector_tree_shape(
                    connector_tree_hashes.deep_view(),
                    CONNECTOR_TREE_DEPTH as nat,
                )
                &&& e == BridgeError::TreeIndexOutOfRange || e == BridgeError::ScriptBuildError
                &&& final(self).connector_tree_hashes == old(self).connector_tree_hashes
                &&& final(self).connector_tree_utxos == old(self).connector_tree_utxos
                &&& final(self).observed == old(self).observed
            },
    {
        if !has_tree_shape(&connector_tree_hashes, CONNECTOR_TREE_DEPTH) {
            return Err(BridgeError::TreeIndexOutOfRange);
        }
        proof {
            lemma2_to64();
            lemma_connector_amounts_cover_fees(
                DUST_VALUE as nat,
                MIN_RELAY_FEE as nat,
                CONNECTOR_TREE_DEPTH as nat,
                CONNECTOR_TREE_DEPTH as nat,
            );
        }
        let total_amount = calculate_amount(CONNECTOR_TREE_DEPTH, DUST_VALUE, MIN_RELAY_FEE);
        let utxo_tree = match self.transaction_builder.create_connector_binary_tree(
            &self.operator_pk,
            root_utxo,
            total_amount,
            CONNECTOR_TREE_DEPTH,
            &connector_tree_hashes,
        ) {
            Ok(tree) => tree,
            Err(e) => {
                return Err(e);
            },
        };
        proof {
            assert(utxo_tree@[0]@.len() == 1);
            assert(utxo_tree@[0]@[0]@ == root_utxo@);
            crate::transaction::lemma_outpoint_view_injective(utxo_tree@[0]@[0], root_utxo);
            assert(utxo_tree@[0]@ =~= seq![root_utxo]);
        }
        self.connector_tree_hashes = connector_tree_hashes;
        self.connector_tree_utxos = utxo_tree;
        self.observed = Vec::new();
        Ok(())
    }

    /// Registers a preimage that was revealed on chain for a slot of the
    /// connector tree. The preimage is kept if it hashes to what was
    /// announced for the slot and none was kept for the slot before; what
    /// was kept before stays. Returns whether the preimage was new to the
    /// slot. Fails with `TreeIndexOutOfRange` exactly where the slot is not
    /// in the tree, and with `ProtocolViolation` exactly where it is and the
    /// preimage does not hash to what was announced.
    pub fn register_preimage(&mut self, level: usize, index: usize, preimage: [u8; 32]) -> (r: Result<
        bool,
        BridgeError,
    >)
        requires
            old(self).wf(),
        ensures
            final(self).wf(),
            final(self).signer == old(self).signer,
            final(self).transaction_builder == old(self).transaction_builder,
            final(self).operator_pk == old(self).operator_pk,
            final(self).connector_tree_utxos == old(self).connector_tree_utxos,
            final(self).connector_tree_hashes == old(self).connector_tree_hashes,
            final(self).presigned == old(self).presigned,
            final(self).observed@.len() >= old(self).observed@.len(),
            final(self).observed@.take(old(self).observed@.len() as int) == old(self).observed@,
            !slot_in_tree(old(self).connector_tree_hashes.deep_view(), level as nat, index as nat)
                <==> (r matches Err(e) && e == BridgeError::TreeIndexOutOfRange),
            slot_in_tree(old(self).connector_tree_hashes.deep_view(), level as nat, index as nat)
                && sha256(preimage@) != old(self).connector_tree_hashes.deep_view()[level as int][index as int]
                <==> (r matches Err(e) && e == BridgeError::ProtocolViolation),
            r is Err ==> final(self).observed == old(self).observed,
            r matches Err(e) ==> e == BridgeError::TreeIndexOutOfRange || e
                == BridgeError::ProtocolViolation,
            r matches Ok(added) ==> {
                &&& added == !slot_observed(old(self).observed@, level as nat, index as nat)
                &&& added ==> final(self).observed@ == old(self).observed@.push(
                    ObservedPreimage { level, index, preimage },
                )
                &&& !added ==> final(self).observed == old(self).observed
                &&& observations(final(self).observed@) == with_observation(
                    observations(old(self).observed@),
                    level as nat,
                    index as nat,
                    preimage@,
                )
            },
    {
        let ghost hashes = self.connector_tree_hashes.deep_view();
        if level >= self.connector_tree_hashes.len() {
            return Err(BridgeError::TreeIndexOutOfRange);
        }
        assert(self.connector_tree_hashes@[level as int].deep_view() == hashes[level as int]);
        if index >= self.connector_tree_hashes[level].len() {
            return Err(BridgeError::TreeIndexOutOfRange);
        }
        let announced: [u8; 32] = self.connector_tree_hashes[level][index];
        proof {
            lemma_array_deep_view(announced);
        }
        if !bytes32_eq(&hash_32(&preimage), &announced) {
            return Err(BridgeError::ProtocolViolation);
        }
        let mut k: usize = 0;
        while k < self.observed.len()
            invariant
                k <= self.observed@.len(),
                *self == *old(self),
                old(self).wf(),
                hashes == self.connector_tree_hashes.deep_view(),
                slot_in_tree(hashes, level as nat, index as nat),
                sha256(preimage@) == hashes[level as int][index as int],
                forall|j: int|
                    0 <= j < k ==> !((#[trigger] self.observed@[j]).level == level
                        && self.observed@[j].index == index),
            decreases self.observed@.len() - k,
        {
            if self.observed[k].level == level && self.observed[k].index == index {
                proof {
                    lemma_slot_seen(self.observed@, level as nat, index as nat);
                }
                return Ok(false);
            }
            k = k + 1;
        }
        proof {
            lemma_slot_seen(self.observed@, level as nat, index as nat);
        }
        self.observed.push(ObservedPreimage { level, index, preimage });
        assert(self.observed@.take(old(self).observed@.len() as int) =~= old(self).observed@);
        assert(observations(self.observed@) =~= observations(old(self).observed@).push(
            Observation { level: level as nat, index: index as nat, preimage: preimage@ },
        ));
        Ok(true)
    }

    /// The preimage that was seen for the slot, if one was.
    pub fn observed_preimage(&self, level: usize, index: usize) -> (r: Option<[u8; 32]>)
        requires
            self.wf(),
        ensures
            r == preimage_seen(self.observed@, level as nat, index as nat),
            r is Some <==> slot_observed(self.observed@, level as nat, index as nat),
            r matches Some(preimage) ==> slot_in_tree(
                self.connector_tree_hashes.deep_view(),
                level as nat,
                index as nat,
            ) && sha256(preimage@) == self.connector_tree_hashes.deep_view()[level as int][index as int],
    {
        let ghost goal = preimage_seen(self.observed@, level as nat, index as nat);
        assert(self.observed@.skip(0) =~= self.observed@);
        let mut k: usize = 0;
        while k < self.observed.len()
            invariant
                k <= self.observed@.len(),
                self.wf(),
                forall|j: int|
                    0 <= j < k ==> !((#[trigger] self.observed@[j]).level == level
                        && self.observed@[j].index == index),
                goal == preimage_seen(self.observed@, level as nat, index as nat),
                preimage_seen(self.observed@.skip(k as int), level as nat, index as nat) == goal,
            decreases self.observed@.len() - k,
        {
            let ghost rest = self.observed@.skip(k as int);
            assert(rest.len() > 0 && rest[0] == self.observed@[k as int]);
            assert(rest.skip(1) =~= self.observed@.skip(k + 1));
            if self.observed[k].level == level && self.observed[k].index == index {
                assert(preimage_seen(rest, level as nat, index as nat) == Some(
                    rest[0].preimage,
                ));
                assert(observation_sound(
                    self.connector_tree_hashes.deep_view(),
                    self.observed@[k as int],
                ));
                return Some(self.observed[k].preimage);
            }
            k = k + 1;
        }
        None
    }
}

/// Why a verifier cannot sign the move and the claim of a deposit, if it
/// cannot. In this order: the bridge has no address; there is nothing to
/// sign in the move; the connector leaf has no address; there is nothing to
/// sign in the claim.
pub open spec fn presign_error(
    verifiers: Seq<Seq<u8>>,
    operator_pk: Seq<u8>,
    hashes: Seq<Seq<Seq<u8>>>,
    deposit_utxo: OutPointView,
    deposit_script: Seq<u8>,
    hash: Seq<u8>,
    index: nat,
    connector_utxo: OutPointView,
    operator_address: Seq<u8>,
) -> Option<BridgeError> {
    match taproot_address_script(seq![n_of_n_script(verifiers)]) {
        None => Some(BridgeError::ScriptBuildError),
        Some(bridge_script) => if taproot_script_spend_sighash(
            wire_bytes(move_tx_view(deposit_utxo, bridge_script)),
            prevouts_bytes(seq![deposit_output(deposit_script)]),
            n_of_n_with_hash_script(verifiers, hash),
            0,
        ) is None {
            Some(BridgeError::WitnessAssemblyError)
        } else {
            match connector_node_address(
                verifiers,
                operator_pk,
                hashes,
                CONNECTOR_TREE_DEPTH as nat,
                CONNECTOR_TREE_DEPTH as nat,
                index,
            ) {
                None => Some(BridgeError::ScriptBuildError),
                Some(leaf_script) => if taproot_script_spend_sighash(
                    wire_bytes(
                        claim_tx_view(
                            OutPointView {
                                txid: txid_of(move_tx_view(deposit_utxo, bridge_script)),
                                vout: 0,
                            },
                            connector_utxo,
                            operator_address,
                        ),
                    ),
                    prevouts_bytes(
                        claim_prevouts(
                            bridge_script,
                            Operator::connector_leaf_amount() as u64,
                            leaf_script,
                        ),
                    ),
                    n_of_n_script(verifiers),
                    0,
                ) is None {
                    Some(BridgeError::WitnessAssemblyError)
                } else {
                    None
                },
            }
        },
    }
}

/// Whether the outpoint is among those listed.
pub open spec fn contains_outpoint(list: Seq<OutPoint>, utxo: OutPoint) -> bool {
    exists|k: int| 0 <= k < list.len() && (#[trigger] list[k])@ == utxo@
}

impl Verifier {
    /// Whether the verifier has presigned for the start outpoint before.
    pub fn has_presigned(&self, start_utxo: &OutPoint) -> (found: bool)
        ensures
            found == contains_outpoint(self.presigned@, *start_utxo),
    {
        let mut k: usize = 0;
        while k < self.presigned.len()
            invariant
                k <= self.presigned@.len(),
                forall|j: int| 0 <= j < k ==> (#[trigger] self.presigned@[j])@ != start_utxo@,
            decreases self.presigned@.len() - k,
        {
            if self.presigned[k].vout == start_utxo.vout && bytes32_eq(
                &self.presigned[k].txid,
                &start_utxo.txid,
            ) {
                return true;
            }
            k = k + 1;
        }
        false
    }

    /// Signs the move and the claim of a deposit that is yet to be made.
    #[verifier::rlimit(50)]
    fn presign_move_and_claim(
        &self,
        deposit_utxo: OutPoint,
        deposit_address: Vec<u8>,
        hash: &[u8; 32],
        index: usize,
        operator_address: &Vec<u8>,
    ) -> (r: Result<([u8; 64], [u8; 64]), BridgeError>)
        requires
            self.signer.wf(),
            self.connector_tree_utxos@.len() == CONNECTOR_TREE_DEPTH + 1,
            index < self.connector_tree_utxos@[CONNECTOR_TREE_DEPTH as int]@.len(),
            self.connector_tree_hashes@.len() == CONNECTOR_TREE_DEPTH + 1,
            index < self.connector_tree_hashes@[CONNECTOR_TREE_DEPTH as int]@.len(),
        ensures
            presign_error(
                self.transaction_builder.verifiers(),
                self.operator_pk@,
                self.connector_tree_hashes.deep_view(),
                deposit_utxo@,
                deposit_address@,
                hash@,
                index as nat,
                self.connector_tree_utxos@[CONNECTOR_TREE_DEPTH as int]@[index as int]@,
                operator_address@,
            ) == (match r {
                Ok(_) => None,
                Err(e) => Some(e),
            }),
            r matches Ok((move_sign, claim_sign)) ==> {
                &&& taproot_address_script(
                    seq![n_of_n_script(self.transaction_builder.verifiers())],
                ) matches Some(bridge_script)
                &&& connector_node_address(
                    self.transaction_builder.verifiers(),
                    self.operator_pk@,
                    self.connector_tree_hashes.deep_view(),
                    CONNECTOR_TREE_DEPTH as nat,
                    CONNECTOR_TREE_DEPTH as nat,
                    index as nat,
                ) matches Some(leaf_script)
                &&& signs(
                    move_sign@,
                    taproot_script_spend_sighash(
                        wire_bytes(move_tx_view(deposit_utxo@, bridge_script)),
                        prevouts_bytes(seq![deposit_output(deposit_address@)]),
                        n_of_n_with_hash_script(self.transaction_builder.verifiers(), hash@),
                        0,
                    ),
                    self.signer.spec_xonly_public_key(),
                )
                &&& signs(
                    claim_sign@,
                    taproot_script_spend_sighash(
                        wire_bytes(
                            claim_tx_view(
                                OutPointView {
                                    txid: txid_of(move_tx_view(deposit_utxo@, bridge_script)),
                                    vout: 0,
                                },
                                self.connector_tree_utxos@[CONNECTOR_TREE_DEPTH as int]@[index as int]@,
                                operator_address@,
                            ),
                        ),
                        prevouts_bytes(
                            claim_prevouts(
                                bridge_script,
                                Operator::connector_leaf_amount() as u64,
                                leaf_script,
                            ),
                        ),
                        n_of_n_script(self.transaction_builder.verifiers()),
                        0,
                    ),
                    self.signer.spec_xonly_public_key(),
                )
            },
    {
        let (bridge_address, _) = match self.transaction_builder.generate_bridge_address() {
            Ok(address) => address,
            Err(e) => {
                return Err(e);
            },
        };
        let move_tx = TransactionBuilder::create_move_tx(deposit_utxo, &bridge_address);
        let mut move_prevouts: Vec<TxOut> = Vec::new();
        let ghost deposit_script = deposit_address@;
        move_prevouts.push(TxOut { value: BRIDGE_AMOUNT_SATS, script_pubkey: deposit_address });
        assert(move_prevouts.deep_view() =~= seq![deposit_output(deposit_script)]);
        let script_with_hash =
            self.transaction_builder.script_builder.generate_script_n_of_n_with_hash(hash);
        let move_sign = match self.signer.sign_taproot_script_spend_tx(
            &move_tx,
            &move_prevouts,
            script_with_hash.as_slice(),
            0,
        ) {
            Ok(signature) => signature,
            Err(e) => {
                return Err(e);
            },
        };
        let (leaf_address, _) = match self.transaction_builder.connector_address_at(
            &self.operator_pk,
            &self.connector_tree_hashes,
            CONNECTOR_TREE_DEPTH,
            CONNECTOR_TREE_DEPTH,
            index,
        ) {
            Ok(address) => address,
            Err(e) => {
                return Err(e);
            },
        };
        let fund_utxo = TransactionBuilder::create_utxo(move_tx.txid(), 0);
        let connector_utxo = self.connector_tree_utxos[CONNECTOR_TREE_DEPTH][index];
        let claim_tx = TransactionBuilder::create_claim_tx(
            fund_utxo,
            connector_utxo,
            operator_address,
        );
        let mut claim_prevouts: Vec<TxOut> = Vec::new();
        let ghost bridge_script = bridge_address@;
        let ghost leaf_script = leaf_address@;
        claim_prevouts.push(
            TxOut {
                value: BRIDGE_AMOUNT_SATS - DUST_VALUE - MIN_RELAY_FEE,
                script_pubkey: bridge_address,
            },
        );
        claim_prevouts.push(
            TxOut { value: Operator::connector_leaf_value(), script_pubkey: leaf_address },
        );
        assert(claim_prevouts.deep_view() =~= crate::operator::claim_prevouts(
            bridge_script,
            Operator::connector_leaf_amount() as u64,
            leaf_script,
        ));
        let script_n_of_n = self.transaction_builder.script_builder.generate_script_n_of_n();
        let claim_sign = match self.signer.sign_taproot_script_spend_tx(
            &claim_tx,
            &claim_prevouts,
            script_n_of_n.as_slice(),
            0,
        ) {
            Ok(signature) => signature,
            Err(e) => {
                return Err(e);
            },
        };
        Ok((move_sign, claim_sign))
    }

    /// The script of the verifier's deposit address for the return key
    /// and the hash, where there is one.
    pub open spec fn deposit_address(&self, return_address: Seq<u8>, hash: Seq<u8>) -> Option<
        Seq<u8>,
    > {
        taproot_address_script(
            deposit_scripts(self.transaction_builder.verifiers(), return_address, hash),
        )
    }

    /// Why the verifier does not presign a deposit, if it does not: it
    /// refuses the request, or it cannot sign the move and the claim.
    pub open spec fn new_deposit_error(
        &self,
        start_utxo: OutPoint,
        amount: u64,
        index: u32,
        hash: Seq<u8>,
        return_address: Seq<u8>,
        all_verifiers: Seq<Seq<u8>>,
        operator_address: Seq<u8>,
    ) -> Option<BridgeError> {
        match self.refusal(start_utxo, amount, index, hash, return_address, all_verifiers) {
            Some(e) => Some(e),
            None => {
                let deposit_script = self.deposit_address(return_address, hash)->0;
                presign_error(
                    self.transaction_builder.verifiers(),
                    self.operator_pk@,
                    self.connector_tree_hashes.deep_view(),
                    OutPointView {
                        txid: txid_of(deposit_tx_spec(start_utxo, deposit_script)),
                        vout: 0,
                    },
                    deposit_script,
                    hash,
                    index as nat,
                    self.connector_tree_utxos@[CONNECTOR_TREE_DEPTH as int]@[index as int]@,
                    operator_address,
                )
            },
        }
    }

    /// Why the verifier refuses a deposit request before it signs
    /// anything, if it does. In this order: the amount is not the bridge
    /// amount; the verifier has no deposit address for the request; the
    /// request names a signing set with another deposit address; the
    /// verifier has presigned for the start outpoint before; the verifier
    /// knows no connector leaf of the deposit's number.
    pub open spec fn refusal(
        &self,
        start_utxo: OutPoint,
        amount: u64,
        index: u32,
        hash: Seq<u8>,
        return_address: Seq<u8>,
        all_verifiers: Seq<Seq<u8>>,
    ) -> Option<BridgeError> {
        let own = self.deposit_address(return_address, hash);
        if amount != BRIDGE_AMOUNT_SATS {
            Some(BridgeError::InvalidDeposit)
        } else if own is None {
            Some(BridgeError::ScriptBuildError)
        } else if taproot_address_script(deposit_scripts(all_verifiers, return_address, hash))
            != own {
            Some(BridgeError::InvalidDeposit)
        } else if contains_outpoint(self.presigned@, start_utxo) {
            Some(BridgeError::InvalidDeposit)
        } else if !(self.connector_tree_utxos@.len() == CONNECTOR_TREE_DEPTH + 1 && index
            < self.connector_tree_utxos@[CONNECTOR_TREE_DEPTH as int]@.len()
            && self.connector_tree_hashes@.len() == CONNECTOR_TREE_DEPTH + 1 && index
            < self.connector_tree_hashes@[CONNECTOR_TREE_DEPTH as int]@.len()) {
            Some(BridgeError::TreeIndexOutOfRange)
        } else {
            None
        }
    }

    /// Presigns a deposit that is yet to be made: the verifier checks the
    /// request and, if it is in order, signs the credit on the rollup, the
    /// move of the deposit into the bridge and the operator's claim with the
    /// connector leaf number `index`, and notes the start outpoint so as
    /// never to presign for it again. The two taproot signatures are valid
    /// under the verifier's key for the move and the claim that follow from
    /// the request. A request that is refused, or for which there is nothing
    /// to sign, leaves no trace.
    #[verifier::rlimit(50)]
    pub fn new_deposit(
        &mut self,
        start_utxo: OutPoint,
        amount: u64,
        index: u32,
        hash: [u8; 32],
        return_address: [u8; 32],
        evm_address: [u8; 20],
        all_verifiers: &Vec<[u8; 32]>,
        operator_address: &Vec<u8>,
    ) -> (r: Result<DepositPresigns, BridgeError>)
        requires
            old(self).wf(),
        ensures
            final(self).wf(),
            final(self).signer == old(self).signer,
            final(self).transaction_builder == old(self).transaction_builder,
            final(self).operator_pk == old(self).operator_pk,
            final(self).connector_tree_utxos == old(self).connector_tree_utxos,
            final(self).connector_tree_hashes == old(self).connector_tree_hashes,
            final(self).observed == old(self).observed,
            old(self).new_deposit_error(
                start_utxo,
                amount,
                index,
                hash@,
                return_address@,
                all_verifiers.deep_view(),
                operator_address@,
            ) == (match r {
                Ok(_) => None,
                Err(e) => Some(e),
            }),
            r is Err ==> final(self).presigned == old(self).presigned,
            r matches Ok(presigns) ==> {
                &&& final(self).presigned@ == old(self).presigned@.push(start_utxo)
                &&& taproot_address_script(
                    deposit_scripts(
                        old(self).transaction_builder.verifiers(),
                        return_address@,
                        hash@,
                    ),
                ) matches Some(deposit_script)
                &&& ecdsa_recoverable_signature(
                    old(self).signer.spec_secret_key(),
                    deposit_digest(
                        txid_of(deposit_tx_spec(start_utxo, deposit_script)),
                        evm_address@,
                        hash@,
                    ),
                ) matches Some((id, compact))
                &&& presigns.rollup_sign@ == evm_signature(id, compact)
                &&& taproot_address_script(
                    seq![n_of_n_script(old(self).transaction_builder.verifiers())],
                ) matches Some(bridge_script)
                &&& connector_node_address(
                    old(self).transaction_builder.verifiers(),
                    old(self).operator_pk@,
                    old(self).connector_tree_hashes.deep_view(),
                    CONNECTOR_TREE_DEPTH as nat,
                    CONNECTOR_TREE_DEPTH as nat,
                    index as nat,
                ) matches Some(leaf_script)
                &&& presigned_for(
                    presigns.move_sign@,
                    presigns.operator_claim_sign@,
                    old(self).signer.spec_xonly_public_key(),
                    old(self).transaction_builder.verifiers(),
                    start_utxo,
                    deposit_script,
                    bridge_script,
                    hash@,
                    old(self).connector_tree_utxos@[CONNECTOR_TREE_DEPTH as int]@[index as int]@,
                    leaf_script,
                    operator_address@,
                )
            },
    {
        if amount != BRIDGE_AMOUNT_SATS {
            return Err(BridgeError::InvalidDeposit);
        }
        let (deposit_address, _) = match self.transaction_builder.generate_deposit_address(
            &return_address,
            &hash,
        ) {
            Ok(address) => address,
            Err(e) => {
                return Err(e);
            },
        };
        let requested = TransactionBuilder::new(copy_keys(all_verifiers));
        assert(requested.verifiers() =~= all_verifiers.deep_view());
        match requested.generate_deposit_address(&return_address, &hash) {
            Ok((address, _)) => {
                if !bytes_eq(address.as_slice(), deposit_address.as_slice()) {
                    return Err(BridgeError::InvalidDeposit);
                }
            },
            Err(_) => {
                return Err(BridgeError::InvalidDeposit);
            },
        }
        if self.has_presigned(&start_utxo) {
            return Err(BridgeError::InvalidDeposit);
        }
        if self.connector_tree_utxos.len() != CONNECTOR_TREE_DEPTH + 1
            || self.connector_tree_hashes.len() != CONNECTOR_TREE_DEPTH + 1 {
            return Err(BridgeError::TreeIndexOutOfRange);
        }
        if index as usize >= self.connector_tree_utxos[CONNECTOR_TREE_DEPTH].len() || index as usize
            >= self.connector_tree_hashes[CONNECTOR_TREE_DEPTH].len() {
            return Err(BridgeError::TreeIndexOutOfRange);
        }
        let mut utxos: Vec<OutPoint> = Vec::new();
        utxos.push(start_utxo);
        let deposit_tx_ins = TransactionBuilder::create_tx_ins(&utxos);
        let mut deposit_tx_outs: Vec<TxOut> = Vec::new();
        deposit_tx_outs.push(
            TxOut {
                value: BRIDGE_AMOUNT_SATS,
                script_pubkey: copy_bytes(deposit_address.as_slice()),
            },
        );
        let deposit_tx = TransactionBuilder::create_btc_tx(deposit_tx_ins, deposit_tx_outs);
        proof {
            let expected = deposit_tx_spec(start_utxo, deposit_address@);
            assert(deposit_tx.deep_view().input =~= expected.input);
            assert(deposit_tx.deep_view().output =~= expected.output);
        }
        let deposit_txid = deposit_tx.txid();
        let rollup_sign = self.signer.sign_deposit(&deposit_txid, &evm_address, &hash);
        let deposit_utxo = TransactionBuilder::create_utxo(deposit_txid, 0);
        let (move_sign, operator_claim_sign) = match self.presign_move_and_claim(
            deposit_utxo,
            deposit_address,
            &hash,
            index as usize,
            operator_address,
        ) {
            Ok(signatures) => signatures,
            Err(e) => {
                return Err(e);
            },
        };
        self.presigned.push(start_utxo);
        Ok(DepositPresigns { rollup_sign, move_sign, operator_claim_sign })
    }
}

/// Whether a preimage has been seen for every one of the slots.
pub open spec fn slots_observed(observed: Seq<ObservedPreimage>, nodes: Seq<(nat, nat)>) -> bool {
    forall|i: int| 0 <= i < nodes.len() ==> slot_observed(observed, (#[trigger] nodes[i]).0, nodes[i].1)
}

/// What was seen for a slot is still seen after more has been seen.
pub proof fn lemma_observed_stays(
    before: Seq<ObservedPreimage>,
    after: Seq<ObservedPreimage>,
    level: nat,
    index: nat,
)
    requires
        before.len() <= after.len(),
        after.take(before.len() as int) == before,
        slot_observed(before, level, index),
    ensures
        slot_observed(after, level, index),
{
    let k = choose|k: int|
        0 <= k < before.len() && (#[trigger] before[k]).level == level && before[k].index == index;
    assert(after.take(before.len() as int)[k] == after[k]);
    assert(after[k].level == level && after[k].index == index);
}

/// Whether the operator and the verifiers are the parties of one bridge:
/// the operator knows each verifier's key, in order, and each verifier
/// knows the operator's key and the keys that sign for the bridge, and has
/// not yet heard of a connector tree, presigned or seen anything.
pub open spec fn is_federation(operator: Operator, verifiers: Seq<Verifier>) -> bool {
    &&& operator.wf()
    &&& operator.verifiers_pks@.len() == verifiers.len()
    &&& forall|i: int|
        0 <= i < verifiers.len() ==> {
            &&& (#[trigger] verifiers[i]).wf()
            &&& operator.verifiers_pks@[i]@ == verifiers[i].signer.spec_xonly_public_key()
            &&& verifiers[i].operator_pk@ == operator.signer.spec_xonly_public_key()
            &&& verifiers[i].transaction_builder.verifiers() == operator.all_verifiers()
            &&& verifiers[i].connector_tree_hashes@.len() == 0
            &&& verifiers[i].presigned@.len() == 0
            &&& verifiers[i].observed@.len() == 0
        }
}

/// Makes the parties of a bridge: an operator and `num_verifiers` verifiers,
/// each with a fresh key, who know one another. There always are such: the
/// operator is as `Operator::new` makes it for the verifiers' keys.
pub fn new_federation(rng: &mut secp256k1::rand::rngs::OsRng, num_verifiers: usize) -> (r: Option<
    (Operator, Vec<Verifier>),
>)
    ensures
        r matches Some((operator, verifiers)) && verifiers@.len() == num_verifiers && is_federation(
            operator,
            verifiers@,
        ) && operator.deposit_presigns@.len() == 0 && operator.deposit_utxos@.len() == 0
            && operator.move_utxos@.len() == 0 && operator.connector_tree_utxos@.len() == 0
            && operator.deposit_merkle_tree@.len() == 0 && operator.withdrawals_merkle_tree@.len()
            == 0,
{
    let mut signers: Vec<Actor> = Vec::new();
    let mut keys: Vec<[u8; 32]> = Vec::new();
    let mut made: usize = 0;
    while made < num_verifiers
        invariant
            made <= num_verifiers,
            signers@.len() == made,
            keys@.len() == made,
            forall|k: int|
                0 <= k < made ==> (#[trigger] signers@[k]).wf() && keys@[k]@
                    == signers@[k].spec_xonly_public_key(),
        decreases num_verifiers - made,
    {
        let signer = match Actor::new(rng) {
            Some(signer) => signer,
            None => {
                return None;
            },
        };
        keys.push(signer.xonly_public_key());
        signers.push(signer);
        made = made + 1;
    }
    let ghost all_signers = signers@;
    let ghost all_keys = keys@;
    let operator = match Operator::new(rng, keys) {
        Some(operator) => operator,
        None => {
            return None;
        },
    };
    let operator_pk = operator.signer.xonly_public_key();
    let mut verifiers: Vec<Verifier> = Vec::new();
    let mut i: usize = 0;
    while i < num_verifiers
        invariant
            i <= num_verifiers,
            all_signers.len() == num_verifiers,
            signers@ == all_signers.skip(i as int),
            verifiers@.len() == i,
            operator.wf(),
            operator.verifiers_pks@ == all_keys,
            all_keys.len() == num_verifiers,
            operator_pk@ == operator.signer.spec_xonly_public_key(),
            forall|k: int|
                0 <= k < num_verifiers ==> (#[trigger] all_signers[k]).wf() && all_keys[k]@
                    == all_signers[k].spec_xonly_public_key(),
            forall|k: int|
                0 <= k < i ==> {
                    &&& (#[trigger] verifiers@[k]).wf()
                    &&& verifiers@[k].signer == all_signers[k]
                    &&& verifiers@[k].operator_pk == operator_pk
                    &&& verifiers@[k].transaction_builder.verifiers() == operator.all_verifiers()
                    &&& verifiers@[k].connector_tree_hashes@.len() == 0
                    &&& verifiers@[k].presigned@.len() == 0
                    &&& verifiers@[k].observed@.len() == 0
                },
        decreases num_verifiers - i,
    {
        let signer = signers.remove(0);
        assert(signer == all_signers[i as int]);
        assert(signers@ =~= all_signers.skip(i + 1));
        let verifier = Verifier::from_signer(signer, operator_pk, operator.get_all_verifiers());
        verifiers.push(verifier);
        i = i + 1;
    }
    Some((operator, verifiers))
}

/// Whether the outpoint stands in the slot of the tree.
pub open spec fn holds_utxo(utxos: Seq<Vec<OutPoint>>, level: int, index: int, utxo: OutPointView) -> bool {
    0 <= level < utxos.len() && 0 <= index < utxos[level]@.len() && utxos[level]@[index]@ == utxo
}

/// Whether the slot is the first, level by level, in which the outpoint
/// stands.
pub open spec fn is_slot_of_utxo(
    utxos: Seq<Vec<OutPoint>>,
    level: int,
    index: int,
    utxo: OutPointView,
) -> bool {
    &&& holds_utxo(utxos, level, index, utxo)
    &&& forall|l: int, i: int| #[trigger]
        holds_utxo(utxos, l, i, utxo) ==> level < l || (level == l && index <= i)
}

/// Whether the outpoint is one of the tree.
pub open spec fn in_utxo_tree(utxos: Seq<Vec<OutPoint>>, utxo: OutPointView) -> bool {
    exists|l: int, i: int| holds_utxo(utxos, l, i, utxo)
}

/// Whether input `at` is the first that spends the outpoint.
pub open spec fn is_spending_input(inputs: Seq<TxIn>, at: int, utxo: OutPointView) -> bool {
    &&& 0 <= at < inputs.len()
    &&& inputs[at].previous_output@ == utxo
    &&& forall|j: int| 0 <= j < at ==> (#[trigger] inputs[j]).previous_output@ != utxo
}

/// Whether one of the inputs spends the outpoint.
pub open spec fn is_spent_by(inputs: Seq<TxIn>, utxo: OutPointView) -> bool {
    exists|at: int| is_spending_input(inputs, at, utxo)
}

/// What the spend of a connector node reveals: the item of 32 bytes that
/// stands before the script and the control block in the witness, if there
/// is one.
pub open spec fn revealed_preimage(witness: Seq<Vec<u8>>) -> Option<Seq<u8>> {
    if witness.len() >= 3 && witness[witness.len() - 3]@.len() == 32 {
        Some(witness[witness.len() - 3]@)
    } else {
        None
    }
}

/// The script of the inscription that a transaction reveals: the item
/// before the control block in the witness of its first input.
pub open spec fn revealed_script(inputs: Seq<TxIn>) -> Option<Seq<u8>> {
    if inputs.len() > 0 && inputs[0].witness@.len() >= 2 {
        Some(inputs[0].witness@[inputs[0].witness@.len() - 2]@)
    } else {
        None
    }
}

/// Whether the script is an inscription under the operator's key of one
/// preimage for each of the nodes, each of which hashes to what was
/// announced for its node.
pub open spec fn reveal_is_sound(
    script: Seq<u8>,
    operator_pk: Seq<u8>,
    hashes: Seq<Seq<Seq<u8>>>,
    nodes: Seq<(nat, nat)>,
) -> bool {
    &&& is_inscription(script)
    &&& inscribed_key(script) == operator_pk
    &&& inscribed_chunks(script).len() == nodes.len()
    &&& forall|k: int|
        0 <= k < nodes.len() ==> sha256(#[trigger] inscribed_chunks(script)[k])
            == hashes[nodes[k].0 as int][nodes[k].1 as int]
}

/// What a verifier makes of the witness that spends the node in the given
/// slot: nothing where it reveals no preimage, a `ProtocolViolation` where
/// what it reveals does not hash to what was announced for the slot, and
/// otherwise the preimage is registered.
pub open spec fn spend_observed(
    hashes: Seq<Seq<Seq<u8>>>,
    before: Seq<ObservedPreimage>,
    after: Seq<ObservedPreimage>,
    level: int,
    index: int,
    witness: Seq<Vec<u8>>,
    r: Result<bool, BridgeError>,
) -> bool {
    match revealed_preimage(witness) {
        None => r == Ok::<bool, BridgeError>(false) && after == before,
        Some(preimage) => if sha256(preimage) != hashes[level][index] {
            r == Err::<bool, BridgeError>(BridgeError::ProtocolViolation) && after == before
        } else {
            &&& r == Ok::<bool, BridgeError>(!slot_observed(before, level as nat, index as nat))
            &&& observations(after) == with_observation(
                observations(before),
                level as nat,
                index as nat,
                preimage,
            )
        },
    }
}

/// Watching the spend of a connector node loses nothing and takes in
/// nothing false: whatever the witness holds, what was seen before stays
/// where it was, at most one preimage is added, every preimage seen
/// afterwards hashes to what was announced for its slot, and a preimage that
/// does not is a `ProtocolViolation` that adds nothing.
pub proof fn lemma_observing_a_spend_keeps_what_was_seen(
    hashes: Seq<Seq<Seq<u8>>>,
    before: Seq<ObservedPreimage>,
    after: Seq<ObservedPreimage>,
    level: int,
    index: int,
    witness: Seq<Vec<u8>>,
    r: Result<bool, BridgeError>,
)
    requires
        slot_in_tree(hashes, level as nat, index as nat),
        level >= 0,
        index >= 0,
        forall|k: int| 0 <= k < before.len() ==> observation_sound(hashes, #[trigger] before[k]),
        spend_observed(hashes, before, after, level, index, witness, r),
    ensures
        before.len() <= after.len() <= before.len() + 1,
        observations(after).take(before.len() as int) == observations(before),
        forall|k: int| 0 <= k < after.len() ==> observation_sound(hashes, #[trigger] after[k]),
        r matches Err(e) ==> e == BridgeError::ProtocolViolation && after == before,
        r is Err <==> (revealed_preimage(witness) matches Some(preimage) && sha256(preimage)
            != hashes[level][index]),
{
    let seen = observations(before);
    match revealed_preimage(witness) {
        None => {
            assert(seen.take(before.len() as int) =~= seen);
        },
        Some(preimage) => {
            if sha256(preimage) != hashes[level][index] {
                assert(seen.take(before.len() as int) =~= seen);
            } else {
                let next = with_observation(seen, level as nat, index as nat, preimage);
                assert(observations(after) == next);
                assert(observations(after).len() == after.len());
                assert(next.take(before.len() as int) =~= seen);
                assert forall|k: int| 0 <= k < after.len() implies observation_sound(
                    hashes,
                    #[trigger] after[k],
                ) by {
                    assert(observations(after)[k] == after[k]@);
                    if k < before.len() {
                        assert(next[k] == seen[k]);
                        assert(seen[k] == before[k]@);
                        assert(observation_sound(hashes, before[k]));
                    } else {
                        assert(next[k] == Observation {
                            level: level as nat,
                            index: index as nat,
                            preimage,
                        });
                    }
                }
            }
        },
    }
}

impl Verifier {
    /// The slot of the connector tree that the outpoint belongs to, if it
    /// belongs to one: the first, level by level, in which it stands.
    pub fn locate_utxo(&self, utxo: &OutPoint) -> (r: Option<(usize, usize)>)
        ensures
            r is Some <==> in_utxo_tree(self.connector_tree_utxos@, utxo@),
            r matches Some((level, index)) ==> is_slot_of_utxo(
                self.connector_tree_utxos@,
                level as int,
                index as int,
                utxo@,
            ),
    {
        let ghost utxos = self.connector_tree_utxos@;
        let mut level: usize = 0;
        while level < self.connector_tree_utxos.len()
            invariant
                level <= self.connector_tree_utxos@.len(),
                utxos == self.connector_tree_utxos@,
                forall|l: int, i: int| #[trigger] holds_utxo(utxos, l, i, utxo@) ==> level <= l,
            decreases self.connector_tree_utxos@.len() - level,
        {
            let nodes = &self.connector_tree_utxos[level];
            let mut index: usize = 0;
            while index < nodes.len()
                invariant
                    index <= nodes@.len(),
                    level < self.connector_tree_utxos@.len(),
                    utxos == self.connector_tree_utxos@,
                    nodes == self.connector_tree_utxos@[level as int],
                    forall|l: int, i: int| #[trigger] holds_utxo(utxos, l, i, utxo@) ==> level <= l,
                    forall|i: int| 0 <= i < index ==> (#[trigger] nodes@[i])@ != utxo@,
                decreases nodes@.len() - index,
            {
                if nodes[index].vout == utxo.vout && bytes32_eq(&nodes[index].txid, &utxo.txid) {
                    assert(holds_utxo(utxos, level as int, index as int, utxo@));
                    return Some((level, index));
                }
                index = index + 1;
            }
            level = level + 1;
        }
        None
    }

    /// Looks at a transaction that spends an outpoint of the connector
    /// tree for the preimage that the spend reveals: the 32-byte item that
    /// stands before the script and the control block in the witness of
    /// the first input that spends the outpoint, if there is one. What it
    /// finds is registered for the outpoint's slot. Returns whether a
    /// preimage was found that was new to the slot. Fails with
    /// `TreeIndexOutOfRange` exactly where the outpoint is none of the tree,
    /// with `InvalidDeposit` exactly where it is and the transaction does
    /// not spend it, and with `ProtocolViolation` where what is revealed
    /// does not hash to what was announced for the slot. What was seen
    /// before stays.
    pub fn observe_spend(&mut self, utxo: &OutPoint, spending_tx: &Transaction) -> (r: Result<
        bool,
        BridgeError,
    >)
        requires
            old(self).wf(),
        ensures
            final(self).wf(),
            final(self).signer == old(self).signer,
            final(self).transaction_builder == old(self).transaction_builder,
            final(self).operator_pk == old(self).operator_pk,
            final(self).connector_tree_utxos == old(self).connector_tree_utxos,
            final(self).connector_tree_hashes == old(self).connector_tree_hashes,
            final(self).presigned == old(self).presigned,
            final(self).observed@.len() >= old(self).observed@.len(),
            final(self).observed@.take(old(self).observed@.len() as int) == old(self).observed@,
            r is Err ==> final(self).observed == old(self).observed,
            !in_utxo_tree(old(self).connector_tree_utxos@, utxo@) <==> (r matches Err(e) && e
                == BridgeError::TreeIndexOutOfRange),
            in_utxo_tree(old(self).connector_tree_utxos@, utxo@) && !is_spent_by(
                spending_tx.input@,
                utxo@,
            ) <==> (r matches Err(e) && e == BridgeError::InvalidDeposit),
            forall|level: int, index: int, at: int|
                #[trigger] is_slot_of_utxo(old(self).connector_tree_utxos@, level, index, utxo@)
                    && #[trigger] is_spending_input(spending_tx.input@, at, utxo@)
                    ==> spend_observed(
                    old(self).connector_tree_hashes.deep_view(),
                    old(self).observed@,
                    final(self).observed@,
                    level,
                    index,
                    spending_tx.input@[at].witness@,
                    r,
                ),
    {
        let ghost utxos = self.connector_tree_utxos@;
        let ghost hashes = self.connector_tree_hashes.deep_view();
        let (level, index) = match self.locate_utxo(utxo) {
            Some(slot) => slot,
            None => {
                return Err(BridgeError::TreeIndexOutOfRange);
            },
        };
        assert(holds_utxo(utxos, level as int, index as int, utxo@));
        let mut at: usize = 0;
        while at < spending_tx.input.len()
            invariant
                at <= spending_tx.input@.len(),
                *self == *old(self),
                forall|j: int|
                    0 <= j < at ==> (#[trigger] spending_tx.input@[j]).previous_output@ != utxo@,
            ensures
                at < spending_tx.input@.len() ==> spending_tx.input@[at as int].previous_output@
                    == utxo@,
            decreases spending_tx.input@.len() - at,
        {
            let spent = &spending_tx.input[at].previous_output;
            if spent.vout == utxo.vout && bytes32_eq(&spent.txid, &utxo.txid) {
                break ;
            }
            at = at + 1;
        }
        if at >= spending_tx.input.len() {
            return Err(BridgeError::InvalidDeposit);
        }
        assert(is_spending_input(spending_tx.input@, at as int, utxo@));
        assert forall|l: int, i: int, a: int|
            #[trigger] is_slot_of_utxo(utxos, l, i, utxo@) && #[trigger] is_spending_input(
                spending_tx.input@,
                a,
                utxo@,
            ) implies l == level && i == index && a == at by {
            assert(holds_utxo(utxos, l, i, utxo@));
        }
        let witness = &spending_tx.input[at].witness;
        if witness.len() < 3 || witness[witness.len() - 3].len() != 32 {
            assert(self.observed@.take(self.observed@.len() as int) =~= self.observed@);
            return Ok(false);
        }
        let item = &witness[witness.len() - 3];
        let mut preimage = [0u8; 32];
        let mut j: usize = 0;
        while j < 32
            invariant
                j <= 32,
                item@.len() == 32,
                forall|k: int| 0 <= k < j ==> preimage@[k] == item@[k],
            decreases 32 - j,
        {
            preimage[j] = item[j];
            j = j + 1;
        }
        assert(preimage@ =~= item@);
        assert(slot_in_tree(hashes, level as nat, index as nat));
        self.register_preimage(level, index, preimage)
    }

    /// Why the verifier registers nothing of a transaction that is to reveal
    /// the operator's inscription for `number_of_funds_claim` claims, if it
    /// does not.
    pub open spec fn reveal_error(&self, number_of_funds_claim: u32, inputs: Seq<TxIn>) -> Option<
        BridgeError,
    > {
        if !(connector_tree_shape(
            self.connector_tree_hashes.deep_view(),
            CONNECTOR_TREE_DEPTH as nat,
        ) && number_of_funds_claim <= pow2(CONNECTOR_TREE_DEPTH as nat)) {
            Some(BridgeError::TreeIndexOutOfRange)
        } else {
            match revealed_script(inputs) {
                None => Some(BridgeError::ProtocolViolation),
                Some(script) => if reveal_is_sound(
                    script,
                    self.operator_pk@,
                    self.connector_tree_hashes.deep_view(),
                    reveal_indices(CONNECTOR_TREE_DEPTH as nat, number_of_funds_claim as nat),
                ) {
                    None
                } else {
                    Some(BridgeError::ProtocolViolation)
                },
            }
        }
    }

    /// Takes the transaction that reveals the operator's inscription for
    /// `number_of_funds_claim` claims: the chunks in the script of its first
    /// witness are the preimages of the nodes that are revealed for that
    /// number of claims, in the order of the nodes. All of them are
    /// registered, one after the other, or, with a `ProtocolViolation`,
    /// none: where the witness holds no inscription under the operator's
    /// key, where it holds another number of chunks, or where a chunk does
    /// not hash to what was announced for its node. Fails with
    /// `TreeIndexOutOfRange` where the verifier knows no connector tree or
    /// the tree has fewer leaves than claims.
    #[verifier::rlimit(50)]
    pub fn register_revealed_preimages(&mut self, number_of_funds_claim: u32, reveal_tx: &Transaction) -> (r:
        Result<(), BridgeError>)
        requires
            old(self).wf(),
        ensures
            final(self).wf(),
            final(self).signer == old(self).signer,
            final(self).transaction_builder == old(self).transaction_builder,
            final(self).operator_pk == old(self).operator_pk,
            final(self).connector_tree_utxos == old(self).connector_tree_utxos,
            final(self).connector_tree_hashes == old(self).connector_tree_hashes,
            final(self).presigned == old(self).presigned,
            final(self).observed@.len() >= old(self).observed@.len(),
            final(self).observed@.take(old(self).observed@.len() as int) == old(self).observed@,
            old(self).reveal_error(number_of_funds_claim, reveal_tx.input@) == (match r {
                Ok(_) => None,
                Err(e) => Some(e),
            }),
            r is Err ==> final(self).observed == old(self).observed,
            r is Ok ==> observations(final(self).observed@) == with_observations(
                observations(old(self).observed@),
                reveal_indices(CONNECTOR_TREE_DEPTH as nat, number_of_funds_claim as nat),
                inscribed_chunks(revealed_script(reveal_tx.input@)->0),
            ),
            r is Ok ==> slots_observed(
                final(self).observed@,
                reveal_indices(CONNECTOR_TREE_DEPTH as nat, number_of_funds_claim as nat),
            ),
    {
        proof {
            lemma2_to64();
            assert(self.observed@.take(self.observed@.len() as int) =~= self.observed@);
        }
        if !has_tree_shape(&self.connector_tree_hashes, CONNECTOR_TREE_DEPTH)
            || number_of_funds_claim as u64 > crate::utils::pow2_u64(CONNECTOR_TREE_DEPTH) {
            return Err(BridgeError::TreeIndexOutOfRange);
        }
        if reveal_tx.input.len() == 0 || reveal_tx.input[0].witness.len() < 2 {
            return Err(BridgeError::ProtocolViolation);
        }
        let witness = &reveal_tx.input[0].witness;
        let script = &witness[witness.len() - 2];
        assert(revealed_script(reveal_tx.input@) == Some(script@));
        let chunks = match read_inscription(script.as_slice()) {
            Some(chunks) => chunks,
            None => {
                return Err(BridgeError::ProtocolViolation);
            },
        };
        if !bytes_eq(
            crate::hash::slice_of(script.as_slice(), 1, 33),
            self.operator_pk.as_slice(),
        ) {
            return Err(BridgeError::ProtocolViolation);
        }
        let indices = reveal_indices_within(CONNECTOR_TREE_DEPTH, number_of_funds_claim);
        if chunks.len() != indices.len() {
            return Err(BridgeError::ProtocolViolation);
        }
        let ghost nodes = reveal_indices(CONNECTOR_TREE_DEPTH as nat, number_of_funds_claim as nat);
        let ghost hashes = self.connector_tree_hashes.deep_view();
        let ghost read = inscribed_chunks(script@);
        let mut i: usize = 0;
        while i < indices.len()
            invariant
                i <= indices@.len(),
                *self == *old(self),
                self.wf(),
                chunks@.len() == indices@.len(),
                chunks.deep_view() == read,
                read == inscribed_chunks(script@),
                revealed_script(reveal_tx.input@) == Some(script@),
                number_of_funds_claim <= pow2(CONNECTOR_TREE_DEPTH as nat),
                indices_view(indices@) == nodes,
                nodes == reveal_indices(CONNECTOR_TREE_DEPTH as nat, number_of_funds_claim as nat),
                hashes == self.connector_tree_hashes.deep_view(),
                connector_tree_shape(hashes, CONNECTOR_TREE_DEPTH as nat),
                forall|k: int|
                    0 <= k < i ==> sha256(#[trigger] read[k]) == hashes[nodes[k].0 as int][nodes[k].1 as int],
            decreases indices@.len() - i,
        {
            let (level, index) = indices[i];
            proof {
                lemma_reveal_indices_in_tree(
                    CONNECTOR_TREE_DEPTH as nat,
                    number_of_funds_claim as nat,
                    i as int,
                );
                assert(nodes[i as int] == (level as nat, index as nat));
                assert(hashes[level as int].len() == pow2(level as nat));
                assert(self.connector_tree_hashes@[level as int].deep_view() == hashes[level as int]);
                lemma_array_deep_view(chunks@[i as int]);
                assert(chunks.deep_view()[i as int] == chunks@[i as int]@);
            }
            let announced: [u8; 32] = self.connector_tree_hashes[level][index];
            proof {
                lemma_array_deep_view(announced);
            }
            if !bytes32_eq(&hash_32(&chunks[i]), &announced) {
                assert(sha256(read[i as int]) != hashes[nodes[i as int].0 as int][nodes[i as int].1 as int]);
                return Err(BridgeError::ProtocolViolation);
            }
            i = i + 1;
        }
        assert(reveal_is_sound(script@, self.operator_pk@, hashes, nodes));
        let ghost goal = with_observations(observations(self.observed@), nodes, read);
        assert(nodes.skip(0) =~= nodes && read.skip(0) =~= read);
        let mut i: usize = 0;
        while i < indices.len()
            invariant
                i <= indices@.len(),
                self.wf(),
                self.signer == old(self).signer,
                self.transaction_builder == old(self).transaction_builder,
                self.operator_pk == old(self).operator_pk,
                self.connector_tree_utxos == old(self).connector_tree_utxos,
                self.connector_tree_hashes == old(self).connector_tree_hashes,
                self.presigned == old(self).presigned,
                self.observed@.len() >= old(self).observed@.len(),
                self.observed@.take(old(self).observed@.len() as int) == old(self).observed@,
                chunks@.len() == indices@.len(),
                chunks.deep_view() == read,
                number_of_funds_claim <= pow2(CONNECTOR_TREE_DEPTH as nat),
                indices_view(indices@) == nodes,
                nodes == reveal_indices(CONNECTOR_TREE_DEPTH as nat, number_of_funds_claim as nat),
                hashes == self.connector_tree_hashes.deep_view(),
                connector_tree_shape(hashes, CONNECTOR_TREE_DEPTH as nat),
                forall|k: int|
                    0 <= k < indices@.len() ==> sha256(#[trigger] read[k])
                        == hashes[nodes[k].0 as int][nodes[k].1 as int],
                forall|k: int|
                    0 <= k < i ==> slot_observed(self.observed@, (#[trigger] nodes[k]).0, nodes[k].1),
                goal == with_observations(observations(old(self).observed@), nodes, read),
                with_observations(
                    observations(self.observed@),
                    nodes.skip(i as int),
                    read.skip(i as int),
                ) == goal,
            decreases indices@.len() - i,
        {
            let (level, index) = indices[i];
            let ghost before = self.observed@;
            proof {
                lemma_reveal_indices_in_tree(
                    CONNECTOR_TREE_DEPTH as nat,
                    number_of_funds_claim as nat,
                    i as int,
                );
                assert(nodes[i as int] == (level as nat, index as nat));
                assert(hashes[level as int].len() == pow2(level as nat));
                lemma_array_deep_view(chunks@[i as int]);
                assert(chunks.deep_view()[i as int] == chunks@[i as int]@);
                assert(nodes.skip(i as int)[0] == nodes[i as int]);
                assert(read.skip(i as int)[0] == read[i as int]);
                assert(nodes.skip(i as int).skip(1) =~= nodes.skip(i + 1));
                assert(read.skip(i as int).skip(1) =~= read.skip(i + 1));
            }
            assert(sha256(chunks@[i as int]@) == hashes[level as int][index as int]);
            assert(slot_in_tree(hashes, level as nat, index as nat));
            let outcome = self.register_preimage(level, index, chunks[i]);
            proof {
                assert(outcome is Ok);
                assert forall|k: int| 0 <= k < i + 1 implies slot_observed(
                    self.observed@,
                    (#[trigger] nodes[k]).0,
                    nodes[k].1,
                ) by {
                    if k < i {
                        lemma_observed_stays(before, self.observed@, nodes[k].0, nodes[k].1);
                    } else {
                        if outcome == Ok::<bool, BridgeError>(true) {
                            assert(self.observed@[before.len() as int].level == level);
                        }
                    }
                }
                assert(self.observed@.take(old(self).observed@.len() as int) =~= before.take(
                    old(self).observed@.len() as int,
                ));
            }
            i = i + 1;
        }
        Ok(())
    }
}

} // verus!
