use bitcoin::sighash::{Prevouts, SighashCache, TapSighashType};
use bitcoin::taproot::{ControlBlock, LeafVersion, TapLeafHash};
use bitcoin::{Amount, ScriptBuf, Sequence, Witness};
use bitvm_bridge::actor::{script_spend_signature_hash, signs_script_spend, Actor};
use bitvm_bridge::errors::BridgeError;
use bitvm_bridge::federation::{new_federation, Verifier};
use bitvm_bridge::hash::hash_32;
use bitvm_bridge::operator::{
    build_claim_witness_elements, build_move_witness_elements, check_deposit,
    create_connector_tree_preimages_and_hashes, floor_log2, hash_connector_tree_preimages,
    DepositPresigns, Operator,
};
use bitvm_bridge::script_builder::{read_inscription, ScriptBuilder};
use bitvm_bridge::script_interpreter::accepts_if_all_signatures_are_valid;
use bitvm_bridge::taproot::key_path_output_key;
use bitvm_bridge::transaction::{OutPoint, Transaction, TxIn, TxOut};
use bitvm_bridge::transaction_builder::TransactionBuilder;
use secp256k1::rand::rngs::OsRng;
use secp256k1::{Message, Secp256k1, XOnlyPublicKey};

const BRIDGE: u64 = 100_000_000;
const DEPTH: usize = 3;

fn to_bitcoin(tx: &Transaction) -> bitcoin::Transaction {
    bitcoin::Transaction {
        version: bitcoin::transaction::Version(tx.version),
        lock_time: bitcoin::absolute::LockTime::from_consensus(tx.lock_time),
        input: tx
            .input
            .iter()
            .map(|input| bitcoin::TxIn {
                previous_output: bitcoin::OutPoint {
                    txid: bitcoin::hashes::Hash::from_byte_array(input.previous_output.txid),
                    vout: input.previous_output.vout,
                },
                script_sig: ScriptBuf::from_bytes(input.script_sig.clone()),
                sequence: Sequence(input.sequence),
                witness: Witness::from_slice(&input.witness),
            })
            .collect(),
        output: tx.output.iter().map(to_bitcoin_out).collect(),
    }
}

fn to_bitcoin_out(output: &TxOut) -> bitcoin::TxOut {
    bitcoin::TxOut {
        value: Amount::from_sat(output.value),
        script_pubkey: ScriptBuf::from_bytes(output.script_pubkey.clone()),
    }
}

fn signed_by(signature: &[u8], key: &[u8; 32], tx: &Transaction, prevouts: &[TxOut], script: Option<&[u8]>, index: usize) -> bool {
    let secp = Secp256k1::verification_only();
    let reference = to_bitcoin(tx);
    let spent: Vec<bitcoin::TxOut> = prevouts.iter().map(to_bitcoin_out).collect();
    let mut cache = SighashCache::new(&reference);
    let digest: [u8; 32] = match script {
        Some(script) => bitcoin::hashes::Hash::to_byte_array(
            cache
                .taproot_script_spend_signature_hash(
                    index,
                    &Prevouts::All(&spent),
                    TapLeafHash::from_script(bitcoin::Script::from_bytes(script), LeafVersion::TapScript),
                    TapSighashType::Default,
                )
                .unwrap(),
        ),
        None => bitcoin::hashes::Hash::to_byte_array(
            cache
                .taproot_key_spend_signature_hash(index, &Prevouts::All(&spent), TapSighashType::Default)
                .unwrap(),
        ),
    };
    let signature = match secp256k1::schnorr::Signature::from_slice(signature) {
        Ok(signature) => signature,
        Err(_) => return false,
    };
    let key = XOnlyPublicKey::from_slice(key).unwrap();
    secp.verify_schnorr(&signature, &Message::from_digest(digest), &key).is_ok()
}

fn opens(control_block: &[u8], script: &[u8], script_pubkey: &[u8]) -> bool {
    let secp = Secp256k1::verification_only();
    let block = ControlBlock::decode(control_block).unwrap();
    let key = XOnlyPublicKey::from_slice(&script_pubkey[2..]).unwrap();
    script_pubkey[..2] == [0x51, 0x20] && block.verify_taproot_commitment(&secp, key, bitcoin::Script::from_bytes(script))
}

struct Bridge {
    operator: Operator,
    verifiers: Vec<Verifier>,
    all_keys: Vec<[u8; 32]>,
    root_tx: Transaction,
}

fn bridge(verifier_count: usize) -> Bridge {
    let mut rng = OsRng;
    let (mut operator, mut verifiers) = new_federation(&mut rng, verifier_count).unwrap();
    assert_eq!(verifiers.len(), verifier_count);
    let all_keys = operator.get_all_verifiers();
    for (place, verifier) in verifiers.iter().enumerate() {
        assert_eq!(operator.verifiers_pks[place], verifier.signer.xonly_public_key());
        assert_eq!(verifier.operator_pk, operator.signer.xonly_public_key());
        assert_eq!(verifier.transaction_builder.script_builder.verifiers_pks, all_keys);
    }
    let (root_address, amount) = operator.connector_root_funding().unwrap();
    let root_tx = Transaction {
        version: 2,
        lock_time: 0,
        input: vec![TxIn { previous_output: OutPoint { txid: [0xee; 32], vout: 3 }, script_sig: Vec::new(), sequence: 0xffff_fffd, witness: Vec::new() }],
        output: vec![TxOut { value: amount, script_pubkey: root_address }],
    };
    let root_utxo = OutPoint { txid: root_tx.txid(), vout: 0 };
    assert_eq!(operator.create_connector_root(root_utxo), Ok(root_utxo));
    for verifier in verifiers.iter_mut() {
        verifier.connector_root_utxo_created(operator.connector_tree_hashes.clone(), root_utxo).unwrap();
        assert_eq!(verifier.connector_tree_utxos, operator.connector_tree_utxos);
    }
    Bridge { operator, verifiers, all_keys, root_tx }
}

struct Deposit {
    start_utxo: OutPoint,
    hash: [u8; 32],
    preimage: [u8; 32],
    return_key: [u8; 32],
    deposit_tx: Transaction,
    deposit_utxo: OutPoint,
    presigns: Vec<DepositPresigns>,
    deposit_address: Vec<u8>,
}

fn deposit(bridge: &mut Bridge, number: u32) -> Deposit {
    let mut rng = OsRng;
    let start_utxo = OutPoint { txid: [number as u8 + 1; 32], vout: number };
    let preimage = bridge.operator.current_preimage_for_deposit_requests;
    let hash = hash_32(&preimage);
    let user = Actor::new(&mut rng).unwrap();
    let return_key = user.xonly_public_key();
    let evm_address = user.evm_address();
    let operator_address = bridge.operator.signer.address();
    let all_keys = bridge.all_keys.clone();
    let presigns: Vec<DepositPresigns> = bridge
        .verifiers
        .iter_mut()
        .map(|verifier| {
            verifier
                .new_deposit(start_utxo, BRIDGE, number, hash, return_key, evm_address, &all_keys, &operator_address)
                .unwrap()
        })
        .collect();
    let signs = bridge
        .operator
        .new_deposit(start_utxo, number, hash, return_key, evm_address, presigns.clone())
        .unwrap();
    assert_eq!(signs.len(), presigns.len() + 1);
    for (sign, presign) in signs.iter().zip(presigns.iter()) {
        assert_eq!(sign, &presign.rollup_sign);
    }
    let (deposit_address, _) = bridge.operator.transaction_builder.generate_deposit_address(&return_key, &hash).unwrap();
    let deposit_tx = Transaction {
        version: 2,
        lock_time: 0,
        input: vec![TxIn { previous_output: start_utxo, script_sig: Vec::new(), sequence: 0xffff_fffd, witness: Vec::new() }],
        output: vec![TxOut { value: BRIDGE, script_pubkey: deposit_address.clone() }],
    };
    let deposit_utxo = OutPoint { txid: deposit_tx.txid(), vout: 0 };
    assert_eq!(bridge.operator.deposit_presigns.last().unwrap().0, deposit_utxo.txid);
    Deposit { start_utxo, hash, preimage, return_key, deposit_tx, deposit_utxo, presigns, deposit_address }
}

#[test]
fn operator_commits_to_its_connector_preimages() {
    let built = bridge(2);
    let operator = &built.operator;
    assert_eq!(operator.connector_tree_preimages.len(), DEPTH + 1);
    assert_eq!(operator.connector_tree_hashes.len(), DEPTH + 1);
    for level in 0..=DEPTH {
        assert_eq!(operator.connector_tree_preimages[level].len(), 1 << level);
        for index in 0..(1 << level) {
            assert_eq!(operator.connector_tree_hashes[level][index], hash_32(&operator.connector_tree_preimages[level][index]));
        }
    }
    assert_ne!(operator.connector_tree_preimages[1][0], operator.connector_tree_preimages[1][1]);
    assert_eq!(built.all_keys.len(), 3);
    assert_eq!(built.all_keys[2], operator.signer.xonly_public_key());
    assert_eq!(operator.verifiers_pks, built.all_keys[..2]);
    assert_eq!(operator.script_builder.verifiers_pks, built.all_keys);
    let mut rng = OsRng;
    let (preimages, hashes) = create_connector_tree_preimages_and_hashes(2, &mut rng);
    assert_eq!(preimages.len(), 3);
    assert_eq!(hashes[2].len(), 4);
    assert_eq!(hashes, hash_connector_tree_preimages(&preimages));
    assert_eq!(hashes[2][3], hash_32(&preimages[2][3]));
    assert_eq!(Operator::connector_leaf_value(), 1050);
}

#[test]
fn actor_addresses_belong_to_its_key() {
    let secret = [0x42u8; 32];
    let actor = Actor::from_secret_key(secret).unwrap();
    let secp = Secp256k1::new();
    let keypair = secp256k1::Keypair::from_seckey_slice(&secp, &secret).unwrap();
    let (xonly, _) = keypair.x_only_public_key();
    assert_eq!(actor.xonly_public_key(), xonly.serialize());
    let address = bitcoin::Address::p2tr(&secp, xonly, None, bitcoin::Network::Regtest);
    assert_eq!(actor.address(), address.script_pubkey().into_bytes());
    let public = keypair.public_key().serialize_uncompressed();
    let digest: [u8; 32] = <sha3::Keccak256 as sha3::Digest>::digest(&public[1..]).into();
    assert_eq!(actor.evm_address(), digest[12..]);
    assert!(Actor::from_secret_key([0u8; 32]).is_none());
    assert!(Actor::from_secret_key([0xff; 32]).is_none());
}

#[test]
fn fresh_parties_always_exist() {
    let mut rng = OsRng;
    for _ in 0..16 {
        let actor = Actor::new(&mut rng).unwrap();
        let key = actor.xonly_public_key();
        assert!(XOnlyPublicKey::from_slice(&key).is_ok());
        let output_key = key_path_output_key(&key).unwrap();
        assert_eq!(actor.address()[..2], [0x51, 0x20]);
        assert_eq!(actor.address()[2..], output_key);
    }
    assert_eq!(key_path_output_key(&[0xff; 32]), Err(BridgeError::ScriptBuildError));
    assert!(XOnlyPublicKey::from_slice(&[0xff; 32]).is_err());

    let verifier = Verifier::new(&mut rng, [3; 32]).unwrap();
    assert_eq!(verifier.operator_pk, [3; 32]);
    assert!(verifier.transaction_builder.script_builder.verifiers_pks.is_empty());
    assert!(verifier.connector_tree_utxos.is_empty());
    assert!(verifier.connector_tree_hashes.is_empty());
    assert!(verifier.presigned.is_empty());
    assert!(verifier.observed.is_empty());

    let keys = vec![[5u8; 32], [6u8; 32]];
    let operator = Operator::new(&mut rng, keys.clone()).unwrap();
    assert_eq!(operator.verifiers_pks, keys);
    let mut all = keys.clone();
    all.push(operator.signer.xonly_public_key());
    assert_eq!(operator.get_all_verifiers(), all);
    assert_eq!(operator.script_builder.verifiers_pks, all);
    assert_eq!(operator.transaction_builder.script_builder.verifiers_pks, all);
    assert!(operator.verifier_evm_addresses.is_empty());
    assert!(operator.preimages.is_empty());
    assert!(operator.deposit_presigns.is_empty());
    assert!(operator.withdrawals_payment_txids.is_empty());
    assert!(operator.connector_tree_utxos.is_empty());
    assert!(operator.deposit_utxos.is_empty());
    assert!(operator.move_utxos.is_empty());
    assert_eq!(operator.deposit_merkle_tree.index(), 0);
    assert_eq!(operator.withdrawals_merkle_tree.index(), 0);
    assert_eq!(operator.deposit_merkle_tree.depth(), 32);
    assert_eq!(operator.connector_tree_hashes, hash_connector_tree_preimages(&operator.connector_tree_preimages));
}

#[test]
fn verifier_is_told_its_operator() {
    let mut built = bridge(1);
    let verifier = &mut built.verifiers[0];
    let key = verifier.signer.xonly_public_key();
    let signers = verifier.transaction_builder.script_builder.verifiers_pks.clone();
    assert!(!verifier.connector_tree_utxos.is_empty());
    verifier.presigned.push(OutPoint { txid: [1; 32], vout: 0 });
    verifier.set_operator([0x44; 32]);
    assert_eq!(verifier.operator_pk, [0x44; 32]);
    assert_eq!(verifier.signer.xonly_public_key(), key);
    assert_eq!(verifier.transaction_builder.script_builder.verifiers_pks, signers);
    assert!(verifier.connector_tree_utxos.is_empty());
    assert!(verifier.connector_tree_hashes.is_empty());
    assert!(verifier.observed.is_empty());
    assert_eq!(verifier.presigned.len(), 1);
    verifier.set_verifiers(vec![[7; 32], key]);
    assert_eq!(verifier.transaction_builder.script_builder.verifiers_pks, vec![[7; 32], key]);
    assert_eq!(verifier.operator_pk, [0x44; 32]);
    let (_, none) = new_federation(&mut OsRng, 0).unwrap();
    assert!(none.is_empty());
}

#[test]
fn preimage_for_the_next_deposit_is_replaced() {
    let mut built = bridge(1);
    let hashes = built.operator.connector_tree_hashes.clone();
    let keys = built.operator.get_all_verifiers();
    built.operator.set_preimage_for_deposit_requests([9; 32]);
    assert_eq!(built.operator.current_preimage_for_deposit_requests, [9; 32]);
    built.operator.change_preimage_for_deposit_requests(&mut OsRng);
    assert_ne!(built.operator.current_preimage_for_deposit_requests, [9; 32]);
    assert_eq!(built.operator.connector_tree_hashes, hashes);
    assert_eq!(built.operator.get_all_verifiers(), keys);
    assert!(built.operator.deposit_utxos.is_empty());
}

#[test]
fn rollup_signature_recovers_the_signer() {
    let actor = Actor::from_secret_key([0x17u8; 32]).unwrap();
    let txid = [1u8; 32];
    let evm = [2u8; 20];
    let hash = [3u8; 32];
    let signature = actor.sign_deposit(&txid, &evm, &hash);
    assert!(signature[64] == 27 || signature[64] == 28);
    let mut message = Vec::new();
    message.extend_from_slice(&txid);
    message.extend_from_slice(&evm);
    message.extend_from_slice(&hash);
    let digest: [u8; 32] = <sha3::Keccak256 as sha3::Digest>::digest(&message).into();
    let secp = Secp256k1::new();
    let id = secp256k1::ecdsa::RecoveryId::from_i32(signature[64] as i32 - 27).unwrap();
    let recoverable = secp256k1::ecdsa::RecoverableSignature::from_compact(&signature[..64], id).unwrap();
    let recovered = secp.recover_ecdsa(&Message::from_digest(digest), &recoverable).unwrap();
    let address: [u8; 32] = <sha3::Keccak256 as sha3::Digest>::digest(&recovered.serialize_uncompressed()[1..]).into();
    assert_eq!(actor.evm_address(), address[12..]);
    assert_eq!(actor.sign_deposit(&txid, &evm, &hash), signature);
    assert_ne!(actor.sign_deposit(&txid, &evm, &[4u8; 32]), signature);
}

#[test]
fn deposit_requests_need_one_presign_per_verifier() {
    let mut built = bridge(2);
    let start = OutPoint { txid: [5; 32], vout: 0 };
    let hash = hash_32(&built.operator.current_preimage_for_deposit_requests);
    let recorded = built.operator.deposit_presigns.len();
    assert_eq!(built.operator.new_deposit(start, 0, hash, [6; 32], [7; 20], Vec::new()), Err(BridgeError::PresignMissing));
    let one = DepositPresigns { rollup_sign: [1; 65], move_sign: [2; 64], operator_claim_sign: [3; 64] };
    assert_eq!(built.operator.new_deposit(start, 0, hash, [6; 32], [7; 20], vec![one]), Err(BridgeError::PresignMalformed));
    assert_eq!(built.operator.new_deposit(start, 0, hash, [6; 32], [7; 20], vec![one, one, one]), Err(BridgeError::PresignMalformed));
    assert_eq!(built.operator.deposit_presigns.len(), recorded);
    let signs = built.operator.new_deposit(start, 0, hash, [6; 32], [7; 20], vec![one, one]).unwrap();
    assert_eq!(signs.len(), 3);
    assert_eq!(signs[0], [1; 65]);
    assert_eq!(built.operator.deposit_presigns.len(), recorded + 1);
}

#[test]
fn verifier_presigns_each_start_outpoint_once() {
    let mut built = bridge(1);
    let all_keys = built.all_keys.clone();
    let operator_address = built.operator.signer.address();
    let start = OutPoint { txid: [5; 32], vout: 0 };
    let verifier = &mut built.verifiers[0];
    let hash = [9u8; 32];
    assert_eq!(verifier.new_deposit(start, BRIDGE - 1, 0, hash, [6; 32], [7; 20], &all_keys, &operator_address).err(), Some(BridgeError::InvalidDeposit));
    let mut others = all_keys.clone();
    others.swap(0, 1);
    assert_eq!(verifier.new_deposit(start, BRIDGE, 0, hash, [6; 32], [7; 20], &others, &operator_address).err(), Some(BridgeError::InvalidDeposit));
    assert_eq!(verifier.new_deposit(start, BRIDGE, 8, hash, [6; 32], [7; 20], &all_keys, &operator_address).err(), Some(BridgeError::TreeIndexOutOfRange));
    assert!(verifier.presigned.is_empty());
    assert!(!verifier.has_presigned(&start));
    let presigns = verifier.new_deposit(start, BRIDGE, 7, hash, [6; 32], [7; 20], &all_keys, &operator_address).unwrap();
    assert_eq!(verifier.presigned, vec![start]);
    assert!(verifier.has_presigned(&start));
    assert_ne!(presigns.move_sign, presigns.operator_claim_sign);
    assert_eq!(verifier.new_deposit(start, BRIDGE, 7, hash, [6; 32], [7; 20], &all_keys, &operator_address).err(), Some(BridgeError::InvalidDeposit));
    assert_eq!(verifier.presigned.len(), 1);
}

#[test]
fn deposit_is_checked_against_the_announcement() {
    let mut built = bridge(1);
    let made = deposit(&mut built, 0);
    assert_eq!(check_deposit(&made.deposit_tx, made.start_utxo, made.deposit_utxo, &made.deposit_address), Ok(()));
    let other_start = OutPoint { txid: [0x77; 32], vout: 0 };
    assert_eq!(check_deposit(&made.deposit_tx, other_start, made.deposit_utxo, &made.deposit_address), Err(BridgeError::InvalidDeposit));
    let other_output = OutPoint { txid: made.deposit_utxo.txid, vout: 1 };
    assert_eq!(check_deposit(&made.deposit_tx, made.start_utxo, other_output, &made.deposit_address), Err(BridgeError::InvalidDeposit));
    let other_tx = OutPoint { txid: [1; 32], vout: 0 };
    assert_eq!(check_deposit(&made.deposit_tx, made.start_utxo, other_tx, &made.deposit_address), Err(BridgeError::InvalidDeposit));
    assert_eq!(check_deposit(&made.deposit_tx, made.start_utxo, made.deposit_utxo, &vec![0x51]), Err(BridgeError::InvalidDeposit));
    let mut cheap = made.deposit_tx.clone();
    cheap.output[0].value -= 1;
    let cheap_utxo = OutPoint { txid: cheap.txid(), vout: 0 };
    assert_eq!(check_deposit(&cheap, made.start_utxo, cheap_utxo, &made.deposit_address), Err(BridgeError::InvalidDeposit));
    let no_inputs = Transaction { version: 2, lock_time: 0, input: Vec::new(), output: Vec::new() };
    assert_eq!(check_deposit(&no_inputs, made.start_utxo, made.deposit_utxo, &made.deposit_address), Err(BridgeError::InvalidDeposit));
}

#[test]
fn move_transaction_is_accepted_by_its_script() {
    let mut built = bridge(3);
    let made = deposit(&mut built, 0);
    let leaves_before = built.operator.deposit_merkle_tree.index();
    let (move_tx, move_utxo) = built
        .operator
        .deposit_happened(&mut OsRng, made.start_utxo, made.hash, made.deposit_utxo, made.return_key, &made.deposit_tx)
        .unwrap();
    assert_eq!(built.operator.deposit_merkle_tree.index(), leaves_before + 1);
    assert_ne!(built.operator.current_preimage_for_deposit_requests, made.preimage);
    assert_eq!(built.operator.deposit_utxos, vec![made.deposit_utxo]);
    assert_eq!(built.operator.move_utxos, vec![move_utxo]);
    assert_eq!(move_utxo, OutPoint { txid: move_tx.txid(), vout: 0 });
    assert_eq!(move_tx.input.len(), 1);
    assert_eq!(move_tx.input[0].previous_output, made.deposit_utxo);
    assert_eq!(move_tx.output.len(), 2);
    assert_eq!(move_tx.output[0].value, BRIDGE - 1000 - 400);
    assert_eq!(move_tx.output[1].value, 1000);
    let (bridge_address, _) = built.operator.transaction_builder.generate_bridge_address().unwrap();
    assert_eq!(move_tx.output[0].script_pubkey, bridge_address);

    let witness = &move_tx.input[0].witness;
    assert_eq!(witness.len(), 4 + 1 + 2);
    let script = &witness[witness.len() - 2];
    let control_block = &witness[witness.len() - 1];
    assert_eq!(script, &built.operator.script_builder.generate_script_n_of_n_with_hash(&made.hash));
    assert!(opens(control_block, script, &made.deposit_address));
    let stack = witness[..witness.len() - 2].to_vec();
    assert_eq!(stack[4], made.preimage.to_vec());
    assert!(accepts_if_all_signatures_are_valid(script, &stack));
    let mut unsigned = move_tx.clone();
    unsigned.input[0].witness.clear();
    let prevouts = vec![TxOut { value: BRIDGE, script_pubkey: made.deposit_address.clone() }];
    for (place, key) in built.all_keys.iter().enumerate() {
        let signature = &stack[3 - place];
        assert!(signed_by(signature, key, &unsigned, &prevouts, Some(script), 0), "key {}", place);
        if place < 3 {
            assert_eq!(signature, &made.presigns[place].move_sign.to_vec());
        }
    }
    assert!(!signed_by(&stack[0], &built.all_keys[0], &unsigned, &prevouts, Some(script), 0));

    let mut swapped = stack.clone();
    swapped.swap(3, 4);
    assert!(!accepts_if_all_signatures_are_valid(script, &swapped));
    let mut wrong = stack.clone();
    wrong[4][0] ^= 1;
    assert!(!accepts_if_all_signatures_are_valid(script, &wrong));
    assert!(!accepts_if_all_signatures_are_valid(script, &stack[1..].to_vec()));
    let mut extra = stack.clone();
    extra.insert(0, vec![1]);
    assert!(!accepts_if_all_signatures_are_valid(script, &extra));
}

#[test]
fn presignatures_verify_under_their_verifier_only() {
    let mut built = bridge(2);
    let made = deposit(&mut built, 0);
    let (bridge_address, _) = built.operator.transaction_builder.generate_bridge_address().unwrap();
    let move_tx = TransactionBuilder::create_move_tx(made.deposit_utxo, &bridge_address);
    let prevouts = vec![TxOut { value: BRIDGE, script_pubkey: made.deposit_address.clone() }];
    let script = built.operator.script_builder.generate_script_n_of_n_with_hash(&made.hash);
    for (place, presign) in made.presigns.iter().enumerate() {
        let key = &built.all_keys[place];
        assert!(signs_script_spend(&presign.move_sign, key, &move_tx, &prevouts, &script, 0));
        assert!(signed_by(&presign.move_sign, key, &move_tx, &prevouts, Some(&script), 0));
        let other = &built.all_keys[(place + 1) % 3];
        assert!(!signs_script_spend(&presign.move_sign, other, &move_tx, &prevouts, &script, 0));
        assert!(!signs_script_spend(&presign.operator_claim_sign, key, &move_tx, &prevouts, &script, 0));
        let mut tampered = presign.move_sign;
        tampered[10] ^= 1;
        assert!(!signs_script_spend(&tampered, key, &move_tx, &prevouts, &script, 0));
        let plain = built.operator.script_builder.generate_script_n_of_n();
        assert!(!signs_script_spend(&presign.move_sign, key, &move_tx, &prevouts, &plain, 0));
    }
    assert!(!signs_script_spend(&made.presigns[0].move_sign, &[0u8; 32], &move_tx, &prevouts, &script, 0));
    assert!(!signs_script_spend(&made.presigns[0].move_sign, &built.all_keys[0], &move_tx, &prevouts, &script, 1));
    assert!(!signs_script_spend(&made.presigns[0].move_sign, &built.all_keys[0], &move_tx, &Vec::new(), &script, 0));
    assert_eq!(script_spend_signature_hash(&move_tx, &Vec::new(), &script, 0), None);
    assert_ne!(
        script_spend_signature_hash(&move_tx, &prevouts, &script, 1),
        script_spend_signature_hash(&move_tx, &prevouts, &script, 0)
    );
    let reference = to_bitcoin(&move_tx);
    let spent: Vec<bitcoin::TxOut> = prevouts.iter().map(to_bitcoin_out).collect();
    let expected = SighashCache::new(&reference)
        .taproot_script_spend_signature_hash(
            0,
            &Prevouts::All(&spent),
            TapLeafHash::from_script(bitcoin::Script::from_bytes(&script), LeafVersion::TapScript),
            TapSighashType::Default,
        )
        .unwrap();
    assert_eq!(
        script_spend_signature_hash(&move_tx, &prevouts, &script, 0),
        Some(bitcoin::hashes::Hash::to_byte_array(expected))
    );
}

#[test]
fn witness_elements_are_reversed() {
    let presigns = vec![
        DepositPresigns { rollup_sign: [0; 65], move_sign: [1; 64], operator_claim_sign: [11; 64] },
        DepositPresigns { rollup_sign: [0; 65], move_sign: [2; 64], operator_claim_sign: [12; 64] },
    ];
    let elements = build_move_witness_elements(&[9; 32], &presigns, &[3; 64]);
    assert_eq!(elements, vec![vec![3u8; 64], vec![2u8; 64], vec![1u8; 64], vec![9u8; 32]]);
    let claim = build_claim_witness_elements(&presigns, &[13; 64]);
    assert_eq!(claim, vec![vec![13u8; 64], vec![12u8; 64], vec![11u8; 64]]);
    assert_eq!(build_claim_witness_elements(&Vec::new(), &[13; 64]), vec![vec![13u8; 64]]);
    let builder = ScriptBuilder::new(vec![[0x21; 32], [0x22; 32], [0x23; 32]]);
    assert!(accepts_if_all_signatures_are_valid(&builder.generate_script_n_of_n(), &claim));
    assert!(!accepts_if_all_signatures_are_valid(&builder.generate_script_n_of_n(), &claim[1..].to_vec()));
    let hash = hash_32(&[9; 32]);
    assert!(accepts_if_all_signatures_are_valid(&builder.generate_script_n_of_n_with_hash(&hash), &elements));
    assert!(!accepts_if_all_signatures_are_valid(&builder.generate_script_n_of_n_with_hash(&[0; 32]), &elements));
    assert!(!accepts_if_all_signatures_are_valid(&[0xac], &claim));
    assert!(accepts_if_all_signatures_are_valid(&[0x51], &Vec::new()));
    assert!(!accepts_if_all_signatures_are_valid(&[], &Vec::new()));
    assert!(!accepts_if_all_signatures_are_valid(&[0x05, 1, 2], &Vec::new()));
}

#[test]
fn deposits_that_do_not_fit_are_refused() {
    let mut built = bridge(1);
    let made = deposit(&mut built, 0);
    let ledger = (built.operator.deposit_utxos.len(), built.operator.move_utxos.len(), built.operator.deposit_merkle_tree.index());
    assert_eq!(
        built.operator.deposit_happened(&mut OsRng, made.start_utxo, [0; 32], made.deposit_utxo, made.return_key, &made.deposit_tx).err(),
        Some(BridgeError::InvalidDeposit)
    );
    let other_start = OutPoint { txid: [0x77; 32], vout: 0 };
    assert_eq!(
        built.operator.deposit_happened(&mut OsRng, other_start, made.hash, made.deposit_utxo, made.return_key, &made.deposit_tx).err(),
        Some(BridgeError::InvalidDeposit)
    );
    assert_eq!(
        built.operator.deposit_happened(&mut OsRng, made.start_utxo, made.hash, made.deposit_utxo, [0x31; 32], &made.deposit_tx).err(),
        Some(BridgeError::InvalidDeposit)
    );
    built.operator.deposit_presigns.clear();
    assert_eq!(
        built.operator.deposit_happened(&mut OsRng, made.start_utxo, made.hash, made.deposit_utxo, made.return_key, &made.deposit_tx).err(),
        Some(BridgeError::PresignMissing)
    );
    assert_eq!(ledger, (built.operator.deposit_utxos.len(), built.operator.move_utxos.len(), built.operator.deposit_merkle_tree.index()));
    assert_eq!(built.operator.current_preimage_for_deposit_requests, made.preimage);
    assert_eq!(built.operator.claim_deposit(0).err(), Some(BridgeError::TreeIndexOutOfRange));
}

#[test]
fn connector_spend_yields_two_children_worth_the_parent_less_the_fee() {
    let built = bridge(2);
    let operator = &built.operator;
    let mut transactions: Vec<Vec<Transaction>> = vec![vec![built.root_tx.clone()]];
    for level in 0..DEPTH {
        let mut spends = Vec::new();
        for index in 0..(1usize << level) {
            let utxo = operator.connector_tree_utxos[level][index];
            let parent_tx = if level == 0 { &transactions[0][0] } else { &transactions[level][index / 2] };
            let preimage = operator.connector_tree_preimages[level][index];
            let tx = operator.spend_connector_tree_utxo(utxo, parent_tx, preimage, DEPTH).unwrap();
            let parent_value = parent_tx.output[utxo.vout as usize].value;
            assert_eq!(tx.input.len(), 1);
            assert_eq!(tx.input[0].previous_output, utxo);
            assert_eq!(tx.output.len(), 2);
            assert_eq!(tx.output[0].value + tx.output[1].value, parent_value - 400);
            assert_eq!(tx.output[0].value, tx.output[1].value);
            assert_eq!(operator.connector_tree_utxos[level + 1][2 * index], OutPoint { txid: tx.txid(), vout: 0 });
            assert_eq!(operator.connector_tree_utxos[level + 1][2 * index + 1], OutPoint { txid: tx.txid(), vout: 1 });
            let witness = &tx.input[0].witness;
            assert_eq!(witness.len(), 3);
            let script = ScriptBuilder::generate_timelock_script(&operator.signer.xonly_public_key(), 1);
            assert_eq!(witness[1], script);
            assert!(opens(&witness[2], &script, &parent_tx.output[utxo.vout as usize].script_pubkey));
            let mut unsigned = tx.clone();
            unsigned.input[0].witness.clear();
            let prevouts = vec![parent_tx.output[utxo.vout as usize].clone()];
            assert!(signed_by(&witness[0], &operator.signer.xonly_public_key(), &unsigned, &prevouts, Some(&script), 0));
            spends.push(tx);
        }
        transactions.push(spends);
    }
    let leaves: u64 = transactions[DEPTH].iter().map(|tx| tx.output[0].value + tx.output[1].value).sum();
    assert_eq!(leaves, 11200 - 7 * 400);
    assert_eq!(transactions[DEPTH][0].output[0].value, 1050);

    let root_utxo = operator.connector_tree_utxos[0][0];
    let wrong_preimage = operator.connector_tree_preimages[1][0];
    assert_eq!(operator.spend_connector_tree_utxo(root_utxo, &built.root_tx, wrong_preimage, DEPTH).err(), Some(BridgeError::ProtocolViolation));
    let leaf_utxo = operator.connector_tree_utxos[DEPTH][0];
    let leaf_preimage = operator.connector_tree_preimages[DEPTH][0];
    assert_eq!(operator.spend_connector_tree_utxo(leaf_utxo, &transactions[DEPTH][0], leaf_preimage, DEPTH).err(), Some(BridgeError::TreeIndexOutOfRange));
    assert_eq!(operator.spend_connector_tree_utxo(leaf_utxo, &built.root_tx, leaf_preimage, DEPTH).err(), Some(BridgeError::InvalidDeposit));
    let missing = OutPoint { txid: root_utxo.txid, vout: 1 };
    assert_eq!(operator.spend_connector_tree_utxo(missing, &built.root_tx, operator.connector_tree_preimages[0][0], DEPTH).err(), Some(BridgeError::TreeIndexOutOfRange));
    assert_eq!(operator.locate_connector_node(11200, &operator.connector_tree_preimages[0][0], DEPTH), Ok((0, 0)));
    assert_eq!(operator.locate_connector_node(5400, &operator.connector_tree_preimages[1][1], DEPTH), Ok((1, 1)));
    assert_eq!(operator.locate_connector_node(2500, &operator.connector_tree_preimages[2][3], DEPTH), Ok((2, 3)));
    assert_eq!(operator.locate_connector_node(1050, &operator.connector_tree_preimages[3][3], DEPTH), Err(BridgeError::TreeIndexOutOfRange));
    assert_eq!(operator.locate_connector_node(0, &[0; 32], DEPTH), Err(BridgeError::TreeIndexOutOfRange));
    for off in [11199u64, 11201, 5399, 5401, 5403, 2499, 2501, 6000, 1400 * 16, u64::MAX] {
        assert_eq!(
            operator.locate_connector_node(off, &operator.connector_tree_preimages[0][0], DEPTH),
            Err(BridgeError::TreeIndexOutOfRange),
            "{}",
            off
        );
    }
    assert_eq!(operator.locate_connector_node(1400 * 16, &operator.connector_tree_preimages[0][0], 4), Ok((0, 0)));
    assert_eq!(operator.locate_connector_node((1400 * 16 - 400) / 2, &operator.connector_tree_preimages[1][0], 4), Ok((1, 0)));
    let mut odd = built.root_tx.clone();
    odd.output[0].value += 1;
    let odd_utxo = OutPoint { txid: odd.txid(), vout: 0 };
    assert_eq!(
        operator.spend_connector_tree_utxo(odd_utxo, &odd, operator.connector_tree_preimages[0][0], DEPTH).err(),
        Some(BridgeError::TreeIndexOutOfRange)
    );
    assert_eq!(floor_log2(1), 0);
    assert_eq!(floor_log2(8), 3);
    assert_eq!(floor_log2(15), 3);
    assert_eq!(floor_log2(u64::MAX), 63);
}

#[test]
fn claim_spends_the_moved_deposit_and_the_connector_leaf() {
    let mut built = bridge(2);
    let made = deposit(&mut built, 0);
    let (move_tx, move_utxo) = built
        .operator
        .deposit_happened(&mut OsRng, made.start_utxo, made.hash, made.deposit_utxo, made.return_key, &made.deposit_tx)
        .unwrap();
    let operator = &built.operator;
    let claim = operator.claim_deposit(0).unwrap();
    assert_eq!(claim.input.len(), 2);
    assert_eq!(claim.input[0].previous_output, move_utxo);
    assert_eq!(claim.input[0].sequence, 0xffff_fffd);
    assert_eq!(claim.input[1].previous_output, operator.connector_tree_utxos[DEPTH][0]);
    assert_eq!(claim.input[1].sequence, 200);
    assert_eq!(claim.output.len(), 1);
    assert_eq!(claim.output[0].value, BRIDGE + 1000 - 800);
    assert_eq!(claim.output[0].script_pubkey, operator.signer.address());

    let public_key = operator.signer.xonly_public_key();
    let (leaf_address, _) = operator
        .transaction_builder
        .create_connector_tree_node_address(&public_key, &operator.connector_tree_hashes[DEPTH][0], 200)
        .unwrap();
    let prevouts = vec![
        move_tx.output[0].clone(),
        TxOut { value: 1050, script_pubkey: leaf_address.clone() },
    ];
    let mut unsigned = claim.clone();
    unsigned.input[0].witness.clear();
    unsigned.input[1].witness.clear();
    let fund_witness = &claim.input[0].witness;
    assert_eq!(fund_witness.len(), 3 + 2);
    let script = operator.script_builder.generate_script_n_of_n();
    assert_eq!(fund_witness[3], script);
    assert!(opens(&fund_witness[4], &script, &move_tx.output[0].script_pubkey));
    assert!(accepts_if_all_signatures_are_valid(&script, &fund_witness[..3].to_vec()));
    for (place, key) in built.all_keys.iter().enumerate() {
        assert!(signed_by(&fund_witness[2 - place], key, &unsigned, &prevouts, Some(&script), 0), "key {}", place);
    }
    assert_eq!(fund_witness[2], made.presigns[0].operator_claim_sign.to_vec());
    let leaf_witness = &claim.input[1].witness;
    assert_eq!(leaf_witness.len(), 3);
    let timelock = ScriptBuilder::generate_timelock_script(&public_key, 200);
    assert_eq!(leaf_witness[1], timelock);
    assert!(opens(&leaf_witness[2], &timelock, &leaf_address));
    assert!(signed_by(&leaf_witness[0], &public_key, &unsigned, &prevouts, Some(&timelock), 1));
    assert_eq!(operator.claim_deposit(1).err(), Some(BridgeError::TreeIndexOutOfRange));
    assert_eq!(operator.claim_deposit(8).err(), Some(BridgeError::TreeIndexOutOfRange));
}

#[test]
fn inscription_reveals_the_preimages_to_the_verifiers() {
    let mut built = bridge(1);
    let operator = &built.operator;
    let revealed = operator.reveal_connector_tree_preimages(3).unwrap();
    assert_eq!(revealed, vec![operator.connector_tree_preimages[3][3], operator.connector_tree_preimages[1][1]]);
    assert_eq!(operator.reveal_connector_tree_preimages(0), Ok(vec![operator.connector_tree_preimages[0][0]]));
    assert!(operator.reveal_connector_tree_preimages(8).unwrap().is_empty());
    assert_eq!(operator.reveal_connector_tree_preimages(9), Err(BridgeError::TreeIndexOutOfRange));
    assert_eq!(operator.inscribe_connector_tree_preimages(9, OutPoint { txid: [0x99; 32], vout: 2 }).err(), Some(BridgeError::TreeIndexOutOfRange));
    let source = OutPoint { txid: [0x99; 32], vout: 2 };
    let (commit, reveal) = operator.inscribe_connector_tree_preimages(3, source).unwrap();
    assert_eq!(commit.input[0].previous_output, source);
    assert_eq!(commit.output[0].value, 1000);
    assert_eq!(reveal.input[0].previous_output, OutPoint { txid: commit.txid(), vout: 0 });
    assert_eq!(reveal.output[0].value, 600);
    assert_eq!(reveal.output[0].script_pubkey, operator.signer.address());
    let public_key = operator.signer.xonly_public_key();
    let funding = vec![TxOut { value: 3000, script_pubkey: operator.signer.address() }];
    let mut unsigned_commit = commit.clone();
    unsigned_commit.input[0].witness.clear();
    assert_eq!(commit.input[0].witness.len(), 1);
    let tweaked = XOnlyPublicKey::from_slice(&operator.signer.address()[2..]).unwrap().serialize();
    assert!(signed_by(&commit.input[0].witness[0], &tweaked, &unsigned_commit, &funding, None, 0));
    assert!(!signed_by(&commit.input[0].witness[0], &public_key, &unsigned_commit, &funding, None, 0));

    let witness = reveal.input[0].witness.clone();
    assert_eq!(witness.len(), 3);
    let script = ScriptBuilder::create_inscription_script_32_bytes(&public_key, &revealed);
    assert_eq!(witness[1], script);
    assert!(opens(&witness[2], &script, &commit.output[0].script_pubkey));
    let mut unsigned_reveal = reveal.clone();
    unsigned_reveal.input[0].witness.clear();
    assert!(signed_by(&witness[0], &public_key, &unsigned_reveal, &commit.output, Some(&script), 0));
    let inscribed_data = witness[1][36..witness[1].len() - 1].to_vec();
    assert_eq!(inscribed_data.len(), 66);
    assert_eq!(inscribed_data[0], 0x20);
    assert_eq!(inscribed_data[1..33], revealed[0]);
    assert_eq!(read_inscription(&witness[1]), Some(revealed.clone()));
    assert_eq!(read_inscription(&witness[1][1..]), None);
    assert_eq!(read_inscription(&[]), None);
    let mut broken = witness[1].clone();
    broken[36] = 0x21;
    assert_eq!(read_inscription(&broken), None);

    let verifier = &mut built.verifiers[0];
    assert_eq!(verifier.register_revealed_preimages(2, &reveal), Err(BridgeError::ProtocolViolation));
    assert_eq!(verifier.register_revealed_preimages(5, &reveal), Err(BridgeError::ProtocolViolation));
    assert_eq!(verifier.register_revealed_preimages(9, &reveal), Err(BridgeError::TreeIndexOutOfRange));
    assert_eq!(verifier.register_revealed_preimages(3, &commit), Err(BridgeError::ProtocolViolation));
    assert!(verifier.observed.is_empty());
    assert_eq!(verifier.register_revealed_preimages(3, &reveal), Ok(()));
    assert_eq!(verifier.observed.len(), 2);
    assert_eq!(verifier.observed_preimage(3, 3), Some(revealed[0]));
    assert_eq!(verifier.observed_preimage(1, 1), Some(revealed[1]));
    assert_eq!(verifier.observed_preimage(1, 0), None);
    assert_eq!(verifier.register_revealed_preimages(3, &reveal), Ok(()));
    assert_eq!(verifier.observed.len(), 2);
}

#[test]
fn observed_preimages_only_grow_and_always_hash_to_their_slot() {
    let mut built = bridge(1);
    let preimages = built.operator.connector_tree_preimages.clone();
    let hashes = built.operator.connector_tree_hashes.clone();
    let verifier = &mut built.verifiers[0];
    assert_eq!(verifier.register_preimage(2, 1, preimages[2][1]), Ok(true));
    assert_eq!(verifier.register_preimage(2, 1, preimages[2][1]), Ok(false));
    assert_eq!(verifier.register_preimage(2, 2, preimages[2][1]), Err(BridgeError::ProtocolViolation));
    assert_eq!(verifier.register_preimage(4, 0, preimages[2][1]), Err(BridgeError::TreeIndexOutOfRange));
    assert_eq!(verifier.register_preimage(2, 4, preimages[2][1]), Err(BridgeError::TreeIndexOutOfRange));
    assert_eq!(verifier.register_preimage(0, 0, preimages[0][0]), Ok(true));
    assert_eq!(verifier.observed.len(), 2);
    for seen in &verifier.observed {
        assert_eq!(hash_32(&seen.preimage), hashes[seen.level][seen.index]);
    }
    assert_eq!(verifier.observed[0].preimage, preimages[2][1]);
    let utxo = verifier.connector_tree_utxos[1][1];
    assert_eq!(verifier.locate_utxo(&utxo), Some((1, 1)));
    assert_eq!(verifier.locate_utxo(&OutPoint { txid: [0; 32], vout: 0 }), None);
    let spend = |witness: Vec<Vec<u8>>| Transaction {
        version: 2,
        lock_time: 0,
        input: vec![TxIn { previous_output: utxo, script_sig: Vec::new(), sequence: 1, witness }],
        output: Vec::new(),
    };
    assert_eq!(verifier.observe_spend(&utxo, &spend(vec![vec![1; 64], vec![2], vec![3]])), Ok(false));
    assert_eq!(verifier.observe_spend(&utxo, &spend(vec![vec![2], vec![3]])), Ok(false));
    assert_eq!(verifier.observe_spend(&utxo, &spend(vec![vec![1; 64], preimages[1][0].to_vec(), vec![2], vec![3]])), Err(BridgeError::ProtocolViolation));
    assert_eq!(verifier.observed.len(), 2);
    assert_eq!(verifier.observe_spend(&utxo, &spend(vec![vec![1; 64], preimages[1][1].to_vec(), vec![2], vec![3]])), Ok(true));
    assert_eq!(verifier.observed.len(), 3);
    assert_eq!(verifier.observed_preimage(1, 1), Some(preimages[1][1]));
    let elsewhere = verifier.connector_tree_utxos[1][0];
    assert_eq!(verifier.observe_spend(&elsewhere, &spend(Vec::new())), Err(BridgeError::InvalidDeposit));
    assert_eq!(verifier.observe_spend(&OutPoint { txid: [0; 32], vout: 0 }, &spend(Vec::new())), Err(BridgeError::TreeIndexOutOfRange));
    let mut bad = hashes.clone();
    bad[2].pop();
    assert_eq!(verifier.connector_root_utxo_created(bad, utxo), Err(BridgeError::TreeIndexOutOfRange));
    assert_eq!(verifier.observed.len(), 3);
}

#[test]
fn withdrawals_are_added_to_their_tree() {
    let mut built = bridge(1);
    let address = built.verifiers[0].signer.address();
    assert_eq!(address.len(), 34);
    built.operator.new_withdrawal(&address).unwrap();
    assert_eq!(built.operator.withdrawals_merkle_tree.index(), 1);
    let mut key = [0u8; 32];
    key.copy_from_slice(&address[2..]);
    let mut expected = bitvm_bridge::merkle::IncrementalMerkleTree::new(32).unwrap();
    expected.add(key).unwrap();
    assert_eq!(built.operator.withdrawals_merkle_tree.root(), expected.root());
    built.operator.record_withdrawal_payment([4; 32]);
    assert_eq!(built.operator.withdrawals_payment_txids, vec![[4u8; 32]]);
    let before = built.operator.current_preimage_for_deposit_requests;
    built.operator.change_preimage_for_deposit_requests(&mut OsRng);
    assert_ne!(built.operator.current_preimage_for_deposit_requests, before);
    built.operator.add_deposit_utxo(OutPoint { txid: [1; 32], vout: 1 });
    assert_eq!(built.operator.deposit_utxos.len(), 1);
    built.operator.set_connector_tree_utxos(Vec::new());
    assert!(built.operator.connector_tree_utxos.is_empty());
    built.operator.period1_end();
    built.operator.period2_end();
    built.operator.period3_end();
    Operator::challenge_received();
}

#[test]
fn child_pays_for_a_stuck_parent() {
    let built = bridge(1);
    let operator = &built.operator;
    let parent = OutPoint { txid: [1; 32], vout: 1 };
    let resource = OutPoint { txid: [2; 32], vout: 0 };
    let child = operator.create_child_pays_for_parent(parent, resource).unwrap();
    assert_eq!(child.input.len(), 2);
    assert_eq!(child.input[0].previous_output, parent);
    assert_eq!(child.input[1].previous_output, resource);
    assert_eq!(child.input[0].witness, vec![vec![0x51u8]]);
    assert_eq!(child.output.len(), 2);
    assert_eq!(child.output[0].value, BRIDGE - 1400);
    assert_eq!(child.output[1].value, 1000);
    assert_eq!(child.output[1].script_pubkey, ScriptBuilder::anyone_can_spend_txout().script_pubkey);
    assert_eq!(child.input[1].witness.len(), 1);
    assert_eq!(child.input[1].witness[0].len(), 64);
    let mut unsigned = child.clone();
    unsigned.input[1].witness.clear();
    let prevouts = vec![
        TxOut { value: 1000, script_pubkey: ScriptBuilder::anyone_can_spend_txout().script_pubkey },
        TxOut { value: BRIDGE, script_pubkey: operator.signer.address() },
    ];
    let tweaked = XOnlyPublicKey::from_slice(&operator.signer.address()[2..]).unwrap().serialize();
    assert!(signed_by(&child.input[1].witness[0], &tweaked, &unsigned, &prevouts, None, 1));
    let (bridge_address, _) = TransactionBuilder::new(built.all_keys.clone()).generate_bridge_address().unwrap();
    assert_eq!(child.output[0].script_pubkey, bridge_address);
}

#[test]
fn test_connector_tree_tx() {
    let mut built = bridge(4);
    let total_amount = bitvm_bridge::utils::calculate_amount(DEPTH, 1000, 400);
    assert_eq!(built.root_tx.output[0].value, total_amount);
    let verifiers_pks = built.all_keys.clone();
    println!("verifiers_pks.len: {:?}", verifiers_pks.len());
    assert_eq!(verifiers_pks.len(), 5);
    let connector_root_utxo = built.operator.connector_tree_utxos[0][0];
    let flag = built.verifiers[0].locate_utxo(&connector_root_utxo).is_some();
    println!("flag: {:?}", flag);
    assert!(flag);

    let users = 4usize;
    let mut fund_utxos = Vec::new();
    let mut move_txs = Vec::new();
    for i in 0..users {
        let made = deposit(&mut built, i as u32);
        let (move_tx, fund) = built
            .operator
            .deposit_happened(&mut OsRng, made.start_utxo, made.hash, made.deposit_utxo, made.return_key, &made.deposit_tx)
            .unwrap();
        fund_utxos.push(fund);
        move_txs.push(move_tx);
        built.operator.change_preimage_for_deposit_requests(&mut OsRng);
    }
    assert_eq!(built.operator.deposit_merkle_tree.index(), users as u64);
    println!("utxos verifier track: {:?}", built.verifiers[0].connector_tree_utxos);
    println!("preimages verifier track: {:?}", built.verifiers[0].observed);

    let preimages = built.operator.reveal_connector_tree_preimages(3).unwrap();
    let source = OutPoint { txid: [0x99; 32], vout: 0 };
    let (commit_tx, inscription_tx) = built.operator.inscribe_connector_tree_preimages(3, source).unwrap();
    println!("preimages revealed: {:?}", preimages);
    println!("verifier reads inscription tx: {:?}", inscription_tx);
    println!("verifier reads commit tx: {:?}", commit_tx);
    let inscription_script_pubkey = &commit_tx.output[0].script_pubkey;
    let inscription_address_bytes: [u8; 32] = inscription_script_pubkey[2..].try_into().unwrap();
    println!("inscription address in bytes: {:?}", inscription_address_bytes);

    let witness_array = inscription_tx.input[0].witness.clone();
    println!("witness_array: {:?}", witness_array[1]);
    let inscribed_data = witness_array[1][36..witness_array[1].len() - 1].to_vec();
    println!("inscribed_data: {:?}", inscribed_data);
    println!("inscribed_data length: {:?}", inscribed_data.len());
    let mut verifier_got_preimages = Vec::new();
    for i in 0..(inscribed_data.len() / 33) {
        let preimage: [u8; 32] = inscribed_data[i * 33 + 1..(i + 1) * 33].try_into().unwrap();
        verifier_got_preimages.push(preimage);
    }
    println!("verifier_got_preimages: {:?}", verifier_got_preimages);
    assert_eq!(verifier_got_preimages, preimages);
    assert_eq!(built.verifiers[0].register_revealed_preimages(3, &inscription_tx), Ok(()));

    let (expected_address, _) = TransactionBuilder::create_taproot_address(vec![witness_array[1].clone()]).unwrap();
    let calculated_merkle_root = expected_address[2..].to_vec();
    println!("calculated_merkle_root: {:?}", calculated_merkle_root);
    let test_res = calculated_merkle_root == inscription_address_bytes;
    println!("test_res: {:?}", test_res);
    assert!(test_res);

    let mut spends: Vec<Vec<Transaction>> = vec![vec![built.root_tx.clone()]];
    for i in 0..built.operator.connector_tree_utxos.len() - 1 {
        let mut level = Vec::new();
        for j in 0..built.operator.connector_tree_utxos[i].len() {
            let utxo = built.operator.connector_tree_utxos[i][j];
            let preimage = built.operator.connector_tree_preimages[i][j];
            println!("preimage: {:?}", preimage);
            let parent = if i == 0 { &spends[0][0] } else { &spends[i][j / 2] };
            let spending = built.operator.spend_connector_tree_utxo(utxo, parent, preimage, DEPTH).unwrap();
            assert_eq!(built.verifiers[0].observe_spend(&utxo, &spending), Ok(false));
            level.push(spending);
        }
        spends.push(level);
    }
    println!("utxos verifier track: {:?}", built.verifiers[0].connector_tree_utxos);
    println!("preimages verifier track: {:?}", built.verifiers[0].observed);
    assert_eq!(built.verifiers[0].observed.len(), 2);

    for i in 0..users {
        let claim = built.operator.claim_deposit(i).unwrap();
        assert_eq!(claim.input[0].previous_output, fund_utxos[i]);
        assert_eq!(claim.input[1].previous_output, OutPoint { txid: spends[DEPTH][i / 2].txid(), vout: (i % 2) as u32 });
        assert_eq!(claim.input[0].previous_output.txid, move_txs[i].txid());
    }
}
