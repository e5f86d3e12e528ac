use bitcoin::absolute::LockTime;
use bitcoin::transaction::Version;
use bitcoin::{Amount, ScriptBuf, Sequence, Witness};
use bitvm_bridge::errors::BridgeError;
use bitvm_bridge::taproot::{key_path_output_key, TaprootSpendInfo, INTERNAL_KEY};
use bitvm_bridge::transaction::{OutPoint, Transaction, TxIn, TxOut};
use bitvm_bridge::transaction_builder::TransactionBuilder;
use bitvm_bridge::utils::{create_control_block, handle_taproot_witness, parse_hex_to_btc_tx};

fn to_bitcoin(tx: &Transaction) -> bitcoin::Transaction {
    bitcoin::Transaction {
        version: Version(tx.version),
        lock_time: LockTime::from_consensus(tx.lock_time),
        input: tx
            .input
            .iter()
            .map(|input| bitcoin::TxIn {
                previous_output: bitcoin::OutPoint {
                    txid: bitcoin::hashes::Hash::from_byte_array(input.previous_output.txid),
                    vout: input.previous_output.vout,
                },
                script_sig: ScriptBuf::from_bytes(input.script_sig.clone()),
                sequence: Sequence(input.sequence),
                witness: Witness::from_slice(&input.witness),
            })
            .collect(),
        output: tx
            .output
            .iter()
            .map(|output| bitcoin::TxOut {
                value: Amount::from_sat(output.value),
                script_pubkey: ScriptBuf::from_bytes(output.script_pubkey.clone()),
            })
            .collect(),
    }
}

fn sample(inputs: usize, outputs: usize, witness_items: usize, script_len: usize) -> Transaction {
    Transaction {
        version: 2,
        lock_time: 7,
        input: (0..inputs)
            .map(|i| TxIn {
                previous_output: OutPoint { txid: [i as u8 + 1; 32], vout: i as u32 },
                script_sig: vec![i as u8; if i == 1 { 3 } else { 0 }],
                sequence: 0xffff_fffd - i as u32,
                witness: if i == 0 {
                    (0..witness_items).map(|w| vec![w as u8; w * 40]).collect()
                } else {
                    Vec::new()
                },
            })
            .collect(),
        output: (0..outputs)
            .map(|o| TxOut { value: 1000 + o as u64 * 0x1_0000_0001, script_pubkey: vec![0x51; script_len + o] })
            .collect(),
    }
}

fn compact(n: usize) -> Vec<u8> {
    if n < 0xfd {
        vec![n as u8]
    } else if n <= 0xffff {
        let mut bytes = vec![0xfd];
        bytes.extend_from_slice(&(n as u16).to_le_bytes());
        bytes
    } else {
        let mut bytes = vec![0xfe];
        bytes.extend_from_slice(&(n as u32).to_le_bytes());
        bytes
    }
}

fn expected_bytes(tx: &Transaction, with_witnesses: bool) -> Vec<u8> {
    let mut bytes = Vec::new();
    bytes.extend_from_slice(&tx.version.to_le_bytes());
    if with_witnesses {
        bytes.extend_from_slice(&[0x00, 0x01]);
    }
    bytes.extend(compact(tx.input.len()));
    for input in &tx.input {
        bytes.extend_from_slice(&input.previous_output.txid);
        bytes.extend_from_slice(&input.previous_output.vout.to_le_bytes());
        bytes.extend(compact(input.script_sig.len()));
        bytes.extend_from_slice(&input.script_sig);
        bytes.extend_from_slice(&input.sequence.to_le_bytes());
    }
    bytes.extend(compact(tx.output.len()));
    for output in &tx.output {
        bytes.extend_from_slice(&output.value.to_le_bytes());
        bytes.extend(compact(output.script_pubkey.len()));
        bytes.extend_from_slice(&output.script_pubkey);
    }
    if with_witnesses {
        for input in &tx.input {
            bytes.extend(compact(input.witness.len()));
            for item in &input.witness {
                bytes.extend(compact(item.len()));
                bytes.extend_from_slice(item);
            }
        }
    }
    bytes.extend_from_slice(&tx.lock_time.to_le_bytes());
    bytes
}

fn sha256_twice(bytes: &[u8]) -> [u8; 32] {
    let once: [u8; 32] = <sha2::Sha256 as sha2::Digest>::digest(bytes).into();
    <sha2::Sha256 as sha2::Digest>::digest(once).into()
}

#[test]
fn serialisation_is_the_wire_format() {
    for (inputs, outputs, witness_items, script_len) in
        [(1, 1, 0, 34), (2, 3, 0, 0), (1, 2, 3, 34), (3, 1, 8, 252), (1, 1, 2, 300), (1, 300, 1, 1), (253, 1, 0, 5), (0, 1, 0, 34), (0, 0, 0, 0)]
    {
        let tx = sample(inputs, outputs, witness_items, script_len);
        let segwit_form = witness_items > 0 || inputs == 0;
        assert_eq!(tx.serialize(), expected_bytes(&tx, segwit_form), "{} {} {}", inputs, outputs, witness_items);
        assert_eq!(tx.txid(), sha256_twice(&expected_bytes(&tx, false)));
        let reference = to_bitcoin(&tx);
        assert_eq!(tx.serialize(), bitcoin::consensus::serialize(&reference));
        let reference_id: [u8; 32] = bitcoin::hashes::Hash::to_byte_array(reference.txid());
        assert_eq!(tx.txid(), reference_id);
    }
    let plain = Transaction {
        version: 1,
        lock_time: 0x0102_0304,
        input: vec![TxIn { previous_output: OutPoint { txid: [0xab; 32], vout: 1 }, script_sig: vec![0x51], sequence: 0xffff_fffe, witness: Vec::new() }],
        output: vec![TxOut { value: 0x0102, script_pubkey: vec![0x6a] }],
    };
    let mut expected = vec![1, 0, 0, 0, 1];
    expected.extend_from_slice(&[0xab; 32]);
    expected.extend_from_slice(&[1, 0, 0, 0, 1, 0x51, 0xfe, 0xff, 0xff, 0xff]);
    expected.extend_from_slice(&[1, 2, 1, 0, 0, 0, 0, 0, 0, 1, 0x6a]);
    expected.extend_from_slice(&[4, 3, 2, 1]);
    assert_eq!(plain.serialize(), expected);
}

#[test]
fn witness_does_not_change_the_id() {
    let mut tx = sample(1, 1, 0, 34);
    let id = tx.txid();
    tx.input[0].witness = vec![vec![1, 2, 3]];
    assert_eq!(tx.txid(), id);
    tx.output[0].value += 1;
    assert_ne!(tx.txid(), id);
}

#[test]
fn hex_is_parsed_into_a_transaction() {
    let tx = sample(2, 2, 2, 34);
    let text = hex::encode(tx.serialize());
    let parsed = parse_hex_to_btc_tx(&text).unwrap();
    assert_eq!(parsed.version, tx.version);
    assert_eq!(parsed.lock_time, tx.lock_time);
    assert_eq!(parsed.input.len(), 2);
    assert_eq!(parsed.input[0].previous_output, tx.input[0].previous_output);
    assert_eq!(parsed.input[0].witness, tx.input[0].witness);
    assert_eq!(parsed.input[1].script_sig, tx.input[1].script_sig);
    assert_eq!(parsed.input[1].sequence, tx.input[1].sequence);
    assert_eq!(parsed.output[1].value, tx.output[1].value);
    assert_eq!(parsed.output[1].script_pubkey, tx.output[1].script_pubkey);
    assert_eq!(parsed.serialize(), tx.serialize());
    assert!(matches!(parse_hex_to_btc_tx("zz"), Err(BridgeError::ConsensusError)));
    assert!(matches!(parse_hex_to_btc_tx("0200"), Err(BridgeError::ConsensusError)));
    assert!(matches!(parse_hex_to_btc_tx("123"), Err(BridgeError::ConsensusError)));
    let upper: String = tx.serialize().iter().map(|byte| format!("{:02X}", byte)).collect();
    assert_ne!(upper, text);
    assert_eq!(parse_hex_to_btc_tx(&upper).unwrap().serialize(), tx.serialize());
    assert!(matches!(parse_hex_to_btc_tx(&format!("{}g0", text)), Err(BridgeError::ConsensusError)));
    assert!(matches!(parse_hex_to_btc_tx(&format!("\u{e9}{}", text)), Err(BridgeError::ConsensusError)));
    assert!(matches!(parse_hex_to_btc_tx(&text[1..]), Err(BridgeError::ConsensusError)));
    assert!(matches!(parse_hex_to_btc_tx(""), Err(BridgeError::ConsensusError)));
}

#[test]
fn builders_make_plain_transactions() {
    let utxos = vec![OutPoint { txid: [9; 32], vout: 1 }, OutPoint { txid: [8; 32], vout: 0 }];
    let plain = TransactionBuilder::create_tx_ins(&utxos);
    assert_eq!(plain.len(), 2);
    assert_eq!(plain[1].previous_output, utxos[1]);
    assert_eq!(plain[0].sequence, 0xffff_fffd);
    assert!(plain[0].witness.is_empty() && plain[0].script_sig.is_empty());
    let locked = TransactionBuilder::create_tx_ins_with_sequence(&utxos);
    assert_eq!(locked[0].sequence, 200);
    let outs = TransactionBuilder::create_tx_outs(&vec![(5, vec![1, 2]), (6, vec![])]);
    assert_eq!(outs[0].value, 5);
    assert_eq!(outs[0].script_pubkey, vec![1, 2]);
    assert_eq!(outs[1].value, 6);
    let tx = TransactionBuilder::create_btc_tx(plain, outs);
    assert_eq!(tx.version, 2);
    assert_eq!(tx.lock_time, 0);
    assert_eq!(TransactionBuilder::create_utxo([3; 32], 4), OutPoint { txid: [3; 32], vout: 4 });
}

#[test]
fn move_and_claim_transactions_pay_what_they_should() {
    let deposit = OutPoint { txid: [1; 32], vout: 0 };
    let bridge = vec![0x51, 0x20, 7, 7];
    let move_tx = TransactionBuilder::create_move_tx(deposit, &bridge);
    assert_eq!(move_tx.input.len(), 1);
    assert_eq!(move_tx.input[0].previous_output, deposit);
    assert_eq!(move_tx.output.len(), 2);
    assert_eq!(move_tx.output[0].value, 100_000_000 - 1000 - 400);
    assert_eq!(move_tx.output[0].script_pubkey, bridge);
    assert_eq!(move_tx.output[1].value, 1000);
    assert_eq!(move_tx.output[1].script_pubkey.len(), 34);
    let fund = OutPoint { txid: [2; 32], vout: 0 };
    let connector = OutPoint { txid: [3; 32], vout: 1 };
    let claim = TransactionBuilder::create_claim_tx(fund, connector, &vec![9, 9]);
    assert_eq!(claim.input.len(), 2);
    assert_eq!(claim.input[0].previous_output, fund);
    assert_eq!(claim.input[0].sequence, 0xffff_fffd);
    assert_eq!(claim.input[1].previous_output, connector);
    assert_eq!(claim.input[1].sequence, 200);
    assert_eq!(claim.output.len(), 1);
    assert_eq!(claim.output[0].value, 100_000_000 + 1000 - 800);
    assert_eq!(claim.output[0].script_pubkey, vec![9, 9]);
}

#[test]
fn connector_spend_splits_the_parent() {
    let parent = OutPoint { txid: [4; 32], vout: 0 };
    let tx = TransactionBuilder::create_connector_tree_tx(&parent, 11200, &vec![1], &vec![2]);
    assert_eq!(tx.input.len(), 1);
    assert_eq!(tx.input[0].previous_output, parent);
    assert_eq!(tx.output.len(), 2);
    assert_eq!(tx.output[0].value, 5400);
    assert_eq!(tx.output[1].value, 5400);
    assert_eq!(tx.output[0].value + tx.output[1].value, 11200 - 400);
    assert_eq!(tx.output[0].script_pubkey, vec![1]);
    assert_eq!(tx.output[1].script_pubkey, vec![2]);
    let odd = TransactionBuilder::create_connector_tree_tx(&parent, 401, &vec![1], &vec![2]);
    assert_eq!(odd.output[0].value, 0);
}

#[test]
fn taproot_addresses_agree_with_bitcoin() {
    let secp = bitcoin::secp256k1::Secp256k1::new();
    let internal = bitcoin::secp256k1::XOnlyPublicKey::from_slice(&INTERNAL_KEY).unwrap();
    let first = vec![0x51u8];
    let second = vec![0x52u8, 0x87];
    let (address, info) = TransactionBuilder::create_taproot_address(vec![first.clone(), second.clone()]).unwrap();
    let reference = bitcoin::taproot::TaprootBuilder::new()
        .add_leaf(1, ScriptBuf::from_bytes(first.clone()))
        .unwrap()
        .add_leaf(1, ScriptBuf::from_bytes(second.clone()))
        .unwrap()
        .finalize(&secp, internal)
        .unwrap();
    let expected = bitcoin::Address::p2tr(&secp, internal, reference.merkle_root(), bitcoin::Network::Regtest);
    assert_eq!(address, expected.script_pubkey().into_bytes());
    assert_eq!(info.output_key, reference.output_key().serialize());
    assert_ne!(info.output_key, INTERNAL_KEY);
    let block = create_control_block(&info, &second).unwrap();
    let expected_block = reference
        .control_block(&(ScriptBuf::from_bytes(second.clone()), bitcoin::taproot::LeafVersion::TapScript))
        .unwrap();
    assert_eq!(block, expected_block.serialize());
    assert_eq!(block.len(), 65);
    assert!(matches!(create_control_block(&info, &vec![0x53]), Err(BridgeError::WitnessAssemblyError)));
    let (single, single_info) = TransactionBuilder::create_taproot_address(vec![first.clone()]).unwrap();
    let one_leaf = bitcoin::taproot::TaprootBuilder::new()
        .add_leaf(0, ScriptBuf::from_bytes(first.clone()))
        .unwrap()
        .finalize(&secp, internal)
        .unwrap();
    assert_eq!(single[2..], one_leaf.output_key().serialize());
    assert_eq!(create_control_block(&single_info, &first).unwrap().len(), 33);
    assert!(matches!(TransactionBuilder::create_taproot_address(Vec::new()), Err(BridgeError::ScriptBuildError)));
    assert!(matches!(TaprootSpendInfo::new([0xff; 32], vec![first]), Err(BridgeError::ScriptBuildError)));
    let key_path = key_path_output_key(&INTERNAL_KEY).unwrap();
    let expected_key = bitcoin::Address::p2tr(&secp, internal, None, bitcoin::Network::Regtest);
    assert_eq!(key_path[..], expected_key.script_pubkey().as_bytes()[2..]);
    assert!(key_path_output_key(&[0xff; 32]).is_err());
}

#[test]
fn witness_is_completed_with_script_and_control_block() {
    let script = vec![0x51u8];
    let (_, info) = TransactionBuilder::create_taproot_address(vec![script.clone()]).unwrap();
    let mut tx = sample(2, 1, 0, 34);
    let elements = vec![vec![1u8, 2], vec![3u8]];
    handle_taproot_witness(&mut tx, 1, &elements, &script, &info).unwrap();
    assert!(tx.input[0].witness.is_empty());
    assert_eq!(tx.input[1].witness.len(), 4);
    assert_eq!(tx.input[1].witness[0], vec![1, 2]);
    assert_eq!(tx.input[1].witness[1], vec![3]);
    assert_eq!(tx.input[1].witness[2], script);
    assert_eq!(tx.input[1].witness[3], create_control_block(&info, &script).unwrap());
    let before = tx.serialize();
    assert!(matches!(handle_taproot_witness(&mut tx, 2, &elements, &script, &info), Err(BridgeError::WitnessAssemblyError)));
    assert!(matches!(handle_taproot_witness(&mut tx, 0, &elements, &vec![0x52], &info), Err(BridgeError::WitnessAssemblyError)));
    assert_eq!(tx.serialize(), before);
}
