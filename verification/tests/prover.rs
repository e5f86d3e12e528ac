use bitvm_bridge::bridge::{
    bridge_proof, calculate_block_hash, prover_wins, read_and_verify_bitcoin_merkle_path,
    read_and_verify_lc_proof, read_and_verify_verifiers_challenge_proof,
    read_blocks_and_add_to_merkle_tree, read_blocks_and_calculate_work, read_merkle_tree_proof,
    read_preimages_and_calculate_commit_taproot, read_tx_and_calculate_txid,
    read_withdrawal_proof, validate_threshold_and_add_work, ProverParameters,
};
use bitvm_bridge::env::{BufferedEnvironment, Environment};
use bitvm_bridge::errors::BridgeError;
use bitvm_bridge::hash::{double_hash_pair, hash_32, hash_pair, sha256_hash};
use bitvm_bridge::merkle::{compute_path_root, IncrementalMerkleTree};
use bitvm_bridge::script_builder::ScriptBuilder;
use bitvm_bridge::transaction_builder::TransactionBuilder;
use bitvm_bridge::uint256::U256;

const BITS: u32 = 0x207fffff;

struct Header {
    version: i32,
    merkle_root: [u8; 32],
    time: u32,
    bits: u32,
    nonce: u32,
}

fn mine(prev: &[u8; 32], merkle_root: [u8; 32], time: u32) -> (Header, [u8; 32]) {
    let mut nonce = 0u32;
    loop {
        let hash = calculate_block_hash(2, prev, &merkle_root, time, BITS, nonce);
        if validate_threshold_and_add_work(BITS, &hash, &U256::zero()).is_ok() {
            return (Header { version: 2, merkle_root, time, bits: BITS, nonce }, hash);
        }
        nonce += 1;
    }
}

fn put_header(stream: &mut Vec<u8>, header: &Header) {
    stream.extend_from_slice(&header.version.to_le_bytes());
    stream.extend_from_slice(&header.merkle_root);
    stream.extend_from_slice(&header.time.to_le_bytes());
    stream.extend_from_slice(&header.bits.to_le_bytes());
    stream.extend_from_slice(&header.nonce.to_le_bytes());
}

fn chain(start: [u8; 32], roots: &[[u8; 32]]) -> (Vec<Header>, Vec<[u8; 32]>) {
    let mut prev = start;
    let mut headers = Vec::new();
    let mut hashes = Vec::new();
    for (i, root) in roots.iter().enumerate() {
        let (header, hash) = mine(&prev, *root, 1000 + i as u32);
        headers.push(header);
        hashes.push(hash);
        prev = hash;
    }
    (headers, hashes)
}

fn put_headers(stream: &mut Vec<u8>, headers: &[Header]) {
    stream.extend_from_slice(&(headers.len() as u32).to_le_bytes());
    for header in headers {
        put_header(stream, header);
    }
}

fn zero_hashes(depth: usize) -> Vec<[u8; 32]> {
    let mut zeroes = vec![[0u8; 32]];
    for i in 0..depth {
        let next = hash_pair(&zeroes[i], &zeroes[i]);
        zeroes.push(next);
    }
    zeroes
}

fn path_for(leaves: &[[u8; 32]], index: usize, depth: usize) -> Vec<[u8; 32]> {
    let zeroes = zero_hashes(depth);
    let mut level: Vec<[u8; 32]> = leaves.to_vec();
    let mut at = index;
    let mut path = Vec::new();
    for height in 0..depth {
        let sibling = at ^ 1;
        path.push(if sibling < level.len() { level[sibling] } else { zeroes[height] });
        let mut next = Vec::new();
        for pair in 0..(level.len() + 1) / 2 {
            let left = level[2 * pair];
            let right = if 2 * pair + 1 < level.len() { level[2 * pair + 1] } else { zeroes[height] };
            next.push(hash_pair(&left, &right));
        }
        level = next;
        at /= 2;
    }
    path
}

fn put_tx(stream: &mut Vec<u8>, inputs: &[([u8; 32], u32, u32)], outputs: &[(u64, [u8; 32])]) {
    stream.extend_from_slice(&2i32.to_le_bytes());
    stream.extend_from_slice(&(inputs.len() as u32).to_le_bytes());
    stream.extend_from_slice(&(outputs.len() as u32).to_le_bytes());
    stream.extend_from_slice(&0u32.to_le_bytes());
    for (txid, vout, sequence) in inputs {
        stream.extend_from_slice(txid);
        stream.extend_from_slice(&vout.to_le_bytes());
        stream.extend_from_slice(&sequence.to_le_bytes());
    }
    for (value, key) in outputs {
        stream.extend_from_slice(&value.to_le_bytes());
        stream.extend_from_slice(key);
    }
}

fn reference_txid(inputs: &[([u8; 32], u32, u32)], outputs: &[(u64, [u8; 32])]) -> [u8; 32] {
    let tx = bitcoin::Transaction {
        version: bitcoin::transaction::Version(2),
        lock_time: bitcoin::absolute::LockTime::ZERO,
        input: inputs
            .iter()
            .map(|(txid, vout, sequence)| bitcoin::TxIn {
                previous_output: bitcoin::OutPoint {
                    txid: bitcoin::hashes::Hash::from_byte_array(*txid),
                    vout: *vout,
                },
                script_sig: bitcoin::ScriptBuf::new(),
                sequence: bitcoin::Sequence(*sequence),
                witness: bitcoin::Witness::new(),
            })
            .collect(),
        output: outputs
            .iter()
            .map(|(value, key)| {
                let mut script = vec![0x51u8, 0x20];
                script.extend_from_slice(key);
                bitcoin::TxOut {
                    value: bitcoin::Amount::from_sat(*value),
                    script_pubkey: bitcoin::ScriptBuf::from_bytes(script),
                }
            })
            .collect(),
    };
    bitcoin::hashes::Hash::to_byte_array(tx.txid())
}

#[test]
fn stream_is_read_little_endian() {
    let mut bytes = vec![0x78, 0x56, 0x34, 0x12, 0xfe, 0xff, 0xff, 0xff];
    bytes.extend_from_slice(&[7u8; 32]);
    bytes.extend_from_slice(&[1, 2, 3]);
    let mut env = BufferedEnvironment::new(bytes);
    assert_eq!(env.remaining(), 43);
    assert_eq!(env.read_u32(), Some(0x12345678));
    assert_eq!(env.read_i32(), Some(-2));
    assert_eq!(env.read_32bytes(), Some([7u8; 32]));
    assert_eq!(env.read_u32(), None);
    assert_eq!(env.read_32bytes(), None);
    assert_eq!(env.remaining(), 3);
    let mut extremes = BufferedEnvironment::new(vec![0, 0, 0, 0x80, 0xff, 0xff, 0xff, 0x7f, 0xff, 0xff, 0xff, 0xff]);
    assert_eq!(extremes.read_i32(), Some(i32::MIN));
    assert_eq!(extremes.read_i32(), Some(i32::MAX));
    assert_eq!(extremes.read_u32(), Some(u32::MAX));
    assert_eq!(extremes.read_i32(), None);
}

#[test]
fn block_hash_agrees_with_bitcoin() {
    let header = bitcoin::block::Header {
        version: bitcoin::block::Version::from_consensus(0x2000_0004),
        prev_blockhash: bitcoin::hashes::Hash::from_byte_array([3u8; 32]),
        merkle_root: bitcoin::hashes::Hash::from_byte_array([5u8; 32]),
        time: 1_700_000_000,
        bits: bitcoin::CompactTarget::from_consensus(BITS),
        nonce: 42,
    };
    let expected: [u8; 32] = bitcoin::hashes::Hash::to_byte_array(header.block_hash());
    assert_eq!(calculate_block_hash(0x2000_0004, &[3u8; 32], &[5u8; 32], 1_700_000_000, BITS, 42), expected);
    assert_ne!(calculate_block_hash(-1, &[3u8; 32], &[5u8; 32], 1_700_000_000, BITS, 42), expected);
}

#[test]
fn two_headers_add_twice_the_work() {
    let start = [9u8; 32];
    let (headers, hashes) = chain(start, &[[1u8; 32], [2u8; 32]]);
    let mut stream = Vec::new();
    put_headers(&mut stream, &headers);
    stream.extend_from_slice(&[0xaa, 0xbb]);
    let mut env = BufferedEnvironment::new(stream);
    let mut imt = IncrementalMerkleTree::new(4).unwrap();
    let (work, lc_block_hash, tip) = read_blocks_and_add_to_merkle_tree(&mut env, start, &mut imt).unwrap();
    assert_eq!(work.to_le_bytes(), U256::from_u64(4).to_le_bytes());
    assert_eq!(tip, hashes[1]);
    assert_eq!(lc_block_hash, [0u8; 32]);
    assert_eq!(imt.index(), 2);
    let mut expected = IncrementalMerkleTree::new(4).unwrap();
    expected.add(start).unwrap();
    expected.add(hashes[0]).unwrap();
    assert_eq!(imt.root(), expected.root());
    assert_eq!(env.remaining(), 2);
}

#[test]
fn light_client_hash_is_taken_four_headers_before_the_end() {
    let start = [9u8; 32];
    let roots: Vec<[u8; 32]> = (0..6u8).map(|n| [n; 32]).collect();
    let (headers, hashes) = chain(start, &roots);
    let mut stream = Vec::new();
    put_headers(&mut stream, &headers);
    let mut env = BufferedEnvironment::new(stream);
    let mut imt = IncrementalMerkleTree::new(8).unwrap();
    let (work, lc_block_hash, tip) = read_blocks_and_add_to_merkle_tree(&mut env, start, &mut imt).unwrap();
    assert_eq!(work.to_le_bytes(), U256::from_u64(12).to_le_bytes());
    assert_eq!(lc_block_hash, hashes[1]);
    assert_eq!(tip, hashes[5]);
    let mut four = Vec::new();
    put_headers(&mut four, &headers[..4]);
    let mut env = BufferedEnvironment::new(four);
    let mut imt = IncrementalMerkleTree::new(8).unwrap();
    let (_, lc_block_hash, _) = read_blocks_and_add_to_merkle_tree(&mut env, start, &mut imt).unwrap();
    assert_eq!(lc_block_hash, start);
}

#[test]
fn flawed_headers_are_refused() {
    let start = [9u8; 32];
    let (headers, _) = chain(start, &[[1u8; 32], [2u8; 32], [3u8; 32]]);
    let mut stream = Vec::new();
    put_headers(&mut stream, &headers);
    let mut short = BufferedEnvironment::new(stream[..stream.len() - 1].to_vec());
    let mut imt = IncrementalMerkleTree::new(4).unwrap();
    assert!(matches!(read_blocks_and_add_to_merkle_tree(&mut short, start, &mut imt), Err(BridgeError::UnexpectedEndOfInput)));
    let mut empty = BufferedEnvironment::new(vec![1, 0, 0]);
    let mut imt = IncrementalMerkleTree::new(4).unwrap();
    assert!(matches!(read_blocks_and_add_to_merkle_tree(&mut empty, start, &mut imt), Err(BridgeError::UnexpectedEndOfInput)));
    let mut full = BufferedEnvironment::new(stream.clone());
    let mut small = IncrementalMerkleTree::new(1).unwrap();
    assert!(matches!(read_blocks_and_add_to_merkle_tree(&mut full, start, &mut small), Err(BridgeError::TreeFull)));
    let mut broken = stream.clone();
    let mut nonce = 0u32;
    loop {
        let hash = calculate_block_hash(2, &start, &[1u8; 32], 1000, BITS, nonce);
        if validate_threshold_and_add_work(BITS, &hash, &U256::zero()).is_err() {
            break;
        }
        nonce += 1;
    }
    broken[4 + 44..4 + 48].copy_from_slice(&nonce.to_le_bytes());
    let mut env = BufferedEnvironment::new(broken);
    let mut imt = IncrementalMerkleTree::new(4).unwrap();
    assert!(matches!(read_blocks_and_add_to_merkle_tree(&mut env, start, &mut imt), Err(BridgeError::ConsensusError)));
    let mut none = BufferedEnvironment::new(vec![0, 0, 0, 0]);
    let mut imt = IncrementalMerkleTree::new(4).unwrap();
    let (work, lc, tip) = read_blocks_and_add_to_merkle_tree(&mut none, start, &mut imt).unwrap();
    assert!(work.is_zero());
    assert_eq!(lc, [0u8; 32]);
    assert_eq!(tip, start);
    assert_eq!(imt.index(), 0);
}

#[test]
fn burying_headers_are_held_to_their_own_hash() {
    let (first, start) = mine(&[0u8; 32], [7u8; 32], 5);
    assert_eq!(first.bits, BITS);
    let (headers, _) = chain(start, &[[1u8; 32], [2u8; 32]]);
    let mut stream = Vec::new();
    put_headers(&mut stream, &headers);
    let mut env = BufferedEnvironment::new(stream.clone());
    let work = read_blocks_and_calculate_work(&mut env, start).unwrap();
    assert_eq!(work.to_le_bytes(), U256::from_u64(4).to_le_bytes());
    assert_eq!(env.remaining(), 0);
    let mut env = BufferedEnvironment::new(stream[..50].to_vec());
    assert!(matches!(read_blocks_and_calculate_work(&mut env, start), Err(BridgeError::UnexpectedEndOfInput)));

    let mut high = [0xffu8; 32];
    high[0] = 1;
    assert!(validate_threshold_and_add_work(BITS, &high, &U256::zero()).is_err());
    let (on_high, _) = chain(high, &[[3u8; 32]]);
    let mut stream = Vec::new();
    put_headers(&mut stream, &on_high);
    let mut env = BufferedEnvironment::new(stream);
    let work = read_blocks_and_calculate_work(&mut env, high).unwrap();
    assert_eq!(work.to_le_bytes(), U256::from_u64(2).to_le_bytes());

    let mut missing = Header { version: 2, merkle_root: [4u8; 32], time: 9, bits: BITS, nonce: 0 };
    loop {
        let hash = calculate_block_hash(2, &start, &missing.merkle_root, missing.time, BITS, missing.nonce);
        if validate_threshold_and_add_work(BITS, &hash, &U256::zero()).is_err() {
            break;
        }
        missing.nonce += 1;
    }
    let mut stream = Vec::new();
    put_headers(&mut stream, &[missing]);
    let mut env = BufferedEnvironment::new(stream);
    assert!(matches!(read_blocks_and_calculate_work(&mut env, start), Err(BridgeError::ConsensusError)));
}

#[test]
fn merkle_proof_is_read_from_the_stream() {
    let leaves: Vec<[u8; 32]> = (1..=5u8).map(|n| [n; 32]).collect();
    let mut tree = IncrementalMerkleTree::new(3).unwrap();
    for leaf in &leaves {
        tree.add(*leaf).unwrap();
    }
    for index in 0..5usize {
        let path = path_for(&leaves, index, 3);
        assert_eq!(compute_path_root(leaves[index], index as u64, &path), tree.root());
        let mut stream = Vec::new();
        stream.extend_from_slice(&(index as u32).to_le_bytes());
        for sibling in &path {
            stream.extend_from_slice(sibling);
        }
        stream.push(0xee);
        let mut env = BufferedEnvironment::new(stream.clone());
        assert_eq!(read_merkle_tree_proof::<BufferedEnvironment, 3>(&mut env, leaves[index], None), Ok(tree.root()));
        assert_eq!(env.remaining(), 1);
        let mut given = BufferedEnvironment::new(stream[4..].to_vec());
        assert_eq!(read_merkle_tree_proof::<BufferedEnvironment, 3>(&mut given, leaves[index], Some(index as u32)), Ok(tree.root()));
        let mut wrong = BufferedEnvironment::new(stream[4..].to_vec());
        assert_ne!(read_merkle_tree_proof::<BufferedEnvironment, 3>(&mut wrong, leaves[index], Some(index as u32 ^ 1)), Ok(tree.root()));
        let mut short = BufferedEnvironment::new(stream[..stream.len() - 2].to_vec());
        assert_eq!(read_merkle_tree_proof::<BufferedEnvironment, 3>(&mut short, leaves[index], None), Err(BridgeError::UnexpectedEndOfInput));
    }
    let mut nothing = BufferedEnvironment::new(Vec::new());
    assert_eq!(read_merkle_tree_proof::<BufferedEnvironment, 0>(&mut nothing, [4u8; 32], Some(9)), Ok([4u8; 32]));
}

#[test]
fn transaction_id_agrees_with_bitcoin() {
    let inputs = vec![([1u8; 32], 0u32, 0xffff_fffdu32), ([2u8; 32], 5, 200)];
    let outputs = vec![(100_000_000u64, [3u8; 32]), (0x1_0000_0005u64, [4u8; 32])];
    let mut stream = Vec::new();
    put_tx(&mut stream, &inputs, &outputs);
    stream.push(1);
    let expected = reference_txid(&inputs, &outputs);
    let mut env = BufferedEnvironment::new(stream.clone());
    assert_eq!(read_tx_and_calculate_txid(&mut env, None, None), Ok(expected));
    assert_eq!(env.remaining(), 1);
    let mut env = BufferedEnvironment::new(stream.clone());
    assert_eq!(read_tx_and_calculate_txid(&mut env, Some(([2u8; 32], 5)), Some((0x1_0000_0005, [4u8; 32]))), Ok(expected));
    let mut env = BufferedEnvironment::new(stream.clone());
    assert_eq!(read_tx_and_calculate_txid(&mut env, Some(([2u8; 32], 4)), None), Err(BridgeError::ConsensusError));
    let mut env = BufferedEnvironment::new(stream.clone());
    assert_eq!(read_tx_and_calculate_txid(&mut env, None, Some((100_000_000, [4u8; 32]))), Err(BridgeError::ConsensusError));
    let mut env = BufferedEnvironment::new(stream[..stream.len() - 2].to_vec());
    assert_eq!(read_tx_and_calculate_txid(&mut env, None, None), Err(BridgeError::UnexpectedEndOfInput));
    let mut env = BufferedEnvironment::new(stream[..10].to_vec());
    assert_eq!(read_tx_and_calculate_txid(&mut env, None, None), Err(BridgeError::UnexpectedEndOfInput));
}

#[test]
fn transaction_path_leads_to_the_block() {
    let txids: Vec<[u8; 32]> = (1..=3u8).map(|n| [n; 32]).collect();
    let left = double_hash_pair(&txids[0], &txids[1]);
    let right = double_hash_pair(&txids[2], &txids[2]);
    let root = double_hash_pair(&left, &right);
    let reference = bitcoin::merkle_tree::calculate_root(
        txids.iter().map(|id| -> bitcoin::Txid { bitcoin::hashes::Hash::from_byte_array(*id) }),
    )
    .unwrap();
    let reference_root: [u8; 32] = bitcoin::hashes::Hash::to_byte_array(reference);
    assert_eq!(root, reference_root);
    let prev = [8u8; 32];
    let block_hash = calculate_block_hash(2, &prev, &root, 77, BITS, 5);
    let mut stream = Vec::new();
    stream.extend_from_slice(&1u32.to_le_bytes());
    stream.extend_from_slice(&2u32.to_le_bytes());
    stream.extend_from_slice(&txids[0]);
    stream.extend_from_slice(&right);
    stream.extend_from_slice(&2i32.to_le_bytes());
    stream.extend_from_slice(&prev);
    stream.extend_from_slice(&77u32.to_le_bytes());
    stream.extend_from_slice(&BITS.to_le_bytes());
    stream.extend_from_slice(&5u32.to_le_bytes());
    let mut env = BufferedEnvironment::new(stream.clone());
    assert_eq!(read_and_verify_bitcoin_merkle_path(&mut env, txids[1]), Ok(block_hash));
    assert_eq!(env.remaining(), 0);
    let mut env = BufferedEnvironment::new(stream.clone());
    assert_ne!(read_and_verify_bitcoin_merkle_path(&mut env, txids[0]), Ok(block_hash));
    let mut env = BufferedEnvironment::new(stream[..stream.len() - 1].to_vec());
    assert_eq!(read_and_verify_bitcoin_merkle_path(&mut env, txids[1]), Err(BridgeError::UnexpectedEndOfInput));
}

fn put_withdrawal(stream: &mut Vec<u8>, key: [u8; 32], value: u64, block: &Header, prev: [u8; 32], leaves: &[[u8; 32]], index: usize) {
    stream.extend_from_slice(&key);
    put_tx(stream, &[([6u8; 32], 1, 0xffff_fffd)], &[(value, key)]);
    stream.extend_from_slice(&0u32.to_le_bytes());
    stream.extend_from_slice(&0u32.to_le_bytes());
    stream.extend_from_slice(&block.version.to_le_bytes());
    stream.extend_from_slice(&prev);
    stream.extend_from_slice(&block.time.to_le_bytes());
    stream.extend_from_slice(&block.bits.to_le_bytes());
    stream.extend_from_slice(&block.nonce.to_le_bytes());
    stream.extend_from_slice(&(index as u32).to_le_bytes());
    for sibling in path_for(leaves, index, 32) {
        stream.extend_from_slice(&sibling);
    }
}

#[test]
fn withdrawal_proof_adds_the_paid_key() {
    let start = [9u8; 32];
    let key = [0x44u8; 32];
    let txid = reference_txid(&[([6u8; 32], 1, 0xffff_fffd)], &[(100_000_000, key)]);
    let (headers, hashes) = chain(start, &[txid, [2u8; 32]]);
    let leaves = vec![start, hashes[0]];
    let mut blocks = IncrementalMerkleTree::new(32).unwrap();
    blocks.add(start).unwrap();
    blocks.add(hashes[0]).unwrap();
    let mut stream = Vec::new();
    put_withdrawal(&mut stream, key, 100_000_000, &headers[0], start, &leaves, 1);
    let mut env = BufferedEnvironment::new(stream.clone());
    let mut withdrawals = IncrementalMerkleTree::new(32).unwrap();
    assert_eq!(read_withdrawal_proof(&mut env, blocks.root(), &mut withdrawals), Ok(()));
    assert_eq!(withdrawals.index(), 1);
    let mut expected = IncrementalMerkleTree::new(32).unwrap();
    expected.add(key).unwrap();
    assert_eq!(withdrawals.root(), expected.root());
    assert_eq!(env.remaining(), 0);
    let mut env = BufferedEnvironment::new(stream.clone());
    let mut withdrawals = IncrementalMerkleTree::new(32).unwrap();
    assert_eq!(read_withdrawal_proof(&mut env, [1u8; 32], &mut withdrawals), Err(BridgeError::ConsensusError));
    assert_eq!(withdrawals.index(), 0);
    let mut cheap = Vec::new();
    put_withdrawal(&mut cheap, key, 99_999_999, &headers[0], start, &leaves, 1);
    let mut env = BufferedEnvironment::new(cheap);
    assert_eq!(read_withdrawal_proof(&mut env, blocks.root(), &mut withdrawals), Err(BridgeError::ConsensusError));
    let mut env = BufferedEnvironment::new(stream[..stream.len() - 1].to_vec());
    assert_eq!(read_withdrawal_proof(&mut env, blocks.root(), &mut withdrawals), Err(BridgeError::UnexpectedEndOfInput));
}

#[test]
fn light_client_proof_must_attest_the_pair() {
    let mut proof = vec![1u8; 32];
    proof.extend_from_slice(&[2u8; 32]);
    proof.extend_from_slice(&[7, 7, 7]);
    let mut env = BufferedEnvironment::new(proof.clone());
    assert_eq!(read_and_verify_lc_proof(&mut env, [1u8; 32], [2u8; 32]), Ok(()));
    assert_eq!(env.remaining(), 3);
    let mut env = BufferedEnvironment::new(proof.clone());
    assert_eq!(read_and_verify_lc_proof(&mut env, [3u8; 32], [2u8; 32]), Err(BridgeError::ConsensusError));
    let mut env = BufferedEnvironment::new(proof.clone());
    assert_eq!(read_and_verify_lc_proof(&mut env, [1u8; 32], [3u8; 32]), Err(BridgeError::ConsensusError));
    let mut env = BufferedEnvironment::new(proof.clone());
    assert_eq!(read_and_verify_lc_proof(&mut env, [2u8; 32], [1u8; 32]), Err(BridgeError::ConsensusError));
    let mut flipped = proof.clone();
    flipped[63] ^= 1;
    let mut env = BufferedEnvironment::new(flipped);
    assert_eq!(read_and_verify_lc_proof(&mut env, [1u8; 32], [2u8; 32]), Err(BridgeError::ConsensusError));
    let mut env = BufferedEnvironment::new(proof[..63].to_vec());
    assert_eq!(read_and_verify_lc_proof(&mut env, [1u8; 32], [2u8; 32]), Err(BridgeError::ConsensusError));
    let mut env = BufferedEnvironment::new(Vec::new());
    assert_eq!(read_and_verify_lc_proof(&mut env, [1u8; 32], [2u8; 32]), Err(BridgeError::ConsensusError));
}

#[test]
fn challenge_is_read_from_the_stream() {
    let mut stream = vec![0u8; 68];
    stream[0] = 9;
    stream[32..64].copy_from_slice(&[5u8; 32]);
    stream[64..68].copy_from_slice(&800_000u32.to_le_bytes());
    let mut env = BufferedEnvironment::new(stream.clone());
    let (work, block_hash, height) = read_and_verify_verifiers_challenge_proof(&mut env).unwrap();
    assert_eq!(work.to_le_bytes(), U256::from_u64(9).to_le_bytes());
    assert_eq!(block_hash, [5u8; 32]);
    assert_eq!(height, 800_000);
    let mut env = BufferedEnvironment::new(stream[..67].to_vec());
    assert!(matches!(read_and_verify_verifiers_challenge_proof(&mut env), Err(BridgeError::UnexpectedEndOfInput)));
}

#[test]
fn prover_does_not_win_on_the_verifiers_block() {
    let ten = U256::from_u64(10);
    let nine = U256::from_u64(9);
    let tip = [3u8; 32];
    assert!(!prover_wins(&ten, &nine, &tip, &tip));
    assert!(prover_wins(&ten, &nine, &tip, &[4u8; 32]));
    assert!(!prover_wins(&nine, &nine, &tip, &[4u8; 32]));
    assert!(!prover_wins(&nine, &ten, &tip, &[4u8; 32]));
}

#[test]
fn preimages_give_the_commit_address_and_the_claim_leaf() {
    let operator = [0x21u8; 32];
    let preimages = vec![[1u8; 32], [2u8; 32]];
    let mut stream = Vec::new();
    stream.extend_from_slice(&2u32.to_le_bytes());
    stream.extend_from_slice(&preimages[0]);
    stream.extend_from_slice(&preimages[1]);
    let script = ScriptBuilder::create_inscription_script_32_bytes(&operator, &preimages);
    let (address, _) = TransactionBuilder::create_taproot_address(vec![script]).unwrap();
    let mut hashes = Vec::new();
    hashes.extend_from_slice(&hash_32(&preimages[0]));
    hashes.extend_from_slice(&hash_32(&preimages[1]));
    let mut env = BufferedEnvironment::new(stream.clone());
    let (key, leaf) = read_preimages_and_calculate_commit_taproot(&mut env, &operator).unwrap();
    assert_eq!(key[..], address[2..]);
    assert_eq!(leaf, sha256_hash(&hashes));
    let mut env = BufferedEnvironment::new(stream[..stream.len() - 1].to_vec());
    assert!(matches!(read_preimages_and_calculate_commit_taproot(&mut env, &operator), Err(BridgeError::UnexpectedEndOfInput)));
}

fn closing_period(final_hash_is_tip: bool, claimed: u64) -> (Vec<u8>, ProverParameters) {
    let start = [9u8; 32];
    let operator = [0x21u8; 32];
    let preimages = vec![[1u8; 32], [2u8; 32]];
    let script = ScriptBuilder::create_inscription_script_32_bytes(&operator, &preimages);
    let (address, _) = TransactionBuilder::create_taproot_address(vec![script]).unwrap();
    let mut commit_key = [0u8; 32];
    commit_key.copy_from_slice(&address[2..]);
    let commit_inputs = vec![([7u8; 32], 0u32, 0xffff_fffdu32)];
    let commit_outputs = vec![(1000u64, commit_key)];
    let commit_txid = reference_txid(&commit_inputs, &commit_outputs);
    let reveal_inputs = vec![(commit_txid, 0u32, 0xffff_fffdu32)];
    let reveal_outputs = vec![(600u64, [0x31u8; 32])];
    let reveal_txid = reference_txid(&reveal_inputs, &reveal_outputs);
    let (headers, hashes) = chain(start, &[reveal_txid, [2u8; 32]]);
    let (burying, _) = chain(hashes[1], &[[3u8; 32]]);
    let mut claim_hashes = Vec::new();
    claim_hashes.extend_from_slice(&hash_32(&preimages[0]));
    claim_hashes.extend_from_slice(&hash_32(&preimages[1]));
    let claim_leaf = sha256_hash(&claim_hashes);
    let claim_path: Vec<[u8; 32]> = (0..32u8).map(|n| [n; 32]).collect();
    let claim_root = compute_path_root(claim_leaf, 0, &claim_path);

    let mut stream = Vec::new();
    put_headers(&mut stream, &headers);
    stream.extend_from_slice(&0u32.to_le_bytes());
    stream.extend_from_slice(&1u32.to_le_bytes());
    stream.extend_from_slice(&[0u8; 32]);
    stream.extend_from_slice(&IncrementalMerkleTree::new(32).unwrap().root());
    stream.extend_from_slice(&2u32.to_le_bytes());
    stream.extend_from_slice(&preimages[0]);
    stream.extend_from_slice(&preimages[1]);
    put_tx(&mut stream, &commit_inputs, &commit_outputs);
    put_tx(&mut stream, &reveal_inputs, &reveal_outputs);
    stream.extend_from_slice(&0u32.to_le_bytes());
    stream.extend_from_slice(&0u32.to_le_bytes());
    stream.extend_from_slice(&headers[0].version.to_le_bytes());
    stream.extend_from_slice(&start);
    stream.extend_from_slice(&headers[0].time.to_le_bytes());
    stream.extend_from_slice(&headers[0].bits.to_le_bytes());
    stream.extend_from_slice(&headers[0].nonce.to_le_bytes());
    stream.extend_from_slice(&1u32.to_le_bytes());
    for sibling in path_for(&[start, hashes[0]], 1, 32) {
        stream.extend_from_slice(&sibling);
    }
    for sibling in &claim_path {
        stream.extend_from_slice(sibling);
    }
    put_headers(&mut stream, &burying);
    stream.extend_from_slice(&U256::from_u64(claimed).to_le_bytes());
    stream.extend_from_slice(&if final_hash_is_tip { hashes[1] } else { [0x55u8; 32] });
    stream.extend_from_slice(&123u32.to_le_bytes());
    let params = ProverParameters {
        start_blockhash: start,
        periods_claim_mt_roots: vec![claim_root],
        operator_pk: operator,
    };
    (stream, params)
}

/// Where the light-client proof stands in the stream that `closing_period`
/// makes: behind two headers of 48 bytes each with their count, the number
/// of withdrawals and the closing word.
const LC_PROOF_AT: usize = 4 + 2 * 48 + 4 + 4;

#[test]
fn prover_wins_with_more_work_on_another_block() {
    let (stream, params) = closing_period(false, 5);
    let mut env = BufferedEnvironment::new(stream);
    assert_eq!(bridge_proof(&mut env, &params), Ok(true));
    assert_eq!(env.remaining(), 0);
}

#[test]
fn light_client_proof_is_held_against_the_period() {
    let (stream, params) = closing_period(false, 5);
    assert_eq!(&stream[LC_PROOF_AT - 4..LC_PROOF_AT], &1u32.to_le_bytes());
    let mut wrong_hash = stream.clone();
    wrong_hash[LC_PROOF_AT] ^= 1;
    let mut env = BufferedEnvironment::new(wrong_hash);
    assert_eq!(bridge_proof(&mut env, &params), Err(BridgeError::ConsensusError));
    let mut wrong_root = stream.clone();
    wrong_root[LC_PROOF_AT + 40] ^= 1;
    let mut env = BufferedEnvironment::new(wrong_root);
    assert_eq!(bridge_proof(&mut env, &params), Err(BridgeError::ConsensusError));
    let mut env = BufferedEnvironment::new(stream[..LC_PROOF_AT + 63].to_vec());
    assert_eq!(bridge_proof(&mut env, &params), Err(BridgeError::ConsensusError));
}

#[test]
fn prover_reads_on_only_where_it_has_not_won() {
    let mut next_period = Vec::new();
    next_period.extend_from_slice(&0u32.to_le_bytes());
    next_period.extend_from_slice(&0u32.to_le_bytes());
    next_period.extend_from_slice(&0u32.to_le_bytes());

    let (mut stream, mut params) = closing_period(false, 5);
    params.periods_claim_mt_roots.push([0u8; 32]);
    stream.extend_from_slice(&next_period);
    let mut env = BufferedEnvironment::new(stream);
    assert_eq!(bridge_proof(&mut env, &params), Ok(true));
    assert_eq!(env.remaining(), next_period.len());

    let (mut stream, mut params) = closing_period(true, 5);
    params.periods_claim_mt_roots.push([0u8; 32]);
    stream.extend_from_slice(&next_period);
    stream.extend_from_slice(&[0xaa; 5]);
    let mut env = BufferedEnvironment::new(stream.clone());
    assert_eq!(bridge_proof(&mut env, &params), Ok(false));
    assert_eq!(env.remaining(), 5);
    let mut env = BufferedEnvironment::new(stream[..stream.len() - 6].to_vec());
    assert_eq!(bridge_proof(&mut env, &params), Err(BridgeError::UnexpectedEndOfInput));
}

#[test]
fn prover_does_not_win_without_more_work_or_on_the_same_block() {
    let (stream, params) = closing_period(false, 6);
    let mut env = BufferedEnvironment::new(stream);
    assert_eq!(bridge_proof(&mut env, &params), Ok(false));
    let (stream, params) = closing_period(true, 5);
    let mut env = BufferedEnvironment::new(stream);
    assert_eq!(bridge_proof(&mut env, &params), Ok(false));
}

#[test]
fn flawed_proofs_are_errors() {
    let (stream, mut params) = closing_period(false, 5);
    let mut env = BufferedEnvironment::new(stream[..stream.len() - 1].to_vec());
    assert_eq!(bridge_proof(&mut env, &params), Err(BridgeError::UnexpectedEndOfInput));
    params.periods_claim_mt_roots[0][0] ^= 1;
    let mut env = BufferedEnvironment::new(stream.clone());
    assert_eq!(bridge_proof(&mut env, &params), Err(BridgeError::ConsensusError));
    params.periods_claim_mt_roots[0][0] ^= 1;
    params.operator_pk[0] ^= 1;
    let mut env = BufferedEnvironment::new(stream.clone());
    assert_eq!(bridge_proof(&mut env, &params), Err(BridgeError::ConsensusError));
    params.operator_pk[0] ^= 1;
    params.periods_claim_mt_roots.push([0u8; 32]);
    let mut env = BufferedEnvironment::new(stream);
    assert_eq!(bridge_proof(&mut env, &params), Ok(true));
}

#[test]
fn open_periods_carry_the_chain_on() {
    let start = [9u8; 32];
    let (first, first_hashes) = chain(start, &[[1u8; 32]]);
    let (second, _) = chain(first_hashes[0], &[[2u8; 32], [3u8; 32]]);
    let mut stream = Vec::new();
    put_headers(&mut stream, &first);
    stream.extend_from_slice(&0u32.to_le_bytes());
    stream.extend_from_slice(&0u32.to_le_bytes());
    put_headers(&mut stream, &second);
    stream.extend_from_slice(&0u32.to_le_bytes());
    stream.extend_from_slice(&7u32.to_le_bytes());
    let params = ProverParameters {
        start_blockhash: start,
        periods_claim_mt_roots: vec![[0u8; 32], [0u8; 32]],
        operator_pk: [0x21u8; 32],
    };
    let mut env = BufferedEnvironment::new(stream.clone());
    assert_eq!(bridge_proof(&mut env, &params), Ok(false));
    assert_eq!(env.remaining(), 0);
    let none = ProverParameters {
        start_blockhash: start,
        periods_claim_mt_roots: Vec::new(),
        operator_pk: [0x21u8; 32],
    };
    let mut env = BufferedEnvironment::new(stream);
    assert_eq!(bridge_proof(&mut env, &none), Ok(false));
}
