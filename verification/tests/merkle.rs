use bitvm_bridge::errors::BridgeError;
use bitvm_bridge::hash::{double_sha256, hash_32, hash_pair, sha256_hash};
use bitvm_bridge::merkle::{compute_path_root, IncrementalMerkleTree};
use sha2::{Digest, Sha256};

fn reference_hash(left: &[u8; 32], right: &[u8; 32]) -> [u8; 32] {
    let mut hasher = Sha256::new();
    hasher.update(left);
    hasher.update(right);
    hasher.finalize().into()
}

fn reference_root(depth: usize, leaves: &[[u8; 32]]) -> [u8; 32] {
    let mut level: Vec<[u8; 32]> = vec![[0u8; 32]; 1 << depth];
    level[..leaves.len()].copy_from_slice(leaves);
    for _ in 0..depth {
        level = level
            .chunks(2)
            .map(|pair| reference_hash(&pair[0], &pair[1]))
            .collect();
    }
    level[0]
}

fn leaf(n: u8) -> [u8; 32] {
    let mut bytes = [n; 32];
    bytes[0] = n.wrapping_mul(7).wrapping_add(1);
    bytes
}

#[test]
fn sha256_of_the_empty_string() {
    let expected: [u8; 32] = [
        0xe3, 0xb0, 0xc4, 0x42, 0x98, 0xfc, 0x1c, 0x14, 0x9a, 0xfb, 0xf4, 0xc8, 0x99, 0x6f, 0xb9,
        0x24, 0x27, 0xae, 0x41, 0xe4, 0x64, 0x9b, 0x93, 0x4c, 0xa4, 0x95, 0x99, 0x1b, 0x78, 0x52,
        0xb8, 0x55,
    ];
    assert_eq!(sha256_hash(&[]), expected);
}

#[test]
fn hashes_agree_with_sha2() {
    let a = leaf(3);
    let b = leaf(9);
    let single: [u8; 32] = Sha256::digest(a).into();
    assert_eq!(hash_32(&a), single);
    assert_ne!(hash_32(&a), a);
    assert_eq!(hash_pair(&a, &b), reference_hash(&a, &b));
    assert_ne!(hash_pair(&a, &b), hash_pair(&b, &a));
    let twice: [u8; 32] = Sha256::digest(Sha256::digest(b"bridge")).into();
    assert_eq!(double_sha256(b"bridge"), twice);
}

#[test]
fn empty_tree_has_the_zero_root() {
    for depth in 0..=5usize {
        let tree = IncrementalMerkleTree::new(depth).unwrap();
        assert_eq!(tree.root(), reference_root(depth, &[]));
        assert_eq!(tree.index(), 0);
        assert_eq!(tree.depth(), depth);
    }
    let zero_tree = IncrementalMerkleTree::new(0).unwrap();
    assert_eq!(zero_tree.root(), [0u8; 32]);
}

#[test]
fn incremental_root_equals_reference_root() {
    for depth in 0..=4usize {
        let mut tree = IncrementalMerkleTree::new(depth).unwrap();
        let mut leaves: Vec<[u8; 32]> = Vec::new();
        for n in 0..(1usize << depth) {
            let next = leaf(n as u8);
            tree.add(next).unwrap();
            leaves.push(next);
            assert_eq!(tree.root(), reference_root(depth, &leaves), "depth {} after {} leaves", depth, n + 1);
            assert_eq!(tree.index(), leaves.len() as u64);
        }
    }
}

#[test]
fn full_tree_refuses_another_leaf() {
    let mut tree = IncrementalMerkleTree::new(2).unwrap();
    for n in 0..4u8 {
        assert_eq!(tree.add(leaf(n)), Ok(()));
    }
    let root = tree.root();
    assert_eq!(tree.add(leaf(4)), Err(BridgeError::TreeFull));
    assert_eq!(tree.root(), root);
    assert_eq!(tree.index(), 4);
    let mut single = IncrementalMerkleTree::new(0).unwrap();
    assert_eq!(single.add(leaf(1)), Ok(()));
    assert_eq!(single.root(), leaf(1));
    assert_eq!(single.add(leaf(2)), Err(BridgeError::TreeFull));
}

#[test]
fn depth_over_thirty_two_is_refused() {
    assert!(IncrementalMerkleTree::new(32).is_ok());
    assert!(matches!(IncrementalMerkleTree::new(33), Err(BridgeError::TreeIndexOutOfRange)));
}

#[test]
fn true_path_leads_to_the_root() {
    let depth = 3usize;
    let leaves: Vec<[u8; 32]> = (0..5u8).map(leaf).collect();
    let mut tree = IncrementalMerkleTree::new(depth).unwrap();
    for l in &leaves {
        tree.add(*l).unwrap();
    }
    let mut levels: Vec<Vec<[u8; 32]>> = Vec::new();
    let mut level: Vec<[u8; 32]> = vec![[0u8; 32]; 8];
    level[..5].copy_from_slice(&leaves);
    for _ in 0..depth {
        levels.push(level.clone());
        level = level.chunks(2).map(|pair| reference_hash(&pair[0], &pair[1])).collect();
    }
    for index in 0..8usize {
        let siblings: Vec<[u8; 32]> = (0..depth).map(|l| levels[l][(index >> l) ^ 1]).collect();
        assert_eq!(compute_path_root(levels[0][index], index as u64, &siblings), tree.root());
    }
    let siblings: Vec<[u8; 32]> = (0..depth).map(|l| levels[l][(2usize >> l) ^ 1]).collect();
    assert_ne!(compute_path_root(leaves[2], 3, &siblings), tree.root());
    assert_eq!(compute_path_root(leaves[2], 0, &Vec::new()), leaves[2]);
}
