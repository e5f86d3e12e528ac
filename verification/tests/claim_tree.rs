use bitvm_bridge::utils::{
    calculate_amount, calculate_claim_proof_root, connector_node_value, get_claim_proof_tree_leaf,
    get_claim_reveal_indices, pow2_u64,
};
use bitvm_bridge::errors::BridgeError;
use sha2::{Digest, Sha256};

#[test]
fn test_get_indices() {
    let test_cases = vec![
        ((0, 0), vec![(0, 0)]),
        ((0, 1), vec![]),
        ((1, 0), vec![(0, 0)]),
        ((1, 1), vec![(1, 1)]),
        ((1, 2), vec![]),
        ((2, 0), vec![(0, 0)]),
        ((2, 1), vec![(2, 1), (1, 1)]),
        ((2, 2), vec![(1, 1)]),
        ((2, 3), vec![(2, 3)]),
        ((2, 4), vec![]),
        ((3, 0), vec![(0, 0)]),
        ((3, 1), vec![(3, 1), (2, 1), (1, 1)]),
        ((3, 2), vec![(2, 1), (1, 1)]),
        ((3, 3), vec![(3, 3), (1, 1)]),
        ((3, 4), vec![(1, 1)]),
        ((3, 5), vec![(3, 5), (2, 3)]),
        ((3, 6), vec![(2, 3)]),
        ((3, 7), vec![(3, 7)]),
        ((3, 8), vec![]),
    ];

    for ((depth, index), expected) in test_cases {
        let indices = get_claim_reveal_indices(depth, index).unwrap();
        assert_eq!(
            indices, expected,
            "Failed at get_indices({}, {})",
            depth, index
        );
    }
}

fn tree_hashes(depth: usize) -> Vec<Vec<[u8; 32]>> {
    (0..=depth)
        .map(|level| {
            (0..(1usize << level))
                .map(|index| {
                    let mut hash = [level as u8; 32];
                    hash[31] = index as u8;
                    hash
                })
                .collect()
        })
        .collect()
}

#[test]
fn revealed_nodes_cover_the_unclaimed_leaves() {
    for depth in 0..=6usize {
        for count in 0..=(1u32 << depth) {
            let nodes = get_claim_reveal_indices(depth, count).unwrap();
            for leaf in 0..(1usize << depth) {
                let covering = nodes
                    .iter()
                    .filter(|(level, index)| *level <= depth && leaf >> (depth - level) == *index)
                    .count();
                let expected = if leaf >= count as usize { 1 } else { 0 };
                assert_eq!(covering, expected, "depth {} count {} leaf {}", depth, count, leaf);
            }
            for (level, index) in &nodes {
                assert!(*level <= depth && *index < (1usize << level));
            }
        }
    }
}

#[test]
fn revealed_nodes_are_as_many_as_the_open_leaves_have_bits() {
    for depth in 0..=6usize {
        for count in 0..=(1u32 << depth) {
            let nodes = get_claim_reveal_indices(depth, count).unwrap();
            assert_eq!(nodes.len() as u32, ((1u32 << depth) - count).count_ones(), "{} {}", depth, count);
            for pair in nodes.windows(2) {
                assert!(pair[0].0 > pair[1].0);
            }
            for leaf in 0..(1usize << depth) {
                let above = nodes.iter().filter(|(level, index)| leaf >> (depth - level) == *index).count();
                assert_eq!(above, if leaf as u32 >= count { 1 } else { 0 });
            }
        }
    }
}

#[test]
fn more_claims_than_leaves_are_refused() {
    for depth in 0..=31usize {
        let leaves = 1u32 << depth;
        assert!(get_claim_reveal_indices(depth, leaves).unwrap().is_empty());
        assert_eq!(get_claim_reveal_indices(depth, leaves + 1), Err(BridgeError::TreeIndexOutOfRange));
        assert_eq!(get_claim_reveal_indices(depth, u32::MAX), Err(BridgeError::TreeIndexOutOfRange));
    }
    assert!(get_claim_reveal_indices(32, u32::MAX).is_ok());
    assert!(get_claim_reveal_indices(70, u32::MAX).is_ok());
}

#[test]
fn reveal_indices_of_a_deep_tree() {
    assert_eq!(get_claim_reveal_indices(40, 0), Ok(vec![(0, 0)]));
    let nodes = get_claim_reveal_indices(40, 1).unwrap();
    assert_eq!(nodes.len(), 40);
    assert_eq!(nodes[0], (40, 1));
    assert_eq!(nodes[39], (1, 1));
    assert_eq!(get_claim_reveal_indices(32, u32::MAX).unwrap().len(), 1);
}

#[test]
fn claim_leaf_hashes_the_revealed_hashes() {
    let hashes = tree_hashes(3);
    let mut hasher = Sha256::new();
    hasher.update(hashes[3][5]);
    hasher.update(hashes[2][3]);
    let expected: [u8; 32] = hasher.finalize().into();
    assert_eq!(get_claim_proof_tree_leaf(3, 5, &hashes), Ok(expected));
    let all: [u8; 32] = Sha256::digest(hashes[0][0]).into();
    assert_eq!(get_claim_proof_tree_leaf(3, 0, &hashes), Ok(all));
    let none: [u8; 32] = Sha256::digest([]).into();
    assert_eq!(get_claim_proof_tree_leaf(3, 8, &hashes), Ok(none));
    assert_eq!(get_claim_proof_tree_leaf(3, 9, &hashes), Err(BridgeError::TreeIndexOutOfRange));
    assert_eq!(get_claim_proof_tree_leaf(2, 1, &hashes), Err(BridgeError::TreeIndexOutOfRange));
    assert_eq!(get_claim_proof_tree_leaf(4, 1, &hashes), Err(BridgeError::TreeIndexOutOfRange));
    assert_eq!(get_claim_proof_tree_leaf(40, 1, &hashes), Err(BridgeError::TreeIndexOutOfRange));
    let mut short = hashes.clone();
    short[2].pop();
    assert_eq!(get_claim_proof_tree_leaf(3, 5, &short), Err(BridgeError::TreeIndexOutOfRange));
    assert_eq!(calculate_claim_proof_root(3, &short), Err(BridgeError::TreeIndexOutOfRange));
    assert_eq!(calculate_claim_proof_root(2, &hashes), Err(BridgeError::TreeIndexOutOfRange));
    assert_eq!(calculate_claim_proof_root(32, &hashes), Err(BridgeError::TreeIndexOutOfRange));
}

#[test]
fn claim_root_is_the_merkle_root_of_the_leaves() {
    for depth in 0..=4usize {
        let hashes = tree_hashes(depth);
        let mut level: Vec<[u8; 32]> = (0..(1usize << depth))
            .map(|claims| get_claim_proof_tree_leaf(depth, claims, &hashes).unwrap())
            .collect();
        while level.len() > 1 {
            level = level
                .chunks(2)
                .map(|pair| {
                    let mut hasher = Sha256::new();
                    hasher.update(pair[0]);
                    hasher.update(pair[1]);
                    hasher.finalize().into()
                })
                .collect();
        }
        assert_eq!(calculate_claim_proof_root(depth, &hashes), Ok(level[0]));
    }
}

#[test]
fn amounts_of_the_connector_tree() {
    assert_eq!(calculate_amount(0, 1000, 400), 1400);
    assert_eq!(calculate_amount(3, 1000, 400), 11200);
    assert_eq!(calculate_amount(10, 0, 0), 0);
    assert_eq!(calculate_amount(63, 1, 0), 1u64 << 63);
    assert_eq!(pow2_u64(0), 1);
    assert_eq!(pow2_u64(63), 1u64 << 63);
}

#[test]
fn connector_values_are_conserved_where_splits_are_exact() {
    let fee = 400u64;
    let depth = 3usize;
    let root = calculate_amount(depth, 1000, fee);
    assert_eq!(connector_node_value(root, fee, 0), Some(11200));
    assert_eq!(connector_node_value(root, fee, 1), Some(5400));
    assert_eq!(connector_node_value(root, fee, 2), Some(2500));
    assert_eq!(connector_node_value(root, fee, 3), Some(1050));
    let leaf = connector_node_value(root, fee, depth).unwrap();
    assert_eq!(leaf * 8, root - 7 * fee);
    for level in 0..depth {
        let parent = connector_node_value(root, fee, level).unwrap();
        let child = connector_node_value(root, fee, level + 1).unwrap();
        assert_eq!(2 * child, parent - fee);
    }
}

#[test]
fn inexact_split_loses_a_satoshi() {
    let root = calculate_amount(1, 1000, 1);
    assert_eq!(root, 2002);
    let leaf = connector_node_value(root, 1, 1).unwrap();
    assert_eq!(leaf, 1000);
    assert_eq!(2 * leaf, root - 1 - 1);
}

#[test]
fn node_that_cannot_pay_the_fee_has_no_children() {
    assert_eq!(connector_node_value(300, 400, 0), Some(300));
    assert_eq!(connector_node_value(300, 400, 1), None);
    assert_eq!(connector_node_value(1200, 400, 1), Some(400));
    assert_eq!(connector_node_value(1200, 400, 2), Some(0));
    assert_eq!(connector_node_value(1200, 400, 3), None);
}
