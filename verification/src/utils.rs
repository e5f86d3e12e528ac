//! Helpers of the operator: connector-tree amounts and the claim tree that
//! commits to the connector hashes revealed for each number of claims.

use vstd::prelude::*;
use vstd::arithmetic::div_mod::{
    lemma_basic_div, lemma_div_denominator, lemma_div_multiples_vanish,
};
use vstd::arithmetic::mul::lemma_mul_is_commutative;
use vstd::arithmetic::power2::{
    lemma2_to64, lemma_pow2_adds, lemma_pow2_pos, lemma_pow2_strictly_increases, lemma_pow2_unfold,
    pow2,
};
use crate::config::{DUST_VALUE, MIN_RELAY_FEE};
use crate::errors::BridgeError;
use crate::hash::{append_bytes, hash_pair, sha256, sha256_hash};
use crate::merkle::{merkle_root, subtree_root};
use crate::taproot::{taproot_control_block, TaprootSpendInfo};
use crate::transaction::{copy_bytes, OutPoint, Transaction, TransactionView, TxIn, TxInView, TxOut};
use crate::views::{
    lemma_bytes_deep_view, lemma_empty_deep_view, lemma_push_deep_view, lemma_update_deep_view,
};

verus! {

/// `2^exponent`, for an exponent under 64.
pub fn pow2_u64(exponent: usize) -> (power: u64)
    requires
        exponent < 64,
    ensures
        power == pow2(exponent as nat),
{
    let mut power: u64 = 1;
    let mut i: usize = 0;
    proof {
        lemma2_to64();
    }
    while i < exponent
        invariant
            i <= exponent < 64,
            power == pow2(i as nat),
        decreases exponent - i,
    {
        proof {
            lemma_pow2_unfold((i + 1) as nat);
            if i + 1 < 63 {
                lemma_pow2_strictly_increases((i + 1) as nat, 63);
            }
            lemma2_to64();
            vstd::arithmetic::power2::lemma2_to64_rest();
        }
        power = power * 2;
        i = i + 1;
    }
    power
}

/// The value `(value + fee) * 2^depth` that funds a connector tree of the
/// given depth whose leaves are worth `value` each, with `fee` set aside per
/// node.
pub open spec fn connector_amount(depth: nat, value: nat, fee: nat) -> nat {
    (value + fee) * pow2(depth)
}

/// The amount `(value + fee) * 2^depth`, in satoshis.
pub fn calculate_amount(depth: usize, value: u64, fee: u64) -> (amount: u64)
    requires
        connector_amount(depth as nat, value as nat, fee as nat) <= u64::MAX,
    ensures
        amount == connector_amount(depth as nat, value as nat, fee as nat),
{
    proof {
        lemma2_to64();
        assert((value + fee) * 1 == value + fee) by (nonlinear_arith);
        lemma_pow2_pos(depth as nat);
        assert(value + fee <= (value + fee) * pow2(depth as nat)) by (nonlinear_arith)
            requires
                pow2(depth as nat) > 0,
        ;
    }
    let base: u64 = value + fee;
    if base == 0 {
        assert(0 * pow2(depth as nat) == 0) by (nonlinear_arith);
        return 0;
    }
    let mut amount: u64 = base;
    let mut i: usize = 0;
    while i < depth
        invariant
            i <= depth,
            base == value + fee,
            base > 0,
            amount == base * pow2(i as nat),
            base * pow2(depth as nat) <= u64::MAX,
        decreases depth - i,
    {
        proof {
            lemma_pow2_unfold((i + 1) as nat);
            if i + 1 < depth {
                lemma_pow2_strictly_increases((i + 1) as nat, depth as nat);
            }
            assert(base * pow2((i + 1) as nat) <= base * pow2(depth as nat)) by (nonlinear_arith)
                requires
                    pow2((i + 1) as nat) <= pow2(depth as nat),
                    base > 0,
            ;
            assert(base * pow2((i + 1) as nat) == 2 * (base * pow2(i as nat))) by (nonlinear_arith)
                requires
                    pow2((i + 1) as nat) == 2 * pow2(i as nat),
            ;
        }
        amount = amount * 2;
        i = i + 1;
    }
    amount
}

/// The value of each of the two outputs that a connector node worth `parent`
/// is split into, the fee taken off first.
pub open spec fn connector_child_amount(parent: nat, fee: nat) -> nat {
    if parent >= fee {
        ((parent - fee) / 2) as nat
    } else {
        0
    }
}

/// Whether a node worth `value`, and every node below it down to `height`
/// levels, can pay the fee and splits into two equal halves with nothing lost.
pub open spec fn splits_exactly(value: nat, fee: nat, height: nat) -> bool
    decreases height,
{
    height == 0 || (value >= fee && (value - fee) % 2 == 0 && splits_exactly(
        connector_child_amount(value, fee),
        fee,
        (height - 1) as nat,
    ))
}

/// The sum of the values of the leaves below a connector node worth `value`
/// that stands `height` levels above them.
pub open spec fn connector_leaves_total(value: nat, fee: nat, height: nat) -> nat
    decreases height,
{
    if height == 0 {
        value
    } else {
        2 * connector_leaves_total(connector_child_amount(value, fee), fee, (height - 1) as nat)
    }
}

/// The value of a connector node `level` levels below a root worth `root`.
pub open spec fn connector_node_amount(root: nat, fee: nat, level: nat) -> nat
    decreases level,
{
    if level == 0 {
        root
    } else {
        connector_child_amount(connector_node_amount(root, fee, (level - 1) as nat), fee)
    }
}

/// Whether every node above `level`, on the way down from a root worth
/// `root`, is worth at least the fee that its split costs.
pub open spec fn fees_covered(root: nat, fee: nat, level: nat) -> bool
    decreases level,
{
    level == 0 || (fees_covered(root, fee, (level - 1) as nat) && connector_node_amount(
        root,
        fee,
        (level - 1) as nat,
    ) >= fee)
}

/// In a tree funded with `(dust + fee) * 2^depth`, the node `level` levels
/// down is worth at least `(dust + fee) * 2^(depth - level) - fee`: every
/// node above the leaves can pay its fee, and every leaf is worth at least
/// the dust value.
pub proof fn lemma_connector_amounts_cover_fees(dust: nat, fee: nat, depth: nat, level: nat)
    requires
        level <= depth,
    ensures
        connector_node_amount(connector_amount(depth, dust, fee), fee, level) + fee >= (dust + fee)
            * pow2((depth - level) as nat),
        fees_covered(connector_amount(depth, dust, fee), fee, level),
        connector_node_amount(connector_amount(depth, dust, fee), fee, level) >= dust,
    decreases level,
{
    let root = connector_amount(depth, dust, fee);
    lemma_pow2_pos((depth - level) as nat);
    assert((dust + fee) * pow2((depth - level) as nat) >= dust + fee) by (nonlinear_arith)
        requires
            pow2((depth - level) as nat) >= 1,
    ;
    if level > 0 {
        let up = (level - 1) as nat;
        lemma_connector_amounts_cover_fees(dust, fee, depth, up);
        lemma_pow2_unfold((depth - up) as nat);
        let parent = connector_node_amount(root, fee, up);
        let half = (dust + fee) * pow2((depth - level) as nat);
        assert((dust + fee) * pow2((depth - up) as nat) == 2 * half) by (nonlinear_arith)
            requires
                pow2((depth - up) as nat) == 2 * pow2((depth - level) as nat),
                half == (dust + fee) * pow2((depth - level) as nat),
        ;
        assert(parent >= fee);
    }
}

/// The value of the connector node `level` levels below a root worth
/// `root`, or `None` where a node on the way cannot pay its fee.
pub fn connector_node_value(root: u64, fee: u64, level: usize) -> (r: Option<u64>)
    ensures
        match r {
            Some(value) => value == connector_node_amount(root as nat, fee as nat, level as nat)
                && fees_covered(root as nat, fee as nat, level as nat),
            None => !fees_covered(root as nat, fee as nat, level as nat),
        },
{
    let mut value: u64 = root;
    let mut i: usize = 0;
    while i < level
        invariant
            i <= level,
            value == connector_node_amount(root as nat, fee as nat, i as nat),
            fees_covered(root as nat, fee as nat, i as nat),
        decreases level - i,
    {
        if value < fee {
            proof {
                if fees_covered(root as nat, fee as nat, level as nat) {
                    lemma_fees_covered_prefix(
                        root as nat,
                        fee as nat,
                        (i + 1) as nat,
                        level as nat,
                    );
                }
            }
            return None;
        }
        value = (value - fee) / 2;
        i = i + 1;
    }
    Some(value)
}

/// In a tree funded with `(dust + fee) * 2^depth`, the node `level` levels
/// down is worth no more than `(dust + fee) * 2^(depth - level)`.
pub proof fn lemma_connector_amounts_bounded(dust: nat, fee: nat, depth: nat, level: nat)
    requires
        level <= depth,
    ensures
        connector_node_amount(connector_amount(depth, dust, fee), fee, level) <= (dust + fee)
            * pow2((depth - level) as nat),
    decreases level,
{
    if level > 0 {
        let up = (level - 1) as nat;
        let root = connector_amount(depth, dust, fee);
        lemma_connector_amounts_bounded(dust, fee, depth, up);
        lemma_pow2_unfold((depth - up) as nat);
        let half = (dust + fee) * pow2((depth - level) as nat);
        assert((dust + fee) * pow2((depth - up) as nat) == 2 * half) by (nonlinear_arith)
            requires
                pow2((depth - up) as nat) == 2 * pow2((depth - level) as nat),
                half == (dust + fee) * pow2((depth - level) as nat),
        ;
    }
}

/// The value of the node `level` levels down in a connector tree of the
/// given depth that is funded with one dust value and one fee for every
/// leaf.
pub fn connector_tree_node_value(tree_depth: usize, level: usize) -> (value: u128)
    requires
        level <= tree_depth <= 66,
    ensures
        value == connector_node_amount(
            connector_amount(tree_depth as nat, DUST_VALUE as nat, MIN_RELAY_FEE as nat),
            MIN_RELAY_FEE as nat,
            level as nat,
        ),
{
    let base: u128 = (DUST_VALUE + MIN_RELAY_FEE) as u128;
    let fee: u128 = MIN_RELAY_FEE as u128;
    let ghost root = connector_amount(tree_depth as nat, DUST_VALUE as nat, MIN_RELAY_FEE as nat);
    proof {
        lemma2_to64();
        lemma_pow2_adds(64, 2);
        assert(base * pow2(66) <= u128::MAX) by (nonlinear_arith)
            requires
                base == 1400,
                pow2(66) == 0x1_0000_0000_0000_0000 * 4,
        ;
        assert(base * pow2(0) == base) by (nonlinear_arith)
            requires
                pow2(0) == 1,
        ;
    }
    let mut amount: u128 = base;
    let mut i: usize = 0;
    while i < tree_depth
        invariant
            i <= tree_depth <= 66,
            base == 1400,
            amount == base * pow2(i as nat),
            base * pow2(66) <= u128::MAX,
        decreases tree_depth - i,
    {
        proof {
            lemma_pow2_unfold((i + 1) as nat);
            if i + 1 < 66 {
                lemma_pow2_strictly_increases((i + 1) as nat, 66);
            }
            assert(base * pow2((i + 1) as nat) <= base * pow2(66)) by (nonlinear_arith)
                requires
                    pow2((i + 1) as nat) <= pow2(66),
                    base > 0,
            ;
            assert(base * pow2((i + 1) as nat) == 2 * (base * pow2(i as nat))) by (nonlinear_arith)
                requires
                    pow2((i + 1) as nat) == 2 * pow2(i as nat),
            ;
        }
        amount = amount * 2;
        i = i + 1;
    }
    proof {
        lemma_connector_amounts_cover_fees(
            DUST_VALUE as nat,
            MIN_RELAY_FEE as nat,
            tree_depth as nat,
            level as nat,
        );
    }
    let mut value: u128 = amount;
    let mut j: usize = 0;
    while j < level
        invariant
            j <= level,
            fee == MIN_RELAY_FEE,
            root == connector_amount(tree_depth as nat, DUST_VALUE as nat, MIN_RELAY_FEE as nat),
            value == connector_node_amount(root, MIN_RELAY_FEE as nat, j as nat),
            fees_covered(root, MIN_RELAY_FEE as nat, level as nat),
        decreases level - j,
    {
        proof {
            lemma_fees_covered_prefix(root, MIN_RELAY_FEE as nat, (j + 1) as nat, level as nat);
        }
        value = (value - fee) / 2;
        j = j + 1;
    }
    value
}

/// Fees covered down to a level are covered down to every level above it.
pub proof fn lemma_fees_covered_prefix(root: nat, fee: nat, level: nat, deeper: nat)
    requires
        level <= deeper,
        fees_covered(root, fee, deeper),
    ensures
        fees_covered(root, fee, level),
    decreases deeper - level,
{
    if level < deeper {
        lemma_fees_covered_prefix(root, fee, level, (deeper - 1) as nat);
    }
}

/// Value conservation in the connector tree: where every split is exact, the
/// leaves together are worth the root less one fee for each of the `2^depth - 1`
/// inner nodes.
pub proof fn lemma_connector_value_conservation(root: nat, fee: nat, depth: nat)
    requires
        splits_exactly(root, fee, depth),
    ensures
        connector_leaves_total(root, fee, depth) == root - (pow2(depth) - 1) * fee,
        (pow2(depth) - 1) * fee <= root,
    decreases depth,
{
    if depth == 0 {
        lemma2_to64();
        assert((1 - 1) * fee == 0) by (nonlinear_arith);
    } else {
        let child = connector_child_amount(root, fee);
        let d = (depth - 1) as nat;
        lemma_connector_value_conservation(child, fee, d);
        lemma_pow2_unfold(depth);
        lemma_pow2_pos(d);
        assert(2 * child == root - fee);
        assert(2 * ((pow2(d) - 1) * fee) + fee == (2 * pow2(d) - 1) * fee) by (nonlinear_arith);
    }
}

/// Whether a node worth `value`, and every node below it down to `height`
/// levels, can pay the fee of its split.
pub open spec fn splits_paid(value: nat, fee: nat, height: nat) -> bool
    decreases height,
{
    height == 0 || (value >= fee && splits_paid(
        connector_child_amount(value, fee),
        fee,
        (height - 1) as nat,
    ))
}

/// Where every split is paid for but not every split is exact, value is
/// lost: the leaves together are worth less than the root less one fee for
/// each inner node. The conservation of value holds for the exact trees and
/// for no others.
pub proof fn lemma_connector_value_lost(root: nat, fee: nat, depth: nat)
    requires
        splits_paid(root, fee, depth),
    ensures
        connector_leaves_total(root, fee, depth) + (pow2(depth) - 1) * fee <= root,
        !splits_exactly(root, fee, depth) ==> connector_leaves_total(root, fee, depth) + (pow2(
            depth,
        ) - 1) * fee < root,
    decreases depth,
{
    if depth == 0 {
        lemma2_to64();
        assert((1 - 1) * fee == 0) by (nonlinear_arith);
    } else {
        let child = connector_child_amount(root, fee);
        let d = (depth - 1) as nat;
        lemma_connector_value_lost(child, fee, d);
        lemma_pow2_unfold(depth);
        lemma_pow2_pos(d);
        assert(2 * child <= root - fee);
        assert((root - fee) % 2 != 0 ==> 2 * child < root - fee);
        assert(2 * ((pow2(d) - 1) * fee) + fee == (2 * pow2(d) - 1) * fee) by (nonlinear_arith);
    }
}

/// The nodes whose preimages are revealed when `count` of the `2^depth`
/// connector leaves have been claimed, as `(level, index)` pairs with the
/// root at level 0, deepest node first.
pub open spec fn reveal_indices(depth: nat, count: nat) -> Seq<(nat, nat)>
    decreases depth,
{
    if count == 0 {
        seq![(0nat, 0nat)]
    } else if depth == 0 || count >= pow2(depth) {
        Seq::empty()
    } else if count % 2 == 1 {
        seq![(depth, count)] + reveal_indices((depth - 1) as nat, (count + 1) / 2)
    } else {
        reveal_indices((depth - 1) as nat, count / 2)
    }
}

/// Whether the node `(level, index)` of a tree of the given depth lies above
/// the leaf: the leaf's ancestor at that level is the node.
pub open spec fn node_covers(depth: nat, node: (nat, nat), leaf: nat) -> bool {
    node.0 <= depth && leaf / pow2((depth - node.0) as nat) == node.1
}

/// Whether one of the nodes lies above the leaf.
pub open spec fn nodes_cover(depth: nat, nodes: Seq<(nat, nat)>, leaf: nat) -> bool {
    exists|i: int| 0 <= i < nodes.len() && node_covers(depth, #[trigger] nodes[i], leaf)
}

proof fn lemma_cover_concat(depth: nat, a: Seq<(nat, nat)>, b: Seq<(nat, nat)>, leaf: nat)
    ensures
        nodes_cover(depth, a + b, leaf) == (nodes_cover(depth, a, leaf) || nodes_cover(
            depth,
            b,
            leaf,
        )),
{
    let ab = a + b;
    if nodes_cover(depth, ab, leaf) {
        let i = choose|i: int| 0 <= i < ab.len() && node_covers(depth, #[trigger] ab[i], leaf);
        if i < a.len() {
            assert(node_covers(depth, a[i], leaf));
        } else {
            assert(node_covers(depth, b[i - a.len()], leaf));
        }
    }
    if nodes_cover(depth, a, leaf) {
        let i = choose|i: int| 0 <= i < a.len() && node_covers(depth, #[trigger] a[i], leaf);
        assert(node_covers(depth, ab[i], leaf));
    }
    if nodes_cover(depth, b, leaf) {
        let i = choose|i: int| 0 <= i < b.len() && node_covers(depth, #[trigger] b[i], leaf);
        assert(node_covers(depth, ab[i + a.len()], leaf));
    }
}

/// The nodes revealed for `count` claims in the subtree of the top `levels`
/// levels lie above exactly those leaves whose ancestor at level `levels` has
/// an index of `count` or more.
proof fn lemma_reveal_covers_from(depth: nat, levels: nat, count: nat, leaf: nat)
    requires
        levels <= depth,
        count <= pow2(levels),
        leaf < pow2(depth),
    ensures
        nodes_cover(depth, reveal_indices(levels, count), leaf) == (count <= leaf / pow2(
            (depth - levels) as nat,
        )),
    decreases levels,
{
    let nodes = reveal_indices(levels, count);
    let below = (depth - levels) as nat;
    let ancestor = leaf / pow2(below);
    lemma_pow2_pos(below);
    lemma_pow2_adds(levels, below);
    assert(ancestor < pow2(levels)) by {
        lemma_mul_is_commutative(pow2(levels) as int, pow2(below) as int);
        vstd::arithmetic::div_mod::lemma_div_by_multiple_is_strongly_ordered(
            leaf as int,
            pow2(depth) as int,
            pow2(levels) as int,
            pow2(below) as int,
        );
        vstd::arithmetic::div_mod::lemma_div_by_multiple(pow2(levels) as int, pow2(below) as int);
    }
    if count == 0 {
        lemma_pow2_pos(depth);
        lemma_basic_div(leaf as int, pow2(depth) as int);
        assert(node_covers(depth, nodes[0], leaf));
    } else if levels == 0 || count >= pow2(levels) {
        lemma2_to64();
    } else {
        let up = (levels - 1) as nat;
        lemma_pow2_unfold(levels);
        lemma_pow2_unfold((below + 1) as nat);
        lemma_div_denominator(leaf as int, pow2(below) as int, 2);
        lemma_mul_is_commutative(pow2(below) as int, 2);
        assert(ancestor / 2 == leaf / pow2((depth - up) as nat));
        if count % 2 == 1 {
            let rest = reveal_indices(up, (count + 1) / 2);
            lemma_reveal_covers_from(depth, up, (count + 1) / 2, leaf);
            lemma_cover_concat(depth, seq![(levels, count)], rest, leaf);
            let single = seq![(levels, count)];
            assert(nodes_cover(depth, single, leaf) == (ancestor == count)) by {
                if ancestor == count {
                    assert(node_covers(depth, single[0], leaf));
                }
            }
        } else {
            lemma_reveal_covers_from(depth, up, count / 2, leaf);
        }
    }
}

/// What the revealed nodes cover: with `count` claims made in a connector
/// tree of the given depth, a leaf lies below a revealed node exactly when
/// it is none of the first `count` leaves. The claimed leaves are the ones
/// left out.
pub proof fn lemma_reveal_indices_cover(depth: nat, count: nat, leaf: nat)
    requires
        count <= pow2(depth),
        leaf < pow2(depth),
    ensures
        nodes_cover(depth, reveal_indices(depth, count), leaf) == (count <= leaf),
{
    lemma_reveal_covers_from(depth, depth, count, leaf);
    lemma2_to64();
}

/// Every revealed node lies in the tree: its level is at most the depth and
/// its index is under the width of its level.
pub proof fn lemma_reveal_indices_in_tree(depth: nat, count: nat, i: int)
    requires
        count <= pow2(depth),
        0 <= i < reveal_indices(depth, count).len(),
    ensures
        reveal_indices(depth, count)[i].0 <= depth,
        reveal_indices(depth, count)[i].1 < pow2(reveal_indices(depth, count)[i].0),
    decreases depth,
{
    lemma2_to64();
    if count == 0 {
    } else if depth == 0 || count >= pow2(depth) {
    } else {
        lemma_pow2_unfold(depth);
        if count % 2 == 1 {
            if i > 0 {
                lemma_reveal_indices_in_tree((depth - 1) as nat, (count + 1) / 2, i - 1);
            }
        } else {
            lemma_reveal_indices_in_tree((depth - 1) as nat, count / 2, i);
        }
    }
}

/// No more than one node is revealed per level, and the root only alone.
pub proof fn lemma_reveal_indices_len(depth: nat, count: nat)
    ensures
        reveal_indices(depth, count).len() <= depth + 1,
        count > 0 ==> reveal_indices(depth, count).len() <= depth,
    decreases depth,
{
    if count == 0 {
    } else if depth == 0 || count >= pow2(depth) {
    } else if count % 2 == 1 {
        lemma_reveal_indices_len((depth - 1) as nat, (count + 1) / 2);
    } else {
        lemma_reveal_indices_len((depth - 1) as nat, count / 2);
    }
}

/// The number of one bits of a number.
pub open spec fn one_bits(n: nat) -> nat
    decreases n,
{
    if n == 0 {
        0
    } else {
        n % 2 + one_bits(n / 2)
    }
}

/// A power of two has one bit.
pub proof fn lemma_one_bits_of_power(e: nat)
    ensures
        one_bits(pow2(e)) == 1,
    decreases e,
{
    lemma_pow2_pos(e);
    if e == 0 {
        lemma2_to64();
        assert(one_bits(1) == 1nat % 2 + one_bits(1nat / 2));
        assert(1nat / 2 == 0);
    } else {
        lemma_pow2_unfold(e);
        lemma_one_bits_of_power((e - 1) as nat);
        assert(pow2(e) % 2 == 0 && pow2(e) / 2 == pow2((e - 1) as nat));
    }
}

/// How many nodes are revealed: as many as the number of leaves that are
/// not claimed has one bits, one node for each.
pub proof fn lemma_reveal_indices_count(depth: nat, count: nat)
    requires
        count <= pow2(depth),
    ensures
        reveal_indices(depth, count).len() == one_bits((pow2(depth) - count) as nat),
    decreases depth,
{
    lemma_pow2_pos(depth);
    let open = (pow2(depth) - count) as nat;
    if count == 0 {
        lemma_one_bits_of_power(depth);
    } else if depth == 0 || count >= pow2(depth) {
        lemma2_to64();
        assert(open == 0);
    } else {
        let up = (depth - 1) as nat;
        lemma_pow2_unfold(depth);
        lemma_pow2_pos(up);
        assert(open > 0);
        assert(one_bits(open) == open % 2 + one_bits(open / 2));
        if count % 2 == 1 {
            assert(open % 2 == 1);
            assert(open / 2 == pow2(up) - (count + 1) / 2);
            lemma_reveal_indices_count(up, (count + 1) / 2);
        } else {
            assert(open % 2 == 0);
            assert(open / 2 == pow2(up) - count / 2);
            lemma_reveal_indices_count(up, count / 2);
        }
    }
}

/// The revealed nodes stand on different levels, the deepest first: no two
/// of them are siblings.
pub proof fn lemma_reveal_indices_descend(depth: nat, count: nat, i: int, j: int)
    requires
        count <= pow2(depth),
        0 <= i < j < reveal_indices(depth, count).len(),
    ensures
        reveal_indices(depth, count)[i].0 > reveal_indices(depth, count)[j].0,
    decreases depth,
{
    if count == 0 {
    } else if depth == 0 || count >= pow2(depth) {
    } else {
        let up = (depth - 1) as nat;
        lemma_pow2_unfold(depth);
        if count % 2 == 1 {
            let rest = reveal_indices(up, (count + 1) / 2);
            assert(reveal_indices(depth, count)[j] == rest[j - 1]);
            lemma_reveal_indices_in_tree(up, (count + 1) / 2, j - 1);
            if i > 0 {
                assert(reveal_indices(depth, count)[i] == rest[i - 1]);
                lemma_reveal_indices_descend(up, (count + 1) / 2, i - 1, j - 1);
            }
        } else {
            lemma_reveal_indices_descend(up, count / 2, i, j);
        }
    }
}

/// No revealed node stands above another: no leaf lies below two of them.
pub proof fn lemma_reveal_indices_are_apart(depth: nat, count: nat, leaf: nat, i: int, j: int)
    requires
        count <= pow2(depth),
        leaf < pow2(depth),
        0 <= i < j < reveal_indices(depth, count).len(),
    ensures
        !(node_covers(depth, reveal_indices(depth, count)[i], leaf) && node_covers(
            depth,
            reveal_indices(depth, count)[j],
            leaf,
        )),
{
    lemma_reveal_apart_from(depth, depth, count, leaf, i, j);
}

/// The same for the nodes revealed in the top `levels` levels of a tree of
/// the given depth.
proof fn lemma_reveal_apart_from(depth: nat, levels: nat, count: nat, leaf: nat, i: int, j: int)
    requires
        levels <= depth,
        count <= pow2(levels),
        leaf < pow2(depth),
        0 <= i < j < reveal_indices(levels, count).len(),
    ensures
        !(node_covers(depth, reveal_indices(levels, count)[i], leaf) && node_covers(
            depth,
            reveal_indices(levels, count)[j],
            leaf,
        )),
    decreases levels,
{
    let nodes = reveal_indices(levels, count);
    if count == 0 {
    } else if levels == 0 || count >= pow2(levels) {
    } else {
        let up = (levels - 1) as nat;
        let below = (depth - levels) as nat;
        let ancestor = leaf / pow2(below);
        lemma_pow2_unfold(levels);
        lemma_pow2_unfold((below + 1) as nat);
        lemma_pow2_pos(below);
        if count % 2 == 1 {
            let rest = reveal_indices(up, (count + 1) / 2);
            assert(nodes[j] == rest[j - 1]);
            if i > 0 {
                assert(nodes[i] == rest[i - 1]);
                lemma_reveal_apart_from(depth, up, (count + 1) / 2, leaf, i - 1, j - 1);
            } else if node_covers(depth, nodes[0], leaf) && node_covers(depth, nodes[j], leaf) {
                assert(ancestor == count);
                assert(nodes_cover(depth, rest, leaf));
                lemma_reveal_covers_from(depth, up, (count + 1) / 2, leaf);
                lemma_div_denominator(leaf as int, pow2(below) as int, 2);
                lemma_mul_is_commutative(pow2(below) as int, 2);
                assert(leaf / pow2((depth - up) as nat) == ancestor / 2);
                assert(false);
            }
        } else {
            lemma_reveal_apart_from(depth, up, count / 2, leaf, i, j);
        }
    }
}

/// The first leaf below a node.
pub open spec fn first_leaf_below(depth: nat, node: (nat, nat)) -> nat {
    node.1 * pow2((depth - node.0) as nat)
}

/// Whether the nodes lie above the leaves that are not claimed, and above
/// no other.
pub open spec fn covers_open_leaves(depth: nat, cover: Seq<(nat, nat)>, count: nat) -> bool {
    forall|leaf: nat| leaf < pow2(depth) ==> #[trigger] nodes_cover(depth, cover, leaf) == (count <= leaf)
}

/// A node of the tree lies above its first leaf, which is a leaf of the
/// tree.
proof fn lemma_first_leaf_is_below(depth: nat, node: (nat, nat))
    requires
        node.0 <= depth,
        node.1 < pow2(node.0),
    ensures
        first_leaf_below(depth, node) < pow2(depth),
        node_covers(depth, node, first_leaf_below(depth, node)),
{
    let below = (depth - node.0) as nat;
    lemma_pow2_pos(below);
    lemma_pow2_adds(node.0, below);
    lemma_div_multiples_vanish(node.1 as int, pow2(below) as int);
    lemma_mul_is_commutative(node.1 as int, pow2(below) as int);
    assert(node.1 * pow2(below) < pow2(node.0) * pow2(below)) by (nonlinear_arith)
        requires
            node.1 < pow2(node.0),
            pow2(below) > 0,
    ;
}

/// Every node that is revealed once a leaf has been claimed is a right
/// child, and the first leaf below its left sibling is claimed: the node
/// cannot be taken any higher.
proof fn lemma_reveal_left_is_claimed(depth: nat, levels: nat, c: nat, count: nat, b: int)
    requires
        levels <= depth,
        0 < c <= pow2(levels),
        (c - 1) * pow2((depth - levels) as nat) < count,
        0 <= b < reveal_indices(levels, c).len(),
    ensures
        reveal_indices(levels, c)[b].0 >= 1,
        reveal_indices(levels, c)[b].0 <= levels,
        reveal_indices(levels, c)[b].1 % 2 == 1,
        (reveal_indices(levels, c)[b].1 - 1) * pow2((depth - reveal_indices(levels, c)[b].0) as nat)
            < count,
    decreases levels,
{
    if levels == 0 || c >= pow2(levels) {
    } else {
        let up = (levels - 1) as nat;
        let below = (depth - levels) as nat;
        lemma_pow2_unfold(levels);
        lemma_pow2_unfold((below + 1) as nat);
        lemma_pow2_pos(below);
        assert((depth - up) as nat == below + 1);
        if c % 2 == 1 {
            if b > 0 {
                let half = (c + 1) / 2;
                assert(reveal_indices(levels, c)[b] == reveal_indices(up, half)[b - 1]);
                assert((half - 1) * (2 * pow2(below)) == (c - 1) * pow2(below)) by (nonlinear_arith)
                    requires
                        2 * (half - 1) == c - 1,
                ;
                lemma_reveal_left_is_claimed(depth, up, half, count, b - 1);
            }
        } else {
            let half = c / 2;
            assert((half - 1) * (2 * pow2(below)) <= (c - 1) * pow2(below)) by (nonlinear_arith)
                requires
                    2 * half == c,
                    pow2(below) > 0,
            ;
            lemma_reveal_left_is_claimed(depth, up, half, count, b);
        }
    }
}

/// A node of a cover that lies above the first leaf below a revealed node
/// lies above no leaf that the revealed node does not lie above: if it
/// stood higher, it would lie above a claimed leaf.
proof fn lemma_cover_node_is_within(
    depth: nat,
    count: nat,
    cover: Seq<(nat, nat)>,
    b: int,
    i: int,
    leaf: nat,
)
    requires
        0 < count <= pow2(depth),
        covers_open_leaves(depth, cover, count),
        0 <= b < reveal_indices(depth, count).len(),
        0 <= i < cover.len(),
        node_covers(depth, cover[i], first_leaf_below(depth, reveal_indices(depth, count)[b])),
        node_covers(depth, cover[i], leaf),
    ensures
        node_covers(depth, reveal_indices(depth, count)[b], leaf),
{
    let node = reveal_indices(depth, count)[b];
    let first = first_leaf_below(depth, node);
    let below = (depth - node.0) as nat;
    let n = cover[i];
    let under = (depth - n.0) as nat;
    lemma2_to64();
    assert((count - 1) * pow2(0) < count);
    lemma_reveal_left_is_claimed(depth, depth, count, count, b);
    lemma_reveal_indices_in_tree(depth, count, b);
    lemma_first_leaf_is_below(depth, node);
    lemma_pow2_pos(below);
    lemma_pow2_pos(under);
    if n.0 < node.0 {
        let k = (node.0 - n.0) as nat;
        let claimed = ((node.1 - 1) * pow2(below)) as nat;
        lemma_pow2_adds(below, k);
        lemma_pow2_pos(k);
        lemma_pow2_unfold(k);
        lemma_pow2_pos((k - 1) as nat);
        assert(under == below + k);
        lemma_div_multiples_vanish(node.1 as int, pow2(below) as int);
        lemma_div_multiples_vanish(node.1 - 1, pow2(below) as int);
        lemma_mul_is_commutative(node.1 as int, pow2(below) as int);
        lemma_mul_is_commutative(node.1 - 1, pow2(below) as int);
        lemma_div_denominator(first as int, pow2(below) as int, pow2(k) as int);
        lemma_div_denominator(claimed as int, pow2(below) as int, pow2(k) as int);
        lemma_div_denominator(node.1 as int, 2, pow2((k - 1) as nat) as int);
        lemma_div_denominator(node.1 - 1, 2, pow2((k - 1) as nat) as int);
        assert((node.1 - 1) / 2 == node.1 / 2);
        assert(claimed / pow2(under) == first / pow2(under));
        assert((node.1 - 1) * pow2(below) < node.1 * pow2(below)) by (nonlinear_arith)
            requires
                pow2(below) > 0,
        ;
        assert(claimed < first);
        assert(node_covers(depth, n, claimed));
        assert(nodes_cover(depth, cover, claimed));
        assert(false);
    } else {
        let k = (n.0 - node.0) as nat;
        lemma_pow2_adds(under, k);
        lemma_pow2_pos(k);
        assert(below == under + k);
        lemma_div_denominator(first as int, pow2(under) as int, pow2(k) as int);
        lemma_div_denominator(leaf as int, pow2(under) as int, pow2(k) as int);
    }
}

/// As many places as are mapped to different places among `len` are no
/// more than `len`.
proof fn lemma_places_suffice(n: nat, len: nat, place: spec_fn(int) -> int)
    requires
        forall|b: int| 0 <= b < n ==> 0 <= #[trigger] place(b) < len,
        forall|a: int, b: int| 0 <= a < b < n ==> #[trigger] place(a) != #[trigger] place(b),
    ensures
        n <= len,
    decreases len,
{
    if n == 0 {
    } else if len == 0 {
        assert(0 <= place(0) < len);
    } else if exists|b: int| 0 <= b < n && #[trigger] place(b) == len - 1 {
        let last = choose|b: int| 0 <= b < n && #[trigger] place(b) == len - 1;
        let others = |b: int|
            if b < last {
                place(b)
            } else {
                place(b + 1)
            };
        assert forall|b: int| 0 <= b < n - 1 implies 0 <= #[trigger] others(b) < len - 1 by {
            if b < last {
                assert(place(b) != place(last));
            } else {
                assert(place(last) != place(b + 1));
            }
        }
        assert forall|a: int, b: int| 0 <= a < b < n - 1 implies #[trigger] others(a)
            != #[trigger] others(b) by {
            let to_a = if a < last {
                a
            } else {
                a + 1
            };
            let to_b = if b < last {
                b
            } else {
                b + 1
            };
            assert(place(to_a) != place(to_b));
        }
        lemma_places_suffice((n - 1) as nat, (len - 1) as nat, others);
    } else {
        assert forall|b: int| 0 <= b < n implies 0 <= #[trigger] place(b) < len - 1 by {}
        lemma_places_suffice(n, (len - 1) as nat, place);
    }
}

/// The revealed nodes are as few as can be: whatever nodes lie above the
/// leaves that are not claimed, and above no other, are no fewer.
pub proof fn lemma_reveal_indices_minimal(depth: nat, count: nat, cover: Seq<(nat, nat)>)
    requires
        count <= pow2(depth),
        covers_open_leaves(depth, cover, count),
    ensures
        reveal_indices(depth, count).len() <= cover.len(),
{
    let nodes = reveal_indices(depth, count);
    lemma_pow2_pos(depth);
    if count == 0 {
        assert(nodes_cover(depth, cover, 0));
    } else {
        let place = |b: int|
            choose|i: int|
                0 <= i < cover.len() && node_covers(
                    depth,
                    #[trigger] cover[i],
                    first_leaf_below(depth, nodes[b]),
                );
        assert forall|b: int| 0 <= b < nodes.len() implies 0 <= #[trigger] place(b) < cover.len()
            && node_covers(depth, cover[place(b)], first_leaf_below(depth, nodes[b])) by {
            let first = first_leaf_below(depth, nodes[b]);
            lemma_reveal_indices_in_tree(depth, count, b);
            lemma_first_leaf_is_below(depth, nodes[b]);
            assert(nodes_cover(depth, nodes, first));
            lemma_reveal_indices_cover(depth, count, first);
            assert(nodes_cover(depth, cover, first));
        }
        assert forall|a: int, b: int| 0 <= a < b < nodes.len() implies #[trigger] place(a)
            != #[trigger] place(b) by {
            if place(a) == place(b) {
                let first = first_leaf_below(depth, nodes[b]);
                lemma_reveal_indices_in_tree(depth, count, b);
                lemma_first_leaf_is_below(depth, nodes[b]);
                lemma_cover_node_is_within(depth, count, cover, a, place(a), first);
                lemma_reveal_indices_are_apart(depth, count, first, a, b);
            }
        }
        lemma_places_suffice(nodes.len(), cover.len(), place);
    }
}

/// The pairs of a vector of indices as mathematical integers.
pub open spec fn indices_view(indices: Seq<(usize, usize)>) -> Seq<(nat, nat)> {
    Seq::new(indices.len(), |i: int| (indices[i].0 as nat, indices[i].1 as nat))
}

/// The nodes of a connector tree of the given depth whose preimages are
/// revealed once `count` leaves have been claimed. Fails with
/// `TreeIndexOutOfRange` exactly where the tree has fewer leaves than
/// `count`.
pub fn get_claim_reveal_indices(depth: usize, count: u32) -> (r: Result<
    Vec<(usize, usize)>,
    BridgeError,
>)
    ensures
        count <= pow2(depth as nat) <==> r is Ok,
        r matches Ok(indices) ==> indices_view(indices@) == reveal_indices(
            depth as nat,
            count as nat,
        ),
        r matches Err(e) ==> e == BridgeError::TreeIndexOutOfRange,
{
    if depth < 32 {
        if count as u64 > pow2_u64(depth) {
            return Err(BridgeError::TreeIndexOutOfRange);
        }
    } else {
        proof {
            lemma2_to64();
            if depth > 32 {
                lemma_pow2_strictly_increases(32, depth as nat);
            }
        }
    }
    Ok(reveal_indices_within(depth, count))
}

/// The same for a count that the tree has leaves for.
pub(crate) fn reveal_indices_within(depth: usize, count: u32) -> (indices: Vec<(usize, usize)>)
    requires
        count <= pow2(depth as nat),
    ensures
        indices_view(indices@) == reveal_indices(depth as nat, count as nat),
{
    let mut indices: Vec<(usize, usize)> = Vec::new();
    let mut level: usize = depth;
    let mut remaining: u32 = count;
    assert(indices_view(indices@) + reveal_indices(level as nat, remaining as nat)
        == reveal_indices(depth as nat, count as nat));
    loop
        invariant_except_break
            remaining <= pow2(level as nat),
            indices_view(indices@) + reveal_indices(level as nat, remaining as nat)
                == reveal_indices(depth as nat, count as nat),
        ensures
            indices_view(indices@) == reveal_indices(depth as nat, count as nat),
        decreases level,
    {
        let ghost before = indices_view(indices@);
        if remaining == 0 {
            indices.push((0, 0));
            assert(indices_view(indices@) == before + seq![(0nat, 0nat)]);
            break ;
        }
        let full = if level < 33 {
            remaining as u64 == pow2_u64(level)
        } else {
            proof {
                lemma_pow2_strictly_increases(32, level as nat);
                lemma2_to64();
            }
            false
        };
        if level == 0 || full {
            proof {
                lemma2_to64();
                assert(indices_view(indices@) == before + Seq::<(nat, nat)>::empty());
            }
            break ;
        }
        proof {
            lemma_pow2_unfold(level as nat);
        }
        if remaining % 2 == 1 {
            indices.push((level, remaining as usize));
            assert(indices_view(indices@) == before + seq![(level as nat, remaining as nat)]);
            assert(before + (seq![(level as nat, remaining as nat)] + reveal_indices(
                (level - 1) as nat,
                ((remaining + 1) / 2) as nat,
            )) == before + seq![(level as nat, remaining as nat)] + reveal_indices(
                (level - 1) as nat,
                ((remaining + 1) / 2) as nat,
            ));
            remaining = remaining / 2 + 1;
        } else {
            remaining = remaining / 2;
        }
        level = level - 1;
    }
    indices
}

/// Whether `hashes` holds one hash for every node of a connector tree of the
/// given depth: level `l` has `2^l` entries.
pub open spec fn connector_tree_shape(hashes: Seq<Seq<Seq<u8>>>, depth: nat) -> bool {
    &&& hashes.len() == depth + 1
    &&& forall|level: int| 0 <= level <= depth ==> (#[trigger] hashes[level]).len() == pow2(level as nat)
}

/// Whether `hashes` has the shape of a connector tree of the given depth.
pub fn has_tree_shape(hashes: &Vec<Vec<[u8; 32]>>, depth: usize) -> (shaped: bool)
    requires
        depth < 32,
    ensures
        shaped == connector_tree_shape(hashes.deep_view(), depth as nat),
{
    if hashes.len() != depth + 1 {
        return false;
    }
    let ghost all = hashes.deep_view();
    let mut level: usize = 0;
    while level <= depth
        invariant
            level <= depth + 1,
            depth < 32,
            hashes@.len() == depth + 1,
            all == hashes.deep_view(),
            forall|l: int| 0 <= l < level ==> (#[trigger] all[l]).len() == pow2(l as nat),
        decreases depth + 1 - level,
    {
        proof {
            lemma2_to64();
            if level < 31 {
                vstd::arithmetic::power2::lemma_pow2_strictly_increases(level as nat, 31);
            }
            assert(hashes@[level as int].deep_view() == all[level as int]);
        }
        if hashes[level].len() as u64 != pow2_u64(level) {
            assert(all[level as int].len() != pow2(level as nat));
            return false;
        }
        level = level + 1;
    }
    true
}

/// The hashes of the given nodes, one after the other.
pub open spec fn revealed_hashes(nodes: Seq<(nat, nat)>, hashes: Seq<Seq<Seq<u8>>>) -> Seq<u8>
    decreases nodes.len(),
{
    if nodes.len() == 0 {
        Seq::empty()
    } else {
        revealed_hashes(nodes.drop_last(), hashes) + hashes[nodes.last().0 as int][nodes.last().1 as int]
    }
}

/// The leaf of the claim tree for `num_claims` claims: the SHA-256 of the
/// hashes of the nodes revealed for that number of claims.
pub open spec fn claim_proof_tree_leaf(
    depth: nat,
    num_claims: nat,
    hashes: Seq<Seq<Seq<u8>>>,
) -> Seq<u8> {
    sha256(revealed_hashes(reveal_indices(depth, num_claims), hashes))
}

/// The leaves of the claim tree: one for each number of claims under `2^depth`.
pub open spec fn claim_proof_leaves(depth: nat, hashes: Seq<Seq<Seq<u8>>>) -> Seq<Seq<u8>> {
    Seq::new(pow2(depth), |claims: int| claim_proof_tree_leaf(depth, claims as nat, hashes))
}

/// The root of the claim tree of a connector tree.
pub open spec fn claim_proof_root(depth: nat, hashes: Seq<Seq<Seq<u8>>>) -> Seq<u8> {
    merkle_root(depth, claim_proof_leaves(depth, hashes))
}

/// Whether there is a claim tree of the given depth over the hashes: the
/// depth is under 32, and there is one hash for every node of a connector
/// tree of that depth.
pub open spec fn claim_tree_fits(depth: nat, hashes: Seq<Seq<Seq<u8>>>) -> bool {
    depth < 32 && connector_tree_shape(hashes, depth)
}

/// The claim-tree leaf for `num_claims` claims over the connector hashes.
/// Fails with `TreeIndexOutOfRange` exactly where there is no claim tree of
/// that depth over the hashes, or the tree has fewer leaves than claims.
pub fn get_claim_proof_tree_leaf(
    depth: usize,
    num_claims: usize,
    connector_tree_hashes: &Vec<Vec<[u8; 32]>>,
) -> (r: Result<[u8; 32], BridgeError>)
    ensures
        claim_tree_fits(depth as nat, connector_tree_hashes.deep_view()) && num_claims <= pow2(
            depth as nat,
        ) <==> r is Ok,
        r matches Ok(leaf) ==> leaf@ == claim_proof_tree_leaf(
            depth as nat,
            num_claims as nat,
            connector_tree_hashes.deep_view(),
        ),
        r matches Err(e) ==> e == BridgeError::TreeIndexOutOfRange,
{
    if depth >= 32 || !has_tree_shape(connector_tree_hashes, depth) {
        return Err(BridgeError::TreeIndexOutOfRange);
    }
    if num_claims as u64 > pow2_u64(depth) {
        return Err(BridgeError::TreeIndexOutOfRange);
    }
    proof {
        lemma2_to64();
        lemma_pow2_strictly_increases(depth as nat, 32);
    }
    Ok(claim_proof_tree_leaf_within(depth, num_claims, connector_tree_hashes))
}

/// The same for a number of claims that the tree has leaves for.
pub(crate) fn claim_proof_tree_leaf_within(
    depth: usize,
    num_claims: usize,
    connector_tree_hashes: &Vec<Vec<[u8; 32]>>,
) -> (leaf: [u8; 32])
    requires
        num_claims <= pow2(depth as nat),
        num_claims <= u32::MAX,
        connector_tree_shape(connector_tree_hashes.deep_view(), depth as nat),
    ensures
        leaf@ == claim_proof_tree_leaf(
            depth as nat,
            num_claims as nat,
            connector_tree_hashes.deep_view(),
        ),
{
    let indices = reveal_indices_within(depth, num_claims as u32);
    let ghost nodes = reveal_indices(depth as nat, num_claims as nat);
    let ghost hashes = connector_tree_hashes.deep_view();
    let mut buf: Vec<u8> = Vec::new();
    let mut i: usize = 0;
    assert(nodes.take(0) == Seq::<(nat, nat)>::empty());
    while i < indices.len()
        invariant
            i <= indices@.len(),
            num_claims <= pow2(depth as nat),
            nodes == reveal_indices(depth as nat, num_claims as nat),
            indices_view(indices@) == nodes,
            hashes == connector_tree_hashes.deep_view(),
            connector_tree_shape(hashes, depth as nat),
            buf@ == revealed_hashes(nodes.take(i as int), hashes),
        decreases indices@.len() - i,
    {
        let (level, index) = indices[i];
        proof {
            lemma_reveal_indices_in_tree(depth as nat, num_claims as nat, i as int);
            assert(nodes[i as int] == (level as nat, index as nat));
            assert(hashes[level as int].len() == pow2(level as nat));
            assert(connector_tree_hashes@[level as int].deep_view() == hashes[level as int]);
            let front = nodes.take(i + 1);
            assert(front.drop_last() == nodes.take(i as int));
            assert(front.last() == nodes[i as int]);
        }
        let hash: [u8; 32] = connector_tree_hashes[level][index];
        assert(hash@ == hashes[level as int][index as int]);
        append_bytes(&mut buf, hash.as_slice());
        i = i + 1;
    }
    assert(nodes.take(i as int) == nodes);
    sha256_hash(buf.as_slice())
}

/// The root of the claim tree over the connector hashes: the Merkle root of
/// the claim-tree leaves for every number of claims under `2^depth`. Fails
/// with `TreeIndexOutOfRange` exactly where there is no claim tree of that
/// depth over the hashes.
pub fn calculate_claim_proof_root(depth: usize, connector_tree_hashes: &Vec<Vec<[u8; 32]>>) -> (r:
    Result<[u8; 32], BridgeError>)
    ensures
        claim_tree_fits(depth as nat, connector_tree_hashes.deep_view()) <==> r is Ok,
        r matches Ok(root) ==> root@ == claim_proof_root(
            depth as nat,
            connector_tree_hashes.deep_view(),
        ),
        r matches Err(e) ==> e == BridgeError::TreeIndexOutOfRange,
{
    if depth >= 32 || !has_tree_shape(connector_tree_hashes, depth) {
        return Err(BridgeError::TreeIndexOutOfRange);
    }
    Ok(claim_proof_root_within(depth, connector_tree_hashes))
}

/// The same where there is such a tree.
#[verifier::rlimit(50)]
pub(crate) fn claim_proof_root_within(depth: usize, connector_tree_hashes: &Vec<Vec<[u8; 32]>>) -> (root:
    [u8; 32])
    requires
        depth < 32,
        connector_tree_shape(connector_tree_hashes.deep_view(), depth as nat),
    ensures
        root@ == claim_proof_root(depth as nat, connector_tree_hashes.deep_view()),
{
    let ghost hashes = connector_tree_hashes.deep_view();
    let ghost leaves = claim_proof_leaves(depth as nat, hashes);
    proof {
        lemma2_to64();
        lemma_pow2_strictly_increases(depth as nat, 32);
    }
    let width: usize = pow2_u64(depth) as usize;
    let mut level_hashes: Vec<[u8; 32]> = Vec::new();
    let mut claims: usize = 0;
    while claims < width
        invariant
            claims <= width,
            width == pow2(depth as nat),
            width < 0x1_0000_0000,
            hashes == connector_tree_hashes.deep_view(),
            connector_tree_shape(hashes, depth as nat),
            leaves == claim_proof_leaves(depth as nat, hashes),
            level_hashes@.len() == claims,
            forall|j: int|
                0 <= j < claims ==> (#[trigger] level_hashes@[j])@ == subtree_root(
                    leaves,
                    0,
                    j as nat,
                ),
        decreases width - claims,
    {
        let leaf = claim_proof_tree_leaf_within(depth, claims, connector_tree_hashes);
        level_hashes.push(leaf);
        claims = claims + 1;
    }
    let mut height: usize = 0;
    let mut level_width: usize = width;
    while height < depth
        invariant
            height <= depth,
            level_width == pow2((depth - height) as nat),
            level_hashes@.len() == level_width,
            forall|j: int|
                0 <= j < level_width ==> (#[trigger] level_hashes@[j])@ == subtree_root(
                    leaves,
                    height as nat,
                    j as nat,
                ),
        decreases depth - height,
    {
        proof {
            lemma_pow2_unfold((depth - height) as nat);
        }
        let half: usize = level_width / 2;
        let mut next: Vec<[u8; 32]> = Vec::new();
        let mut i: usize = 0;
        while i < half
            invariant
                i <= half,
                level_width == 2 * half,
                level_hashes@.len() == level_width,
                next@.len() == i,
                forall|j: int|
                    0 <= j < level_width ==> (#[trigger] level_hashes@[j])@ == subtree_root(
                        leaves,
                        height as nat,
                        j as nat,
                    ),
                forall|j: int|
                    0 <= j < i ==> (#[trigger] next@[j])@ == subtree_root(
                        leaves,
                        (height + 1) as nat,
                        j as nat,
                    ),
            decreases half - i,
        {
            let left = level_hashes[2 * i];
            let right = level_hashes[2 * i + 1];
            let parent = hash_pair(&left, &right);
            next.push(parent);
            i = i + 1;
        }
        level_hashes = next;
        level_width = half;
        height = height + 1;
    }
    proof {
        lemma2_to64();
    }
    level_hashes[0]
}

/// `bitcoin::consensus::encode::Error`, the reason why bytes could not be
/// decoded. It is carried through, never looked into.
#[verifier::external_type_specification]
#[verifier::external_body]
pub struct ExConsensusError(bitcoin::consensus::encode::Error);

/// The number that a hexadecimal digit stands for, in either case.
pub open spec fn hex_digit_value(c: char) -> Option<int> {
    let code = c as u32;
    if 48 <= code <= 57 {
        Some(code - 48)
    } else if 65 <= code <= 70 {
        Some(code - 55)
    } else if 97 <= code <= 102 {
        Some(code - 87)
    } else {
        None
    }
}

/// Whether a string is made of pairs of hexadecimal digits.
pub open spec fn is_hex(text: Seq<char>) -> bool {
    &&& text.len() % 2 == 0
    &&& forall|i: int| 0 <= i < text.len() ==> hex_digit_value(#[trigger] text[i]) is Some
}

/// The bytes that a string of hexadecimal digits stands for, one for each
/// pair of digits. `None` where the string has an odd length or holds
/// another character.
pub open spec fn hex_decoded(text: Seq<char>) -> Option<Seq<u8>> {
    if is_hex(text) {
        Some(
            Seq::new(
                text.len() / 2,
                |i: int|
                    (16 * hex_digit_value(text[2 * i])->0 + hex_digit_value(text[2 * i + 1])->0) as u8,
            ),
        )
    } else {
        None
    }
}

/// The transaction that stands at the front of a byte string in Bitcoin's
/// consensus encoding. `None` where there is none.
pub uninterp spec fn decoded_transaction(bytes: Seq<u8>) -> Option<TransactionView>;

/// Calls `hex::decode`, which takes the string two digits at a time, of
/// either case, and fails on an odd length and on any other character.
#[verifier::external_body]
fn hex_decode(text: &str) -> (r: Option<Vec<u8>>)
    ensures
        match r {
            Some(bytes) => hex_decoded(text@) == Some(bytes@),
            None => hex_decoded(text@) is None,
        },
{
    hex::decode(text).ok()
}

/// Calls `bitcoin::consensus::Decodable::consensus_decode` for a
/// `bitcoin::Transaction` on the bytes, and copies the fields of the result
/// one for one. The contract only names the result.
#[verifier::external_body]
fn consensus_decode_tx(bytes: &[u8]) -> (r: Result<Transaction, bitcoin::consensus::encode::Error>)
    ensures
        match r {
            Ok(tx) => decoded_transaction(bytes@) == Some(tx.deep_view()),
            Err(_) => decoded_transaction(bytes@) is None,
        },
{
    let tx = <bitcoin::Transaction as bitcoin::consensus::Decodable>::consensus_decode(&mut &bytes[..])?;
    let input = tx.input.iter().map(|i| TxIn {
        previous_output: OutPoint { txid: bitcoin::hashes::Hash::to_byte_array(i.previous_output.txid), vout: i.previous_output.vout },
        script_sig: i.script_sig.to_bytes(),
        sequence: i.sequence.0,
        witness: i.witness.to_vec(),
    }).collect();
    let output = tx.output.iter().map(|o| TxOut { value: o.value.to_sat(), script_pubkey: o.script_pubkey.to_bytes() }).collect();
    Ok(Transaction { version: tx.version.0, lock_time: tx.lock_time.to_consensus_u32(), input, output })
}

/// Parses a transaction from the hexadecimal form of its consensus
/// encoding. Fails with `ConsensusError` where the string is no
/// hexadecimal or its bytes do not begin with a transaction.
pub fn parse_hex_to_btc_tx(tx_hex: &str) -> (r: Result<Transaction, BridgeError>)
    ensures
        match r {
            Ok(tx) => hex_decoded(tx_hex@) matches Some(bytes) && decoded_transaction(bytes)
                == Some(tx.deep_view()),
            Err(e) => e == BridgeError::ConsensusError && (hex_decoded(tx_hex@) matches Some(bytes)
                ==> decoded_transaction(bytes) is None),
        },
{
    match hex_decode(tx_hex) {
        Some(bytes) => match consensus_decode_tx(bytes.as_slice()) {
            Ok(tx) => Ok(tx),
            Err(_) => Err(BridgeError::ConsensusError),
        },
        None => Err(BridgeError::ConsensusError),
    }
}

/// The control block that opens `script` in the taproot output of
/// `tree_info`, or `WitnessAssemblyError` where `script` is none of its
/// leaves.
pub fn create_control_block(tree_info: &TaprootSpendInfo, script: &Vec<u8>) -> (r: Result<
    Vec<u8>,
    BridgeError,
>)
    ensures
        match r {
            Ok(block) => taproot_control_block(
                tree_info.internal_key@,
                tree_info.scripts.deep_view(),
                script@,
            ) == Some(block@),
            Err(e) => e == BridgeError::WitnessAssemblyError && taproot_control_block(
                tree_info.internal_key@,
                tree_info.scripts.deep_view(),
                script@,
            ) is None,
        },
{
    match tree_info.control_block(script.as_slice()) {
        Some(block) => Ok(block),
        None => Err(BridgeError::WitnessAssemblyError),
    }
}

/// A transaction with the witness of one input replaced.
pub open spec fn with_witness(tx: TransactionView, index: int, witness: Seq<Seq<u8>>) -> TransactionView {
    TransactionView {
        version: tx.version,
        lock_time: tx.lock_time,
        input: tx.input.update(
            index,
            TxInView {
                previous_output: tx.input[index].previous_output,
                script_sig: tx.input[index].script_sig,
                sequence: tx.input[index].sequence,
                witness,
            },
        ),
        output: tx.output,
    }
}

/// The witness of a script-path spend: the elements that satisfy the
/// script, then the script, then the control block.
pub open spec fn script_path_witness(
    elements: Seq<Seq<u8>>,
    script: Seq<u8>,
    control_block: Seq<u8>,
) -> Seq<Seq<u8>> {
    elements.push(script).push(control_block)
}

/// Appends copies of the items to a witness stack.
pub fn append_items(stack: &mut Vec<Vec<u8>>, items: &Vec<Vec<u8>>)
    ensures
        final(stack).deep_view() == old(stack).deep_view() + items.deep_view(),
{
    let ghost start = stack.deep_view();
    let ghost all = items.deep_view();
    let mut i: usize = 0;
    assert(start + all.take(0) =~= start);
    while i < items.len()
        invariant
            i <= items@.len(),
            all == items.deep_view(),
            all.len() == items@.len(),
            stack.deep_view() == start + all.take(i as int),
        decreases items@.len() - i,
    {
        let item = copy_bytes(items[i].as_slice());
        let ghost before = *stack;
        stack.push(item);
        proof {
            lemma_push_deep_view(before, *stack, item);
            lemma_bytes_deep_view(item);
            lemma_bytes_deep_view(items@[i as int]);
            assert(all[i as int] == item@);
            assert(all.take(i + 1) =~= all.take(i as int).push(all[i as int]));
            assert((start + all.take(i as int)).push(item@) =~= start + all.take(i + 1));
        }
        i = i + 1;
    }
    assert(all.take(i as int) =~= all);
}

/// Replaces the witness of input `index`.
pub fn replace_witness(tx: &mut Transaction, index: usize, witness: Vec<Vec<u8>>)
    requires
        index < old(tx).input@.len(),
    ensures
        final(tx).deep_view() == with_witness(old(tx).deep_view(), index as int, witness.deep_view()),
{
    let ghost before = tx.deep_view();
    let ghost inputs_before = tx.input;
    let input = TxIn {
        previous_output: tx.input[index].previous_output,
        script_sig: copy_bytes(tx.input[index].script_sig.as_slice()),
        sequence: tx.input[index].sequence,
        witness,
    };
    tx.input[index] = input;
    proof {
        lemma_update_deep_view(inputs_before, tx.input, index as int, input);
        assert(tx.deep_view().input =~= with_witness(before, index as int, witness.deep_view()).input);
    }
}

/// The witness stack that holds one item.
pub fn one_item(item: &[u8]) -> (stack: Vec<Vec<u8>>)
    ensures
        stack.deep_view() == seq![item@],
{
    let mut stack: Vec<Vec<u8>> = Vec::new();
    let copy = copy_bytes(item);
    stack.push(copy);
    proof {
        lemma_bytes_deep_view(copy);
        assert(stack.deep_view() =~= seq![item@]);
    }
    stack
}

/// Completes the script-path witness of input `index`: to what the witness
/// already holds it appends `witness_elements`, the script and the script's
/// control block. Fails with `WitnessAssemblyError`, leaving the transaction
/// as it was, where the input does not exist or `script` is no leaf of
/// `tree_info`.
#[verifier::rlimit(50)]
pub fn handle_taproot_witness(
    tx: &mut Transaction,
    index: usize,
    witness_elements: &Vec<Vec<u8>>,
    script: &Vec<u8>,
    tree_info: &TaprootSpendInfo,
) -> (r: Result<(), BridgeError>)
    ensures
        match r {
            Ok(()) => {
                &&& index < old(tx).input@.len()
                &&& taproot_control_block(
                    tree_info.internal_key@,
                    tree_info.scripts.deep_view(),
                    script@,
                ) matches Some(block)
                &&& final(tx).deep_view() == with_witness(
                    old(tx).deep_view(),
                    index as int,
                    old(tx).deep_view().input[index as int].witness + script_path_witness(
                        witness_elements.deep_view(),
                        script@,
                        block,
                    ),
                )
            },
            Err(e) => e == BridgeError::WitnessAssemblyError && (index >= old(tx).input@.len()
                || taproot_control_block(
                tree_info.internal_key@,
                tree_info.scripts.deep_view(),
                script@,
            ) is None) && *final(tx) == *old(tx),
        },
{
    if index >= tx.input.len() {
        return Err(BridgeError::WitnessAssemblyError);
    }
    let control_block = match create_control_block(tree_info, script) {
        Ok(block) => block,
        Err(e) => {
            return Err(e);
        },
    };
    let ghost before = tx.deep_view();
    let ghost inputs_before = tx.input;
    let mut witness: Vec<Vec<u8>> = Vec::new();
    proof {
        lemma_empty_deep_view(witness);
    }
    append_items(&mut witness, &tx.input[index].witness);
    append_items(&mut witness, witness_elements);
    let script_copy = copy_bytes(script.as_slice());
    let ghost with_elements = witness;
    witness.push(script_copy);
    let ghost with_script = witness;
    witness.push(control_block);
    proof {
        lemma_push_deep_view(with_elements, with_script, script_copy);
        lemma_push_deep_view(with_script, witness, control_block);
        lemma_bytes_deep_view(script_copy);
        lemma_bytes_deep_view(control_block);
        assert(witness.deep_view() =~= before.input[index as int].witness + script_path_witness(
            witness_elements.deep_view(),
            script@,
            control_block@,
        ));
    }
    let input = TxIn {
        previous_output: tx.input[index].previous_output,
        script_sig: copy_bytes(tx.input[index].script_sig.as_slice()),
        sequence: tx.input[index].sequence,
        witness,
    };
    tx.input[index] = input;
    proof {
        lemma_update_deep_view(inputs_before, tx.input, index as int, input);
        assert(tx.deep_view().input =~= with_witness(
            before,
            index as int,
            input.deep_view().witness,
        ).input);
    }
    Ok(())
}

} // verus!
