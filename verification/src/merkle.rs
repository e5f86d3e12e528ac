//! Binary Merkle trees over SHA-256: the reference root of a zero-padded leaf
//! sequence, the append-only accumulator that maintains it in `O(depth)` per
//! leaf, and inclusion paths.

use vstd::prelude::*;
use vstd::arithmetic::div_mod::{lemma_basic_div, lemma_div_denominator, lemma_fundamental_div_mod};
use vstd::arithmetic::mul::lemma_mul_is_commutative;
use vstd::arithmetic::power2::{lemma_pow2_pos, lemma_pow2_unfold, pow2};
use crate::errors::BridgeError;
use crate::hash::{hash_pair, hash_pair_spec, zero_bytes};

verus! {

/// The largest depth an accumulator can be made with.
pub const MAX_TREE_DEPTH: usize = 32;

/// The leaf that stands in every position not yet filled.
pub open spec fn zero_leaf() -> Seq<u8> {
    zero_bytes(32)
}

/// The root of a subtree of the given height that holds only zero leaves.
pub open spec fn zero_hash(height: nat) -> Seq<u8>
    decreases height,
{
    if height == 0 {
        zero_leaf()
    } else {
        hash_pair_spec(zero_hash((height - 1) as nat), zero_hash((height - 1) as nat))
    }
}

/// The root of the subtree of the given height that is number `index`, from
/// the left, among the subtrees of that height. Its leaves are those numbered
/// from `index * 2^height`; a position past the end of `leaves` holds the
/// zero leaf.
pub open spec fn subtree_root(leaves: Seq<Seq<u8>>, height: nat, index: nat) -> Seq<u8>
    decreases height,
{
    if height == 0 {
        if index < leaves.len() {
            leaves[index as int]
        } else {
            zero_leaf()
        }
    } else {
        hash_pair_spec(
            subtree_root(leaves, (height - 1) as nat, 2 * index),
            subtree_root(leaves, (height - 1) as nat, 2 * index + 1),
        )
    }
}

/// The Merkle root of `leaves`, padded on the right with zero leaves to the
/// width `2^depth`.
pub open spec fn merkle_root(depth: nat, leaves: Seq<Seq<u8>>) -> Seq<u8> {
    subtree_root(leaves, depth, 0)
}

/// The root reached from `node` by hashing it, level by level, with the given
/// siblings. The lowest bit of `index` says on which side the node stands.
pub open spec fn path_root(node: Seq<u8>, index: nat, siblings: Seq<Seq<u8>>) -> Seq<u8>
    decreases siblings.len(),
{
    if siblings.len() == 0 {
        node
    } else {
        let parent = if index % 2 == 0 {
            hash_pair_spec(node, siblings[0])
        } else {
            hash_pair_spec(siblings[0], node)
        };
        path_root(parent, index / 2, siblings.skip(1))
    }
}

/// The index of the sibling of the node with the given index.
pub open spec fn sibling_index(index: nat) -> nat {
    if index % 2 == 0 {
        index + 1
    } else {
        (index - 1) as nat
    }
}

/// A subtree that begins at or past the end of the leaves is a zero subtree.
pub proof fn lemma_subtree_past_end(leaves: Seq<Seq<u8>>, height: nat, index: nat)
    requires
        index * pow2(height) >= leaves.len(),
    ensures
        subtree_root(leaves, height, index) == zero_hash(height),
    decreases height,
{
    if height > 0 {
        let h = (height - 1) as nat;
        lemma_pow2_unfold(height);
        assert((2 * index) * pow2(h) == index * pow2(height)) by (nonlinear_arith)
            requires
                pow2(height) == 2 * pow2(h),
        ;
        assert((2 * index + 1) * pow2(h) >= index * pow2(height)) by (nonlinear_arith)
            requires
                pow2(height) == 2 * pow2(h),
        ;
        lemma_subtree_past_end(leaves, h, 2 * index);
        lemma_subtree_past_end(leaves, h, 2 * index + 1);
    } else {
        assert(pow2(0) == 1) by {
            vstd::arithmetic::power2::lemma2_to64();
        }
    }
}

/// A subtree that ends at or before the end of the leaves does not change
/// when a leaf is appended.
pub proof fn lemma_subtree_before_end(
    leaves: Seq<Seq<u8>>,
    leaf: Seq<u8>,
    height: nat,
    index: nat,
)
    requires
        (index + 1) * pow2(height) <= leaves.len(),
    ensures
        subtree_root(leaves.push(leaf), height, index) == subtree_root(leaves, height, index),
    decreases height,
{
    if height > 0 {
        let h = (height - 1) as nat;
        lemma_pow2_unfold(height);
        assert((2 * index + 2) * pow2(h) == (index + 1) * pow2(height)) by (nonlinear_arith)
            requires
                pow2(height) == 2 * pow2(h),
        ;
        assert((2 * index + 1) * pow2(h) <= (index + 1) * pow2(height)) by (nonlinear_arith)
            requires
                pow2(height) == 2 * pow2(h),
        ;
        lemma_subtree_before_end(leaves, leaf, h, 2 * index);
        lemma_subtree_before_end(leaves, leaf, h, 2 * index + 1);
    } else {
        assert(pow2(0) == 1) by {
            vstd::arithmetic::power2::lemma2_to64();
        }
    }
}

/// Halving an index is dividing by the next power of two.
proof fn lemma_next_level_index(n: nat, level: nat)
    ensures
        (n / pow2(level)) / 2 == n / pow2(level + 1),
        pow2(level + 1) == 2 * pow2(level),
        pow2(level) > 0,
{
    lemma_pow2_pos(level);
    lemma_pow2_unfold(level + 1);
    lemma_div_denominator(n as int, pow2(level) as int, 2);
    lemma_mul_is_commutative(pow2(level) as int, 2);
}

/// The subtree at `level` that holds leaf `n` begins at or before `n` and
/// ends after it.
proof fn lemma_index_bounds(n: nat, level: nat)
    ensures
        (n / pow2(level)) * pow2(level) <= n,
        n < (n / pow2(level) + 1) * pow2(level),
{
    lemma_pow2_pos(level);
    let d = pow2(level) as int;
    lemma_fundamental_div_mod(n as int, d);
    let q = n as int / d;
    assert(q * d == d * q) by (nonlinear_arith);
    assert((q + 1) * d == d * q + d) by (nonlinear_arith);
}

/// An inclusion path made of the true siblings of a position leads to the
/// true root: the path of any position of a tree of the given depth, sibling
/// by sibling from the leaves up, hashes to `merkle_root`.
pub proof fn lemma_true_path_leads_to_root(
    leaves: Seq<Seq<u8>>,
    depth: nat,
    index: nat,
    siblings: Seq<Seq<u8>>,
)
    requires
        index < pow2(depth),
        siblings.len() == depth,
        forall|level: int|
            0 <= level < depth ==> siblings[level] == subtree_root(
                leaves,
                level as nat,
                sibling_index(index / pow2(level as nat)),
            ),
    ensures
        path_root(subtree_root(leaves, 0, index), index, siblings) == merkle_root(depth, leaves),
{
    assert(pow2(0) == 1) by {
        vstd::arithmetic::power2::lemma2_to64();
    }
    lemma_path_from_level(leaves, depth, index, siblings, 0);
    assert(siblings.skip(0) == siblings);
    lemma_basic_div(index as int, pow2(depth) as int);
}

proof fn lemma_path_from_level(
    leaves: Seq<Seq<u8>>,
    depth: nat,
    index: nat,
    siblings: Seq<Seq<u8>>,
    level: nat,
)
    requires
        level <= depth,
        siblings.len() == depth,
        forall|l: int|
            0 <= l < depth ==> siblings[l] == subtree_root(
                leaves,
                l as nat,
                sibling_index(index / pow2(l as nat)),
            ),
    ensures
        path_root(
            subtree_root(leaves, level, index / pow2(level)),
            index / pow2(level),
            siblings.skip(level as int),
        ) == subtree_root(leaves, depth, index / pow2(depth)),
    decreases depth - level,
{
    let rest = siblings.skip(level as int);
    if level < depth {
        let idx = index / pow2(level);
        lemma_next_level_index(index, level);
        assert(rest[0] == siblings[level as int]);
        assert(rest.skip(1) == siblings.skip(level + 1 as int));
        lemma_path_from_level(leaves, depth, index, siblings, level + 1);
        let node = subtree_root(leaves, level, idx);
        let parent = subtree_root(leaves, level + 1, idx / 2);
        assert(parent == hash_pair_spec(
            subtree_root(leaves, level, 2 * (idx / 2)),
            subtree_root(leaves, level, 2 * (idx / 2) + 1),
        ));
        if idx % 2 == 0 {
            assert(2 * (idx / 2) == idx);
            assert(parent == hash_pair_spec(node, rest[0]));
        } else {
            assert(2 * (idx / 2) + 1 == idx);
            assert(parent == hash_pair_spec(rest[0], node));
        }
        assert(path_root(node, idx, rest) == path_root(parent, idx / 2, rest.skip(1)));
    } else {
        lemma_pow2_pos(level);
        assert(rest.len() == 0);
    }
}

/// An append-only Merkle accumulator of a fixed depth. It keeps one node per
/// level and the root; its view is the sequence of leaves added so far.
pub struct IncrementalMerkleTree {
    depth: usize,
    capacity: u64,
    filled_subtrees: Vec<[u8; 32]>,
    zeroes: Vec<[u8; 32]>,
    root: [u8; 32],
    index: u64,
    leaves: Ghost<Seq<Seq<u8>>>,
}

impl View for IncrementalMerkleTree {
    type V = Seq<Seq<u8>>;

    closed spec fn view(&self) -> Seq<Seq<u8>> {
        self.leaves@
    }
}

impl IncrementalMerkleTree {
    /// The depth the accumulator was made with.
    pub closed spec fn spec_depth(&self) -> nat {
        self.depth as nat
    }

    /// The number of the subtree, at the given level, that the next leaf
    /// falls into.
    pub closed spec fn level_index(&self, level: int) -> nat {
        self.index as nat / pow2(level as nat)
    }

    /// The accumulator's invariant: the stored root is the Merkle root of the
    /// leaves, and wherever the next leaf falls into a right subtree, the
    /// stored node of that level is the root of the left subtree beside it.
    pub closed spec fn wf(&self) -> bool {
        &&& self.depth <= MAX_TREE_DEPTH
        &&& self.capacity == pow2(self.depth as nat)
        &&& self.filled_subtrees@.len() == self.depth
        &&& self.zeroes@.len() == self.depth + 1
        &&& forall|i: int| 0 <= i <= self.depth ==> (#[trigger] self.zeroes@[i])@ == zero_hash(i as nat)
        &&& self.index == self.leaves@.len()
        &&& self.index <= self.capacity
        &&& self.root@ == merkle_root(self.depth as nat, self.leaves@)
        &&& forall|i: int|
            0 <= i < self.depth && self.level_index(i) % 2 == 1 ==> (
            #[trigger] self.filled_subtrees@[i])@ == subtree_root(
                self.leaves@,
                i as nat,
                (self.level_index(i) - 1) as nat,
            )
    }

    /// A well-formed accumulator holds no more leaves than it has room for.
    pub proof fn lemma_len_bounded(&self)
        requires
            self.wf(),
        ensures
            self@.len() <= pow2(self.spec_depth()),
            self.spec_depth() <= MAX_TREE_DEPTH,
    {
    }

    /// An empty accumulator of the given depth, or `TreeIndexOutOfRange` if
    /// the depth is over `MAX_TREE_DEPTH`.
    pub fn new(depth: usize) -> (r: Result<IncrementalMerkleTree, BridgeError>)
        ensures
            depth <= MAX_TREE_DEPTH <==> r is Ok,
            r matches Ok(tree) ==> tree.wf() && tree.spec_depth() == depth && tree@ == Seq::<
                Seq<u8>,
            >::empty(),
            r matches Err(e) ==> e == BridgeError::TreeIndexOutOfRange,
    {
        if depth > MAX_TREE_DEPTH {
            return Err(BridgeError::TreeIndexOutOfRange);
        }
        let mut zeroes: Vec<[u8; 32]> = Vec::new();
        let mut filled: Vec<[u8; 32]> = Vec::new();
        let mut current: [u8; 32] = [0u8; 32];
        let mut capacity: u64 = 1;
        assert(current@ =~= zero_leaf());
        zeroes.push(current);
        proof {
            vstd::arithmetic::power2::lemma2_to64();
        }
        let mut i: usize = 0;
        while i < depth
            invariant
                i <= depth <= MAX_TREE_DEPTH,
                zeroes@.len() == i + 1,
                filled@.len() == i,
                capacity == pow2(i as nat),
                current@ == zero_hash(i as nat),
                forall|j: int| 0 <= j <= i ==> (#[trigger] zeroes@[j])@ == zero_hash(j as nat),
            decreases depth - i,
        {
            proof {
                lemma_pow2_unfold((i + 1) as nat);
                vstd::arithmetic::power2::lemma_pow2_strictly_increases((i + 1) as nat, 33);
                vstd::arithmetic::power2::lemma2_to64();
            }
            filled.push(current);
            current = hash_pair(&current, &current);
            zeroes.push(current);
            capacity = capacity * 2;
            i = i + 1;
        }
        let ghost leaves = Seq::<Seq<u8>>::empty();
        proof {
            lemma_subtree_past_end(leaves, depth as nat, 0);
        }
        let tree = IncrementalMerkleTree {
            depth,
            capacity,
            filled_subtrees: filled,
            zeroes,
            root: current,
            index: 0,
            leaves: Ghost(leaves),
        };
        proof {
            assert forall|l: int| 0 <= l < depth implies tree.level_index(l) % 2 == 0 by {
                lemma_pow2_pos(l as nat);
                lemma_basic_div(0, pow2(l as nat) as int);
            }
        }
        Ok(tree)
    }

    /// The depth of the tree.
    pub fn depth(&self) -> (d: usize)
        ensures
            d == self.spec_depth(),
    {
        self.depth
    }

    /// The Merkle root of the leaves added so far, padded with zero leaves to
    /// the full width of the tree.
    pub fn root(&self) -> (root: [u8; 32])
        requires
            self.wf(),
        ensures
            root@ == merkle_root(self.spec_depth(), self@),
    {
        self.root
    }

    /// The number of leaves added so far.
    pub fn index(&self) -> (index: u64)
        requires
            self.wf(),
        ensures
            index == self@.len(),
    {
        self.index
    }

    /// Appends a leaf. Fails with `TreeFull`, changing nothing, when the tree
    /// already holds `2^depth` leaves.
    #[verifier::rlimit(50)]
    pub fn add(&mut self, leaf: [u8; 32]) -> (r: Result<(), BridgeError>)
        requires
            old(self).wf(),
        ensures
            final(self).wf(),
            final(self).spec_depth() == old(self).spec_depth(),
            old(self)@.len() < pow2(old(self).spec_depth()) <==> r is Ok,
            r is Ok ==> final(self)@ == old(self)@.push(leaf@),
            r matches Err(e) ==> e == BridgeError::TreeFull && *final(self) == *old(self),
    {
        if self.index >= self.capacity {
            return Err(BridgeError::TreeFull);
        }
        let n = self.index;
        let ghost old_leaves = self.leaves@;
        let ghost new_leaves = old_leaves.push(leaf@);
        let ghost mut carry = true;
        let mut current_index: u64 = n;
        let mut current: [u8; 32] = leaf;
        let mut i: usize = 0;
        proof {
            vstd::arithmetic::power2::lemma2_to64();
        }
        while i < self.depth
            invariant
                i <= self.depth <= MAX_TREE_DEPTH,
                self.depth == old(self).depth,
                self.capacity == old(self).capacity,
                self.index == n,
                n == old(self).index,
                self.leaves@ == old_leaves,
                old_leaves == old(self).leaves@,
                self.zeroes == old(self).zeroes,
                self.root == old(self).root,
                old(self).wf(),
                n < pow2(self.depth as nat),
                new_leaves == old_leaves.push(leaf@),
                self.filled_subtrees@.len() == self.depth,
                current_index == n as nat / pow2(i as nat),
                (n + 1) as nat / pow2(i as nat) == current_index + (if carry {
                    1int
                } else {
                    0int
                }),
                current@ == subtree_root(new_leaves, i as nat, current_index as nat),
                forall|j: int|
                    0 <= j < i && (((n + 1) as nat / pow2(j as nat)) % 2 == 1) ==> (
                    #[trigger] self.filled_subtrees@[j])@ == subtree_root(
                        new_leaves,
                        j as nat,
                        (((n + 1) as nat / pow2(j as nat)) - 1) as nat,
                    ),
                forall|j: int|
                    i <= j < self.depth ==> #[trigger] self.filled_subtrees@[j] == old(self).filled_subtrees@[j],
            decreases self.depth - i,
        {
            let ghost prev_filled = self.filled_subtrees@;
            let ghost idx = current_index as nat;
            proof {
                lemma_next_level_index(n as nat, i as nat);
                lemma_next_level_index((n + 1) as nat, i as nat);
                lemma_index_bounds(n as nat, i as nat);
                assert(old(self).level_index(i as int) == idx);
            }
            let zero = self.zeroes[i];
            if current_index % 2 == 0 {
                self.filled_subtrees[i] = current;
                proof {
                    lemma_subtree_past_end(new_leaves, i as nat, idx + 1);
                    assert(2 * (idx / 2) == idx);
                }
                current = hash_pair(&current, &zero);
            } else {
                let left = self.filled_subtrees[i];
                proof {
                    lemma_subtree_before_end(old_leaves, leaf@, i as nat, (idx - 1) as nat);
                    assert(2 * (idx / 2) + 1 == idx);
                }
                current = hash_pair(&left, &current);
            }
            proof {
                if carry && idx % 2 == 1 {
                    assert((idx + 1) / 2 == idx / 2 + 1);
                } else {
                    carry = false;
                }
            }
            current_index = current_index / 2;
            i = i + 1;
        }
        proof {
            lemma_basic_div(n as int, pow2(self.depth as nat) as int);
        }
        self.root = current;
        self.index = n + 1;
        self.leaves = Ghost(new_leaves);
        proof {
            assert forall|j: int|
                0 <= j < self.depth && self.level_index(j) % 2 == 1 implies (
            #[trigger] self.filled_subtrees@[j])@ == subtree_root(
                self.leaves@,
                j as nat,
                (self.level_index(j) - 1) as nat,
            ) by {}
        }
        Ok(())
    }
}

/// The root that an inclusion path leads to: `node` hashed with each sibling
/// in turn, on the side that `index` gives.
pub fn compute_path_root(node: [u8; 32], index: u64, siblings: &Vec<[u8; 32]>) -> (root: [u8; 32])
    ensures
        root@ == path_root(node@, index as nat, siblings.deep_view()),
{
    let mut current = node;
    let mut current_index = index;
    let mut i: usize = 0;
    let ghost all = siblings.deep_view();
    assert(all.skip(0) == all);
    while i < siblings.len()
        invariant
            i <= siblings@.len(),
            all == siblings.deep_view(),
            all.len() == siblings@.len(),
            path_root(current@, current_index as nat, all.skip(i as int)) == path_root(
                node@,
                index as nat,
                all,
            ),
        decreases siblings@.len() - i,
    {
        let sibling = siblings[i];
        proof {
            let rest = all.skip(i as int);
            assert(rest[0] == sibling@);
            assert(rest.skip(1) == all.skip(i + 1));
        }
        if current_index % 2 == 0 {
            current = hash_pair(&current, &sibling);
        } else {
            current = hash_pair(&sibling, &current);
        }
        current_index = current_index / 2;
        i = i + 1;
    }
    current
}

} // verus!
