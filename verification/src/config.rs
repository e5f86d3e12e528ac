//! Compile-time configuration of the bridge.

use vstd::prelude::*;

verus! {

/// Amount, in satoshis, that every deposit moves into the bridge.
pub const BRIDGE_AMOUNT_SATS: u64 = 100_000_000;

/// Value, in satoshis, of the smallest output the bridge creates.
pub const DUST_VALUE: u64 = 1000;

/// Fee, in satoshis, that every bridge transaction leaves to the miners.
pub const MIN_RELAY_FEE: u64 = 400;

/// Depth of the connector tree: it has `2^CONNECTOR_TREE_DEPTH` leaves.
pub const CONNECTOR_TREE_DEPTH: usize = 3;

/// Relative timelock, in blocks, after which the operator may take a
/// connector leaf.
pub const CONNECTOR_TREE_OPERATOR_TAKES_AFTER: u16 = 200;

/// Absolute height after which a depositor may take an unmoved deposit back.
pub const USER_TAKES_AFTER: u32 = 200;

/// Number of periods the bridge prover walks through.
pub const NUM_ROUNDS: usize = 4;

/// Depth of the block-hash and withdrawal Merkle accumulators.
pub const DEPTH: usize = 32;

/// Number of headers before the end of a period at which the light client's
/// block hash is taken.
pub const MAX_BLOCK_HANDLE_OPS: u32 = 4;

} // verus!
