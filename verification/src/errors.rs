//! The error taxonomy shared by every component of the bridge.

use vstd::prelude::*;

verus! {

/// Why an operation of the bridge was refused.
#[derive(Debug, Clone, Copy, PartialEq, Eq, Structural)]
pub enum BridgeError {
    /// A deposit does not pay the bridge amount, pays it to another script,
    /// or spends another outpoint than the announced one.
    InvalidDeposit,
    /// No presignatures were given for the deposit, or none are on record
    /// for it.
    PresignMissing,
    /// Presignatures were given, but not one by every verifier.
    PresignMalformed,
    /// A script could not be built (oversized push, impossible timelock).
    ScriptBuildError,
    /// A witness could not be assembled: the input does not exist or no
    /// control block can be derived for the script.
    WitnessAssemblyError,
    /// The Merkle accumulator already holds as many leaves as it has room for.
    TreeFull,
    /// A depth, level or index lies outside the tree.
    TreeIndexOutOfRange,
    /// The node could not be reached.
    RpcError,
    /// A header misses its target, or a Merkle path leads to another root.
    ConsensusError,
    /// A revealed preimage does not hash to the announced slot.
    ProtocolViolation,
    /// The prover's input ended in the middle of a record.
    UnexpectedEndOfInput,
}

} // verus!
