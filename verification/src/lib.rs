//! Verified core of a Bitcoin-to-rollup bridge: tapscript construction, Merkle
//! accumulators, transaction assembly and the streaming bridge prover.

pub mod actor;
pub mod bridge;
pub mod config;
pub mod env;
pub mod errors;
pub mod federation;
pub mod hash;
pub mod merkle;
pub mod operator;
pub mod script_builder;
pub mod script_interpreter;
pub mod taproot;
pub mod transaction;
pub mod transaction_builder;
pub mod uint256;
pub mod utils;
pub mod views;
