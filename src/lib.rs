//! A small proof-of-work ledger: canonical hashing, signatures, Merkle roots,
//! an unspent-output set and the rules that decide whether a block is appended.
use vstd::prelude::*;

pub mod u256;
pub mod encoding;
pub mod hashing;
pub mod crypto;
pub mod types;
pub mod merkle;
pub mod utxo;
pub mod ledger;

verus! {
} // verus!
