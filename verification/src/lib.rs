//! Verified core of a zero-knowledge virtual machine: circuit modes, boolean
//! gadgets, fixed-width integer gadgets over bits, ledger stores, the command
//! line, circuit identifiers, a pool of tasks, the prover's batch bookkeeping
//! and the byte layout of functions.
use vstd::prelude::*;

pub mod bits;
pub mod mode;
pub mod circuit;
pub mod traits;
pub mod boolean;
pub mod integers;
pub mod store;
pub mod ledger;
pub mod parallel;
pub mod cli;
pub mod circuit_id;
pub mod prover_state;
pub mod function_bytes;

verus! {

} // verus!
