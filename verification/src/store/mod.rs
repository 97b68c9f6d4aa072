//! In-memory storage for the ledger: blocks, transactions and transitions.
pub mod id_map;
pub mod types;
pub mod transition_store;
pub mod execution_store;
pub mod transaction_store;
pub mod block_store;
