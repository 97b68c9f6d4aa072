//! The ledger: reading blocks and their parts by height, transactions and
//! programs by ID, and the views over all transitions.
use snarkvm_verified::ledger::Ledger;
use snarkvm_verified::store::block_store::LedgerError;
use snarkvm_verified::store::types::{
    Block, CoinbaseSolution, Execution, Fee, Header, Input, Output, Program, Proof, Record, Signature, Transaction,
    Transition,
};

fn transition(id: u64, seed: u64) -> Transition {
    Transition {
        id,
        inputs: vec![Input::Public(seed), Input::Record(seed + 1, seed + 2), Input::ExternalRecord(seed + 3)],
        outputs: vec![
            Output::Record(seed + 4, seed + 5, Some(Record { owner: seed + 6, data: seed + 7, nonce: seed + 8 })),
            Output::Record(seed + 9, seed + 10, None),
            Output::Public(seed + 11),
        ],
        tpk: seed + 12,
    }
}

fn execution(id: u64, tid: u64, seed: u64) -> Transaction {
    Transaction::Execute(
        id,
        Execution { transitions: vec![transition(tid, seed)], global_state_root: 1, inclusion_proof: None },
        Some(Fee { transition: transition(tid + 1, seed + 50), global_state_root: 2, inclusion_proof: Some(Proof { value: 9 }) }),
    )
}

fn genesis() -> Block {
    Block {
        hash: 1000,
        previous_hash: 0,
        header: Header { previous_state_root: 0, transactions_root: 77, height: 0, timestamp: 1_650_000_000 },
        transactions: vec![execution(500, 10, 100)],
        coinbase: None,
        signature: Signature { value: 31 },
    }
}

fn second_block() -> Block {
    Block {
        hash: 2000,
        previous_hash: 1000,
        header: Header { previous_state_root: 5, transactions_root: 78, height: 1, timestamp: 1_650_000_020 },
        transactions: vec![Transaction::Deploy(600, Program { id: 70, checksum: 71 }), execution(501, 20, 200)],
        coinbase: Some(CoinbaseSolution { commitment: 123 }),
        signature: Signature { value: 32 },
    }
}

#[test]
fn test_get_block() {
    // Load the genesis block.
    let genesis = genesis();

    // Initialize a new ledger.
    let ledger = Ledger::with_genesis(&genesis);
    // Retrieve the genesis block.
    let candidate = ledger.get_block(0).unwrap();
    // Ensure the genesis block matches.
    assert_eq!(genesis, candidate);
}

#[test]
fn blocks_read_back_by_height() {
    let mut ledger = Ledger::new();
    ledger.insert_block(&genesis());
    ledger.insert_block(&second_block());

    assert_eq!(Ok(second_block()), ledger.get_block(1));
    assert_eq!(Ok(1000), ledger.get_hash(0));
    assert_eq!(Ok(2000), ledger.get_hash(1));
    assert_eq!(Ok(0), ledger.get_previous_hash(0));
    assert_eq!(Ok(1000), ledger.get_previous_hash(1));
    assert_eq!(Ok(2000), ledger.get_previous_hash(2));
    assert_eq!(Ok(second_block().header), ledger.get_header(1));
    assert_eq!(Ok(second_block().transactions), ledger.get_transactions(1));
    assert_eq!(Ok(Some(CoinbaseSolution { commitment: 123 })), ledger.get_coinbase_proof(1));
    assert_eq!(Ok(None), ledger.get_coinbase_proof(0));
    assert_eq!(Ok(Signature { value: 32 }), ledger.get_signature(1));
}

#[test]
fn missing_heights_give_errors() {
    let mut ledger = Ledger::new();
    assert_eq!(Err(LedgerError::MissingBlock), ledger.get_block(0));
    assert_eq!(Err(LedgerError::MissingHash), ledger.get_hash(0));
    assert_eq!(Ok(0), ledger.get_previous_hash(0));
    assert_eq!(Err(LedgerError::MissingPreviousHash), ledger.get_previous_hash(1));
    ledger.insert_block(&genesis());
    assert_eq!(Err(LedgerError::MissingBlock), ledger.get_header(5));
    assert_eq!(Err(LedgerError::MissingBlock), ledger.get_transactions(5));
    assert_eq!(Err(LedgerError::MissingBlock), ledger.get_coinbase_proof(5));
    assert_eq!(Err(LedgerError::MissingBlock), ledger.get_signature(5));
    assert_eq!(Err(LedgerError::MissingPreviousHash), ledger.get_previous_hash(2));
}

#[test]
fn a_block_above_a_gap_has_no_previous_hash() {
    let mut ledger = Ledger::new();
    let mut block = second_block();
    block.header.height = 3;
    ledger.insert_block(&block);
    assert_eq!(Err(LedgerError::MissingPreviousHash), ledger.get_block(3));
    assert_eq!(Ok(2000), ledger.get_hash(3));
}

#[test]
fn transactions_and_programs_by_id() {
    let mut ledger = Ledger::new();
    ledger.insert_block(&genesis());
    ledger.insert_block(&second_block());

    assert_eq!(Ok(execution(500, 10, 100)), ledger.get_transaction(500));
    assert_eq!(Ok(Transaction::Deploy(600, Program { id: 70, checksum: 71 })), ledger.get_transaction(600));
    assert_eq!(Err(LedgerError::MissingTransaction), ledger.get_transaction(999));
    assert_eq!(Ok(Program { id: 70, checksum: 71 }), ledger.get_program(70));
    assert_eq!(Err(LedgerError::MissingProgram), ledger.get_program(71));

    assert_eq!(vec![500, 600, 501], ledger.transaction_ids());
    assert_eq!(vec![70], ledger.program_ids());
    assert_eq!(vec![Program { id: 70, checksum: 71 }], ledger.programs());
}

#[test]
fn transition_views() {
    let mut ledger = Ledger::new();
    ledger.insert_block(&genesis());

    // Transitions 10 (seed 100) and 11 (seed 150), in insertion order.
    assert_eq!(vec![10, 11], ledger.transition_ids());
    assert_eq!(vec![100, 101, 103, 150, 151, 153], ledger.input_ids());
    assert_eq!(vec![101, 151], ledger.serial_numbers());
    assert_eq!(vec![102, 152], ledger.tags());
    assert_eq!(vec![104, 109, 154, 159], ledger.output_ids());
    assert_eq!(vec![104, 109, 154, 159], ledger.commitments());
    assert_eq!(vec![108, 158], ledger.nonces());
    assert_eq!(
        vec![
            (104, Record { owner: 106, data: 107, nonce: 108 }),
            (154, Record { owner: 156, data: 157, nonce: 158 }),
        ],
        ledger.records()
    );
    assert_eq!(vec![112, 162], ledger.transition_public_keys());
}

#[test]
fn an_empty_ledger_has_empty_views() {
    let ledger = Ledger::new();
    assert!(ledger.transaction_ids().is_empty());
    assert!(ledger.program_ids().is_empty());
    assert!(ledger.programs().is_empty());
    assert!(ledger.transition_ids().is_empty());
    assert!(ledger.input_ids().is_empty());
    assert!(ledger.records().is_empty());
    assert!(ledger.transition_public_keys().is_empty());
}

